use reflinks::events::InlineEvent;
use reflinks::fold::{insert_or_update_link, links_from_document, links_from_events};
use reflinks::links::{Link, LinkTable};
use reflinks::render::{render_definitions, render_errors, render_link_list};

fn open_link(url: &str, title: &str) -> InlineEvent {
    InlineEvent::LinkStart { url: url.to_string(), title: title.to_string() }
}

fn text(t: &str) -> InlineEvent {
    InlineEvent::Fragment { text: t.to_string() }
}

#[test]
fn definition_line_without_title() {
    let events = vec![open_link("http://a", ""), text("foo"), InlineEvent::LinkEnd];
    let table = links_from_events(&events).unwrap();
    assert_eq!(render_definitions(&table), vec!["[foo]: http://a".to_string()]);
    assert_eq!(render_link_list(&table), vec!["- [foo]".to_string()]);
    assert_eq!(render_errors(&table), Vec::<String>::new());
}

#[test]
fn definition_line_with_title() {
    let events = vec![open_link("http://a", "My Title"), text("foo"), InlineEvent::LinkEnd];
    let table = links_from_events(&events).unwrap();
    assert_eq!(render_definitions(&table), vec!["[foo]: http://a \"My Title\"".to_string()]);
}

#[test]
fn blocks_keep_first_seen_order() {
    let events = vec![
        open_link("http://b", ""),
        text("second"),
        InlineEvent::LinkEnd,
        open_link("http://a", ""),
        text("first"),
        InlineEvent::LinkEnd,
    ];
    let table = links_from_events(&events).unwrap();
    assert_eq!(
        render_link_list(&table),
        vec!["- [second]".to_string(), "- [first]".to_string()]
    );
    assert_eq!(
        render_definitions(&table),
        vec!["[second]: http://b".to_string(), "[first]: http://a".to_string()]
    );
}

#[test]
fn partial_records_render_diagnostics() {
    let mut table = LinkTable::new();
    insert_or_update_link(&"http://a".to_string(), &"".to_string(), &mut table).unwrap();
    insert_or_update_link(&"http://b".to_string(), &"t".to_string(), &mut table).unwrap();
    assert_eq!(render_link_list(&table), Vec::<String>::new());
    assert_eq!(render_definitions(&table), Vec::<String>::new());
    assert_eq!(
        render_errors(&table),
        vec!["BAD LINK: http://a".to_string(), "BAD LINK: http://b \"t\"".to_string()]
    );
}

#[test]
fn document_inline_link_is_extracted() {
    let table = links_from_document("Intro [foo](http://example.com/page) outro.").unwrap();
    assert_eq!(table.len(), 1);
    let (url, link) = table.entry(0);
    assert_eq!(url, "http://example.com/page");
    match link {
        Link::Complete { title, text } => {
            assert_eq!(*title, None);
            assert_eq!(text, "foo");
        }
        other => panic!("expected a complete record, got {:?}", other),
    }
}

#[test]
fn document_link_title_is_kept() {
    let table =
        links_from_document("See [foo](http://example.com \"A Title\") for more.").unwrap();
    match &table.entry(0).1 {
        Link::Complete { title, text } => {
            assert_eq!(title.as_deref(), Some("A Title"));
            assert_eq!(text, "foo");
        }
        other => panic!("expected a complete record, got {:?}", other),
    }
}

#[test]
fn document_emphasis_inside_link_does_not_interrupt() {
    let table = links_from_document("[foo *bar* baz](http://example.com)").unwrap();
    match &table.entry(0).1 {
        Link::Complete { text, .. } => assert_eq!(text, "foo bar baz"),
        other => panic!("expected a complete record, got {:?}", other),
    }
}

#[test]
fn rendered_definition_round_trips_through_markdown_parser() {
    let events = vec![
        open_link("http://example.com/page", "My Title"),
        text("foo"),
        InlineEvent::LinkEnd,
    ];
    let table = links_from_events(&events).unwrap();
    let lines = render_definitions(&table);
    assert_eq!(lines.len(), 1);
    let parser = pulldown_cmark::Parser::new(&lines[0]);
    let defs = parser.reference_definitions();
    let def = defs.get("foo").expect("the rendered line parses as a definition");
    assert_eq!(def.dest.as_ref(), "http://example.com/page");
    assert_eq!(def.title.as_ref().map(|t| t.as_ref()), Some("My Title"));
}

#[test]
fn rendered_definition_without_title_round_trips() {
    let events = vec![open_link("http://example.com/q", ""), text("bar"), InlineEvent::LinkEnd];
    let table = links_from_events(&events).unwrap();
    let lines = render_definitions(&table);
    let parser = pulldown_cmark::Parser::new(&lines[0]);
    let defs = parser.reference_definitions();
    let def = defs.get("bar").expect("the rendered line parses as a definition");
    assert_eq!(def.dest.as_ref(), "http://example.com/q");
    assert_eq!(def.title, None);
}
