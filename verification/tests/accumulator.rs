use reflinks::events::InlineEvent;
use reflinks::fold::{insert_or_update_link, links_from_events, update_link_text};
use reflinks::links::{Link, LinkError, LinkTable};

fn start(url: &str, title: &str) -> InlineEvent {
    InlineEvent::LinkStart { url: url.to_string(), title: title.to_string() }
}

fn frag(text: &str) -> InlineEvent {
    InlineEvent::Fragment { text: text.to_string() }
}

#[test]
fn empty_title_is_normalized_to_absent() {
    let events = vec![start("http://a", ""), frag("foo"), InlineEvent::LinkEnd];
    let table = links_from_events(&events).unwrap();
    assert_eq!(table.len(), 1);
    let (url, link) = table.entry(0);
    assert_eq!(url, "http://a");
    match link {
        Link::Complete { title, text } => {
            assert_eq!(*title, None);
            assert_eq!(text, "foo");
        }
        other => panic!("expected a complete record, got {:?}", other),
    }
}

#[test]
fn fragments_concatenate_in_order() {
    let events = vec![start("http://a", "t"), frag("a"), frag("b"), InlineEvent::LinkEnd];
    let table = links_from_events(&events).unwrap();
    assert_eq!(table.len(), 1);
    match &table.entry(0).1 {
        Link::Complete { title, text } => {
            assert_eq!(title.as_deref(), Some("t"));
            assert_eq!(text, "ab");
        }
        other => panic!("expected a complete record, got {:?}", other),
    }
}

#[test]
fn differing_titles_conflict() {
    let events = vec![
        start("http://a", "A"),
        frag("x"),
        InlineEvent::LinkEnd,
        start("http://a", "B"),
    ];
    match links_from_events(&events) {
        Err(LinkError::TitleConflict { url, existing, candidate }) => {
            assert_eq!(url, "http://a");
            assert_eq!(existing, "A");
            assert_eq!(candidate, "B");
        }
        other => panic!("expected a title conflict, got {:?}", other),
    }
}

#[test]
fn stream_end_inside_span_is_unterminated() {
    let events = vec![start("http://a", ""), frag("x")];
    match links_from_events(&events) {
        Err(LinkError::UnterminatedLink { url }) => assert_eq!(url, "http://a"),
        other => panic!("expected an unterminated link, got {:?}", other),
    }
}

#[test]
fn reopening_without_title_discards_accumulated_text() {
    let events = vec![
        start("http://a", ""),
        frag("x"),
        InlineEvent::LinkEnd,
        start("http://a", ""),
        frag("y"),
        InlineEvent::LinkEnd,
    ];
    let table = links_from_events(&events).unwrap();
    assert_eq!(table.len(), 1);
    match &table.entry(0).1 {
        Link::Complete { title, text } => {
            assert_eq!(*title, None);
            assert_eq!(text, "y");
        }
        other => panic!("expected a complete record, got {:?}", other),
    }
}

#[test]
fn reopening_with_same_title_keeps_text() {
    let events = vec![
        start("http://a", "t"),
        frag("x"),
        InlineEvent::LinkEnd,
        start("http://a", "t"),
        frag("y"),
        InlineEvent::LinkEnd,
    ];
    let table = links_from_events(&events).unwrap();
    match &table.entry(0).1 {
        Link::Complete { title, text } => {
            assert_eq!(title.as_deref(), Some("t"));
            assert_eq!(text, "xy");
        }
        other => panic!("expected a complete record, got {:?}", other),
    }
}

#[test]
fn reopening_with_new_title_keeps_text_and_gains_title() {
    let events = vec![
        start("http://a", ""),
        frag("x"),
        InlineEvent::LinkEnd,
        start("http://a", "T"),
        frag("y"),
        InlineEvent::LinkEnd,
    ];
    let table = links_from_events(&events).unwrap();
    match &table.entry(0).1 {
        Link::Complete { title, text } => {
            assert_eq!(title.as_deref(), Some("T"));
            assert_eq!(text, "xy");
        }
        other => panic!("expected a complete record, got {:?}", other),
    }
}

#[test]
fn distinct_links_all_become_complete() {
    let events = vec![
        start("http://a", ""),
        frag("one"),
        InlineEvent::LinkEnd,
        InlineEvent::Other,
        start("http://b", "tb"),
        frag("two"),
        frag("-more"),
        InlineEvent::LinkEnd,
        start("http://c", ""),
        frag("three"),
        InlineEvent::LinkEnd,
    ];
    let table = links_from_events(&events).unwrap();
    assert_eq!(table.len(), 3);
    let expect = [
        ("http://a", None, "one"),
        ("http://b", Some("tb"), "two-more"),
        ("http://c", None, "three"),
    ];
    for (i, (url, title, text)) in expect.iter().enumerate() {
        let (u, link) = table.entry(i);
        assert_eq!(u, url);
        match link {
            Link::Complete { title: t, text: x } => {
                assert_eq!(t.as_deref(), *title);
                assert_eq!(x, text);
            }
            other => panic!("expected a complete record, got {:?}", other),
        }
    }
}

#[test]
fn fragment_outside_any_span_is_ignored() {
    let events = vec![frag("stray"), InlineEvent::LinkEnd, InlineEvent::Other];
    let table = links_from_events(&events).unwrap();
    assert_eq!(table.len(), 0);
}

#[test]
fn other_events_do_not_interrupt_accumulation() {
    let events = vec![
        start("http://a", ""),
        frag("x"),
        InlineEvent::Other,
        frag("y"),
        InlineEvent::LinkEnd,
    ];
    let table = links_from_events(&events).unwrap();
    match &table.entry(0).1 {
        Link::Complete { text, .. } => assert_eq!(text, "xy"),
        other => panic!("expected a complete record, got {:?}", other),
    }
}

#[test]
fn insert_new_url_starts_partial() {
    let mut table = LinkTable::new();
    let r = insert_or_update_link(&"http://a".to_string(), &"t".to_string(), &mut table);
    assert!(r.is_ok());
    assert_eq!(table.len(), 1);
    match &table.entry(0).1 {
        Link::Partial { title } => assert_eq!(title.as_deref(), Some("t")),
        other => panic!("expected a partial record, got {:?}", other),
    }
}

#[test]
fn update_text_turns_partial_complete_and_tracks_cursor() {
    let mut table = LinkTable::new();
    insert_or_update_link(&"http://a".to_string(), &"".to_string(), &mut table).unwrap();
    let cursor = Some("http://a".to_string());
    let r = update_link_text(&"abc".to_string(), &cursor, &mut table);
    assert_eq!(r.as_deref(), Some("http://a"));
    match &table.entry(0).1 {
        Link::Complete { title, text } => {
            assert_eq!(*title, None);
            assert_eq!(text, "abc");
        }
        other => panic!("expected a complete record, got {:?}", other),
    }
    let r2 = update_link_text(&"ignored".to_string(), &None, &mut table);
    assert_eq!(r2, None);
}

#[test]
fn error_messages_are_exact() {
    let conflict = LinkError::TitleConflict {
        url: "http://a".to_string(),
        existing: "A".to_string(),
        candidate: "B".to_string(),
    };
    assert_eq!(conflict.message(), "title conflict for http://a: \"A\" and \"B\"");
    let open = LinkError::UnterminatedLink { url: "http://a".to_string() };
    assert_eq!(open.message(), "unterminated link: http://a");
}
