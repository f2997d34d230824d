//! Rendering the finished table: the link-list block, the
//! reference-definition block, and the diagnostics block, each as one line
//! per record in table order (first seen first).

use vstd::prelude::*;
use vstd::string::*;
use crate::links::{opt_string_view, Link, LinkModel, LinkTable, TableModel};

verus! {

/// The link-list line of a complete record: `- [text]`.
pub open spec fn list_line(text: Seq<char>) -> Seq<char> {
    "- ["@ + text + "]"@
}

/// The reference-definition line of a complete record:
/// `[text]: url` without a title, `[text]: url "title"` with one.
pub open spec fn def_line(text: Seq<char>, url: Seq<char>, title: Option<Seq<char>>) -> Seq<char> {
    match title {
        Option::None => "["@ + text + "]: "@ + url,
        Option::Some(t) => "["@ + text + "]: "@ + url + " \""@ + t + "\""@,
    }
}

/// The diagnostic line of a partial record:
/// `BAD LINK: url` without a title, `BAD LINK: url "title"` with one.
pub open spec fn bad_link_line(url: Seq<char>, title: Option<Seq<char>>) -> Seq<char> {
    match title {
        Option::None => "BAD LINK: "@ + url,
        Option::Some(t) => "BAD LINK: "@ + url + " \""@ + t + "\""@,
    }
}

/// The link-list lines of a table: one per complete record, in order.
pub open spec fn list_lines(t: TableModel) -> Seq<Seq<char>>
    decreases t.len(),
{
    if t.len() == 0 {
        Seq::empty()
    } else {
        (match t[0].1 {
            LinkModel::Complete { text, .. } => seq![list_line(text)],
            LinkModel::Partial { .. } => Seq::<Seq<char>>::empty(),
        }) + list_lines(t.drop_first())
    }
}

/// The reference-definition lines of a table: one per complete record.
pub open spec fn def_lines(t: TableModel) -> Seq<Seq<char>>
    decreases t.len(),
{
    if t.len() == 0 {
        Seq::empty()
    } else {
        (match t[0].1 {
            LinkModel::Complete { title, text } => seq![def_line(text, t[0].0, title)],
            LinkModel::Partial { .. } => Seq::<Seq<char>>::empty(),
        }) + def_lines(t.drop_first())
    }
}

/// The diagnostic lines of a table: one per partial record.
pub open spec fn bad_link_lines(t: TableModel) -> Seq<Seq<char>>
    decreases t.len(),
{
    if t.len() == 0 {
        Seq::empty()
    } else {
        (match t[0].1 {
            LinkModel::Partial { title } => seq![bad_link_line(t[0].0, title)],
            LinkModel::Complete { .. } => Seq::<Seq<char>>::empty(),
        }) + bad_link_lines(t.drop_first())
    }
}

/// The link-list lines of a concatenation are the concatenated lines.
pub proof fn lemma_list_lines_append(a: TableModel, b: TableModel)
    ensures
        list_lines(a + b) == list_lines(a) + list_lines(b),
    decreases a.len(),
{
    if a.len() == 0 {
        assert(a + b =~= b);
        assert(list_lines(a) + list_lines(b) =~= list_lines(b));
    } else {
        assert((a + b)[0] == a[0]);
        assert((a + b).drop_first() =~= a.drop_first() + b);
        lemma_list_lines_append(a.drop_first(), b);
        assert(list_lines(a + b) =~= list_lines(a) + list_lines(b));
    }
}

/// The reference-definition lines of a concatenation, likewise.
pub proof fn lemma_def_lines_append(a: TableModel, b: TableModel)
    ensures
        def_lines(a + b) == def_lines(a) + def_lines(b),
    decreases a.len(),
{
    if a.len() == 0 {
        assert(a + b =~= b);
        assert(def_lines(a) + def_lines(b) =~= def_lines(b));
    } else {
        assert((a + b)[0] == a[0]);
        assert((a + b).drop_first() =~= a.drop_first() + b);
        lemma_def_lines_append(a.drop_first(), b);
        assert(def_lines(a + b) =~= def_lines(a) + def_lines(b));
    }
}

/// The diagnostic lines of a concatenation, likewise.
pub proof fn lemma_bad_link_lines_append(a: TableModel, b: TableModel)
    ensures
        bad_link_lines(a + b) == bad_link_lines(a) + bad_link_lines(b),
    decreases a.len(),
{
    if a.len() == 0 {
        assert(a + b =~= b);
        assert(bad_link_lines(a) + bad_link_lines(b) =~= bad_link_lines(b));
    } else {
        assert((a + b)[0] == a[0]);
        assert((a + b).drop_first() =~= a.drop_first() + b);
        lemma_bad_link_lines_append(a.drop_first(), b);
        assert(bad_link_lines(a + b) =~= bad_link_lines(a) + bad_link_lines(b));
    }
}

/// The lines a single entry contributes to each block.
pub proof fn lemma_lines_singleton(p: (Seq<char>, LinkModel))
    ensures
        list_lines(seq![p]) == (match p.1 {
            LinkModel::Complete { text, .. } => seq![list_line(text)],
            LinkModel::Partial { .. } => Seq::<Seq<char>>::empty(),
        }),
        def_lines(seq![p]) == (match p.1 {
            LinkModel::Complete { title, text } => seq![def_line(text, p.0, title)],
            LinkModel::Partial { .. } => Seq::<Seq<char>>::empty(),
        }),
        bad_link_lines(seq![p]) == (match p.1 {
            LinkModel::Partial { title } => seq![bad_link_line(p.0, title)],
            LinkModel::Complete { .. } => Seq::<Seq<char>>::empty(),
        }),
{
    let s = seq![p];
    let e = Seq::<(Seq<char>, LinkModel)>::empty();
    assert(s.len() == 1);
    assert(s[0] == p);
    assert(s.drop_first() =~= e);
    assert(list_lines(e) =~= Seq::<Seq<char>>::empty());
    assert(def_lines(e) =~= Seq::<Seq<char>>::empty());
    assert(bad_link_lines(e) =~= Seq::<Seq<char>>::empty());
    match p.1 {
        LinkModel::Complete { title, text } => {
            assert(list_lines(s) =~= seq![list_line(text)]);
            assert(def_lines(s) =~= seq![def_line(text, p.0, title)]);
            assert(bad_link_lines(s) =~= Seq::<Seq<char>>::empty());
        },
        LinkModel::Partial { title } => {
            assert(list_lines(s) =~= Seq::<Seq<char>>::empty());
            assert(def_lines(s) =~= Seq::<Seq<char>>::empty());
            assert(bad_link_lines(s) =~= seq![bad_link_line(p.0, title)]);
        },
    }
}

/// Renders the link-list block: one `- [text]` line per complete record.
pub fn render_link_list(table: &LinkTable) -> (r: Vec<String>)
    ensures
        r.deep_view() == list_lines(table@),
{
    let mut out: Vec<String> = Vec::new();
    let n = table.len();
    let mut i: usize = 0;
    assert(out.deep_view() =~= list_lines(table@.take(0)));
    while i < n
        invariant
            0 <= i <= n,
            n == table@.len(),
            out.deep_view() == list_lines(table@.take(i as int)),
        decreases n - i,
    {
        let ghost prefix = table@.take(i as int);
        proof {
            assert(table@.take(i as int + 1) =~= prefix + seq![table@[i as int]]);
            lemma_list_lines_append(prefix, seq![table@[i as int]]);
            lemma_lines_singleton(table@[i as int]);
        }
        let ghost dv0 = out.deep_view();
        match table.record_at(i) {
            Link::Complete { text, .. } => {
                let mut s = String::from_str("- [");
                s.append(text.as_str());
                s.append("]");
                let ghost sv = s@;
                out.push(s);
                proof {
                    assert(sv =~= list_line(text@));
                    assert(out.deep_view() =~= dv0.push(sv));
                    assert(list_lines(seq![table@[i as int]]) =~= seq![list_line(text@)]);
                    assert(out.deep_view() =~= list_lines(table@.take(i as int + 1)));
                }
            },
            Link::Partial { .. } => {
                proof {
                    assert(list_lines(seq![table@[i as int]]) =~= Seq::<Seq<char>>::empty());
                    assert(out.deep_view() =~= list_lines(table@.take(i as int + 1)));
                }
            },
        }
        i += 1;
    }
    proof {
        assert(table@.take(n as int) =~= table@);
    }
    out
}

/// Renders the reference-definition block: one `[text]: url` or
/// `[text]: url "title"` line per complete record.
pub fn render_definitions(table: &LinkTable) -> (r: Vec<String>)
    ensures
        r.deep_view() == def_lines(table@),
{
    let mut out: Vec<String> = Vec::new();
    let n = table.len();
    let mut i: usize = 0;
    assert(out.deep_view() =~= def_lines(table@.take(0)));
    while i < n
        invariant
            0 <= i <= n,
            n == table@.len(),
            out.deep_view() == def_lines(table@.take(i as int)),
        decreases n - i,
    {
        let ghost prefix = table@.take(i as int);
        proof {
            assert(table@.take(i as int + 1) =~= prefix + seq![table@[i as int]]);
            lemma_def_lines_append(prefix, seq![table@[i as int]]);
            lemma_lines_singleton(table@[i as int]);
        }
        let ghost dv0 = out.deep_view();
        let entry = table.entry(i);
        match &entry.1 {
            Link::Complete { title, text } => {
                let mut s = String::from_str("[");
                s.append(text.as_str());
                s.append("]: ");
                s.append(entry.0.as_str());
                match title {
                    Option::Some(t) => {
                        s.append(" \"");
                        s.append(t.as_str());
                        s.append("\"");
                    },
                    Option::None => {},
                }
                let ghost sv = s@;
                out.push(s);
                proof {
                    assert(sv =~= def_line(text@, table@[i as int].0, opt_string_view(*title)));
                    assert(out.deep_view() =~= dv0.push(sv));
                    assert(def_lines(seq![table@[i as int]]) =~= seq![sv]);
                    assert(out.deep_view() =~= def_lines(table@.take(i as int + 1)));
                }
            },
            Link::Partial { .. } => {
                proof {
                    assert(def_lines(seq![table@[i as int]]) =~= Seq::<Seq<char>>::empty());
                    assert(out.deep_view() =~= def_lines(table@.take(i as int + 1)));
                }
            },
        }
        i += 1;
    }
    proof {
        assert(table@.take(n as int) =~= table@);
    }
    out
}

/// Renders the diagnostics block: one `BAD LINK: ...` line per partial
/// record.
pub fn render_errors(table: &LinkTable) -> (r: Vec<String>)
    ensures
        r.deep_view() == bad_link_lines(table@),
{
    let mut out: Vec<String> = Vec::new();
    let n = table.len();
    let mut i: usize = 0;
    assert(out.deep_view() =~= bad_link_lines(table@.take(0)));
    while i < n
        invariant
            0 <= i <= n,
            n == table@.len(),
            out.deep_view() == bad_link_lines(table@.take(i as int)),
        decreases n - i,
    {
        let ghost prefix = table@.take(i as int);
        proof {
            assert(table@.take(i as int + 1) =~= prefix + seq![table@[i as int]]);
            lemma_bad_link_lines_append(prefix, seq![table@[i as int]]);
            lemma_lines_singleton(table@[i as int]);
        }
        let ghost dv0 = out.deep_view();
        let entry = table.entry(i);
        match &entry.1 {
            Link::Partial { title } => {
                let mut s = String::from_str("BAD LINK: ");
                s.append(entry.0.as_str());
                match title {
                    Option::Some(t) => {
                        s.append(" \"");
                        s.append(t.as_str());
                        s.append("\"");
                    },
                    Option::None => {},
                }
                let ghost sv = s@;
                out.push(s);
                proof {
                    assert(sv =~= bad_link_line(table@[i as int].0, opt_string_view(*title)));
                    assert(out.deep_view() =~= dv0.push(sv));
                    assert(bad_link_lines(seq![table@[i as int]]) =~= seq![sv]);
                    assert(out.deep_view() =~= bad_link_lines(table@.take(i as int + 1)));
                }
            },
            Link::Complete { .. } => {
                proof {
                    assert(bad_link_lines(seq![table@[i as int]]) =~= Seq::<Seq<char>>::empty());
                    assert(out.deep_view() =~= bad_link_lines(table@.take(i as int + 1)));
                }
            },
        }
        i += 1;
    }
    proof {
        assert(table@.take(n as int) =~= table@);
    }
    out
}

} // verus!
