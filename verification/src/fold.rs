//! The link accumulator: a strict left-to-right fold over the inline event
//! stream, carrying the tracking cursor and the link table as its only
//! state, together with the conflict resolver it consults on every
//! link-start.
//!
//! The fold's meaning is given by the spec functions [`step`],
//! [`fold_events`] and [`links_of`]; every executable function here is
//! proved to agree with them.

use vstd::prelude::*;
use crate::events::{events_of, tokenize, InlineEvent};
use crate::links::{
    has_url, opt_string_view, record_of, table_wf, url_at, ErrorModel, Link, LinkError, LinkModel,
    LinkTable, TableModel,
};

verus! {

/// Title normalization: an empty title observed in the stream counts as
/// absent and is never stored.
pub open spec fn norm_title(t: Seq<char>) -> Option<Seq<char>> {
    if t.len() == 0 {
        Option::None
    } else {
        Option::Some(t)
    }
}

/// The title a record carries, whichever variant it is.
pub open spec fn record_title(r: LinkModel) -> Option<Seq<char>> {
    match r {
        LinkModel::Partial { title } => title,
        LinkModel::Complete { title, .. } => title,
    }
}

/// The same record with its title set, text kept.
pub open spec fn with_title(r: LinkModel, title: Seq<char>) -> LinkModel {
    match r {
        LinkModel::Partial { .. } => LinkModel::Partial { title: Option::Some(title) },
        LinkModel::Complete { text, .. } => LinkModel::Complete {
            title: Option::Some(title),
            text,
        },
    }
}

/// The conflict resolver's decision for a link-start of `url` with the
/// normalized `title`, on table `t`. On success it returns the new table;
/// on a conflict it returns the existing and the candidate title.
///
/// The rules, in order:
/// - a URL not in the table is inserted as a fresh `Partial`;
/// - reopening with an absent title discards the existing record entirely
///   and inserts a fresh untitled `Partial`, losing any accumulated text;
/// - reopening with a present title against a record whose title is also
///   present fails if the two differ, and leaves the record unchanged if
///   they are equal;
/// - reopening with a present title against an untitled record sets the
///   title and keeps any accumulated text.
pub open spec fn resolve(url: Seq<char>, title: Option<Seq<char>>, t: TableModel) -> Result<
    TableModel,
    (Seq<char>, Seq<char>),
> {
    if !has_url(t, url) {
        Result::Ok(t.push((url, LinkModel::Partial { title })))
    } else {
        match title {
            Option::None => Result::Ok(
                t.update(url_at(t, url), (url, LinkModel::Partial { title: Option::None })),
            ),
            Option::Some(cand) => match record_title(record_of(t, url)) {
                Option::Some(existing) => if existing == cand {
                    Result::Ok(t)
                } else {
                    Result::Err((existing, cand))
                },
                Option::None => Result::Ok(
                    t.update(url_at(t, url), (url, with_title(record_of(t, url), cand))),
                ),
            },
        }
    }
}

/// A record after one text fragment has been folded in.
pub open spec fn appended(r: LinkModel, frag: Seq<char>) -> LinkModel {
    match r {
        LinkModel::Partial { title } => LinkModel::Complete { title, text: frag },
        LinkModel::Complete { title, text } => LinkModel::Complete { title, text: text + frag },
    }
}

/// The table after a fragment is folded into the record keyed by `url`.
/// A URL not in the table leaves it unchanged; the fold never reaches that
/// case, since the cursor only ever holds URLs the table carries.
pub open spec fn append_text(t: TableModel, url: Seq<char>, frag: Seq<char>) -> TableModel {
    if has_url(t, url) {
        t.update(url_at(t, url), (url, appended(record_of(t, url), frag)))
    } else {
        t
    }
}

/// The fold's state: the tracking cursor — the currently open link's URL,
/// if any — and the table accumulated so far.
#[verifier::ext_equal]
pub struct FoldState {
    pub cursor: Option<Seq<char>>,
    pub table: TableModel,
}

/// The state the fold starts from: no open link, empty table.
pub open spec fn init_state() -> FoldState {
    FoldState { cursor: Option::None, table: Seq::empty() }
}

/// One step of the fold.
///
/// A link-start consults the resolver and opens the URL's span; a fragment
/// is folded into the open record, or ignored outside any span; a link-end
/// closes the span unconditionally; any other event changes nothing.
pub open spec fn step(s: FoldState, e: InlineEvent) -> Result<FoldState, ErrorModel> {
    match e {
        InlineEvent::LinkStart { url, title } => match resolve(
            url@,
            norm_title(title@),
            s.table,
        ) {
            Result::Ok(t) => Result::Ok(FoldState { cursor: Option::Some(url@), table: t }),
            Result::Err(p) => Result::Err(
                ErrorModel::TitleConflict { url: url@, existing: p.0, candidate: p.1 },
            ),
        },
        InlineEvent::Fragment { text } => match s.cursor {
            Option::Some(url) => Result::Ok(
                FoldState { cursor: s.cursor, table: append_text(s.table, url, text@) },
            ),
            Option::None => Result::Ok(s),
        },
        InlineEvent::LinkEnd => Result::Ok(FoldState { cursor: Option::None, table: s.table }),
        InlineEvent::Other => Result::Ok(s),
    }
}

/// The fold over a whole event sequence, fail-fast on the first error.
pub open spec fn fold_events(s: FoldState, events: Seq<InlineEvent>) -> Result<
    FoldState,
    ErrorModel,
>
    decreases events.len(),
{
    if events.len() == 0 {
        Result::Ok(s)
    } else {
        match step(s, events[0]) {
            Result::Ok(m) => fold_events(m, events.drop_first()),
            Result::Err(e) => Result::Err(e),
        }
    }
}

/// The finished table of an event stream: the fold from the initial state,
/// followed by the end-of-stream check that no link span is still open.
pub open spec fn links_of(events: Seq<InlineEvent>) -> Result<TableModel, ErrorModel> {
    match fold_events(init_state(), events) {
        Result::Ok(s) => match s.cursor {
            Option::Some(url) => Result::Err(ErrorModel::UnterminatedLink { url }),
            Option::None => Result::Ok(s.table),
        },
        Result::Err(e) => Result::Err(e),
    }
}

/// A successful resolution preserves well-formedness and leaves the URL in
/// the table.
pub proof fn lemma_resolve_ok(url: Seq<char>, title: Option<Seq<char>>, t: TableModel)
    requires
        table_wf(t),
    ensures
        match resolve(url, title, t) {
            Result::Ok(t2) => table_wf(t2) && has_url(t2, url),
            Result::Err(_) => true,
        },
{
    if !has_url(t, url) {
        let t2 = t.push((url, LinkModel::Partial { title }));
        assert(t2[t.len() as int].0 == url);
        assert(has_url(t2, url));
        assert forall|i: int, j: int| 0 <= i < j < t2.len() implies t2[i].0 != t2[j].0 by {
            if j < t.len() {
                assert(t[i].0 != t[j].0);
            } else {
                assert(t2[j].0 == url);
                assert(t2[i].0 == t[i].0);
            }
        }
    } else {
        let i = url_at(t, url);
        assert(0 <= i < t.len() && t[i].0 == url);
        match resolve(url, title, t) {
            Result::Ok(t2) => {
                assert(t2.len() == t.len());
                assert(t2[i].0 == url);
                assert(has_url(t2, url));
                assert forall|a: int, b: int| 0 <= a < b < t2.len() implies t2[a].0 != t2[b].0 by {
                    assert(t[a].0 != t[b].0);
                    assert(t2[a].0 == if a == i {
                        url
                    } else {
                        t[a].0
                    });
                    assert(t2[b].0 == if b == i {
                        url
                    } else {
                        t[b].0
                    });
                }
            },
            Result::Err(_) => {},
        }
    }
}

/// Folding a fragment in preserves well-formedness and every key.
pub proof fn lemma_append_text(t: TableModel, url: Seq<char>, frag: Seq<char>)
    requires
        table_wf(t),
    ensures
        table_wf(append_text(t, url, frag)),
        has_url(t, url) ==> has_url(append_text(t, url, frag), url),
{
    if has_url(t, url) {
        let i = url_at(t, url);
        assert(0 <= i < t.len() && t[i].0 == url);
        let t2 = append_text(t, url, frag);
        assert(t2[i].0 == url);
        assert(has_url(t2, url));
        assert forall|a: int, b: int| 0 <= a < b < t2.len() implies t2[a].0 != t2[b].0 by {
            assert(t[a].0 != t[b].0);
            assert(t2[a].0 == if a == i {
                url
            } else {
                t[a].0
            });
            assert(t2[b].0 == if b == i {
                url
            } else {
                t[b].0
            });
        }
    }
}

/// The fold over a concatenation is the fold over the first part, chained
/// into the fold over the second.
pub proof fn lemma_fold_append(s: FoldState, a: Seq<InlineEvent>, b: Seq<InlineEvent>)
    ensures
        fold_events(s, a + b) == (match fold_events(s, a) {
            Result::Ok(m) => fold_events(m, b),
            Result::Err(e) => Result::<FoldState, ErrorModel>::Err(e),
        }),
    decreases a.len(),
{
    if a.len() == 0 {
        assert(a + b =~= b);
    } else {
        assert((a + b).len() > 0);
        assert((a + b)[0] == a[0]);
        match step(s, a[0]) {
            Result::Ok(m) => {
                assert((a + b).drop_first() =~= a.drop_first() + b);
                lemma_fold_append(m, a.drop_first(), b);
            },
            Result::Err(_) => {},
        }
    }
}

/// The fold over a single event is that event's step.
pub proof fn lemma_fold_one(s: FoldState, e: InlineEvent)
    ensures
        fold_events(s, seq![e]) == step(s, e),
{
    assert(seq![e].len() == 1);
    assert(seq![e][0] == e);
    assert(seq![e].drop_first() =~= Seq::<InlineEvent>::empty());
    match step(s, e) {
        Result::Ok(m) => {
            assert(fold_events(m, seq![e].drop_first()) == Result::<FoldState, ErrorModel>::Ok(m));
        },
        Result::Err(_) => {},
    }
}

/// Clones an optional title, preserving its model.
fn clone_opt_title(t: &Option<String>) -> (r: Option<String>)
    ensures
        opt_string_view(r) == opt_string_view(*t),
{
    match t {
        Option::Some(s) => Option::Some(s.clone()),
        Option::None => Option::None,
    }
}

/// Applies the conflict resolver to a link-start of `url` with raw `title`
/// (empty meaning absent), writing the resolved record into the table, or
/// returning the title conflict and leaving the table untouched.
pub fn insert_or_update_link(url: &String, title: &String, links: &mut LinkTable) -> (r: Result<
    (),
    LinkError,
>)
    requires
        old(links).wf(),
    ensures
        final(links).wf(),
        match resolve(url@, norm_title(title@), old(links)@) {
            Result::Ok(t) => r is Ok && final(links)@ == t,
            Result::Err(p) => (r matches Err(e) && e@ == (ErrorModel::TitleConflict {
                url: url@,
                existing: p.0,
                candidate: p.1,
            })) && final(links)@ == old(links)@,
        },
{
    let norm: Option<String> = if title.as_str().is_empty() {
        Option::None
    } else {
        Option::Some(title.clone())
    };
    assert(opt_string_view(norm) == norm_title(title@));
    match links.find_url(url) {
        Option::None => {
            links.set(url, Link::Partial { title: norm });
            Result::Ok(())
        },
        Option::Some(i) => {
            match norm {
                Option::None => {
                    links.set(url, Link::Partial { title: Option::None });
                    Result::Ok(())
                },
                Option::Some(cand) => {
                    let (cur_title, cur_text): (Option<String>, Option<String>) = match links
                        .record_at(i) {
                        Link::Partial { title } => (clone_opt_title(title), Option::None),
                        Link::Complete { title, text } => (
                            clone_opt_title(title),
                            Option::Some(text.clone()),
                        ),
                    };
                    match cur_title {
                        Option::Some(cur) => {
                            if cur == cand {
                                Result::Ok(())
                            } else {
                                Result::Err(
                                    LinkError::TitleConflict {
                                        url: url.clone(),
                                        existing: cur,
                                        candidate: cand,
                                    },
                                )
                            }
                        },
                        Option::None => {
                            let newlink = match cur_text {
                                Option::None => Link::Partial { title: Option::Some(cand) },
                                Option::Some(tx) => Link::Complete {
                                    title: Option::Some(cand),
                                    text: tx,
                                },
                            };
                            links.set(url, newlink);
                            Result::Ok(())
                        },
                    }
                },
            }
        },
    }
}

/// Folds one text or HTML fragment into the record the cursor points at,
/// returning the cursor for the next step. Outside any link span the
/// fragment is ignored.
pub fn update_link_text(new_text: &String, current: &Option<String>, links: &mut LinkTable) -> (r:
    Option<String>)
    requires
        old(links).wf(),
        *current matches Some(u) ==> has_url(old(links)@, u@),
    ensures
        final(links).wf(),
        match *current {
            Option::Some(u) => final(links)@ == append_text(old(links)@, u@, new_text@) && (
            r matches Some(ru) && ru@ == u@),
            Option::None => final(links)@ == old(links)@ && r is None,
        },
{
    match current {
        Option::Some(url) => {
            let i = links.find_url(url).unwrap();
            let newlink = match links.record_at(i) {
                Link::Partial { title } => Link::Complete {
                    title: clone_opt_title(title),
                    text: new_text.clone(),
                },
                Link::Complete { title, text } => {
                    let mut t2 = text.clone();
                    t2.append(new_text.as_str());
                    Link::Complete { title: clone_opt_title(title), text: t2 }
                },
            };
            links.set(url, newlink);
            Option::Some(url.clone())
        },
        Option::None => Option::None,
    }
}

/// Runs the whole fold over an event sequence: the finished table on
/// success, or the first fatal error — exactly as [`links_of`] says.
pub fn links_from_events(events: &Vec<InlineEvent>) -> (r: Result<LinkTable, LinkError>)
    ensures
        match links_of(events@) {
            Result::Ok(t) => r matches Ok(table) && table@ == t && table.wf(),
            Result::Err(e) => r matches Err(err) && err@ == e,
        },
{
    let mut links = LinkTable::new();
    let mut current: Option<String> = Option::None;
    let n = events.len();
    let mut idx: usize = 0;
    while idx < n
        invariant
            0 <= idx <= n,
            n == events@.len(),
            links.wf(),
            fold_events(init_state(), events@.take(idx as int)) == Result::<
                FoldState,
                ErrorModel,
            >::Ok(FoldState { cursor: opt_string_view(current), table: links@ }),
            opt_string_view(current) matches Some(u) ==> has_url(links@, u),
        decreases n - idx,
    {
        let ghost pre = events@.take(idx as int);
        let ghost st = FoldState { cursor: opt_string_view(current), table: links@ };
        proof {
            let evs1 = seq![events@[idx as int]];
            assert(evs1.len() == 1 && evs1[0] == events@[idx as int]);
            assert(evs1.drop_first() =~= Seq::<InlineEvent>::empty());
            assert(events@.take(idx as int + 1) =~= pre + evs1);
            lemma_fold_append(init_state(), pre, evs1);
            assert(fold_events(init_state(), events@.take(idx as int + 1)) == step(
                st,
                events@[idx as int],
            )) by {
                match step(st, events@[idx as int]) {
                    Result::Ok(m) => {
                        assert(fold_events(m, evs1.drop_first()) == Result::<
                            FoldState,
                            ErrorModel,
                        >::Ok(m));
                    },
                    Result::Err(_) => {},
                }
            }
        }
        let ev = &events[idx];
        match ev {
            InlineEvent::LinkStart { url, title } => {
                proof {
                    lemma_resolve_ok(url@, norm_title(title@), links@);
                }
                match insert_or_update_link(url, title, &mut links) {
                    Result::Ok(_) => {
                        current = Option::Some(url.clone());
                        proof {
                            assert(step(st, events@[idx as int]) == Result::<
                                FoldState,
                                ErrorModel,
                            >::Ok(FoldState { cursor: opt_string_view(current), table: links@ }));
                        }
                    },
                    Result::Err(e) => {
                        proof {
                            assert(events@ =~= events@.take(idx as int + 1) + events@.skip(
                                idx as int + 1,
                            ));
                            lemma_fold_append(
                                init_state(),
                                events@.take(idx as int + 1),
                                events@.skip(idx as int + 1),
                            );
                        }
                        return Result::Err(e);
                    },
                }
            },
            InlineEvent::Fragment { text } => {
                proof {
                    match opt_string_view(current) {
                        Option::Some(u) => lemma_append_text(links@, u, text@),
                        Option::None => (),
                    }
                }
                current = update_link_text(text, &current, &mut links);
                proof {
                    assert(step(st, events@[idx as int]) == Result::<FoldState, ErrorModel>::Ok(
                        FoldState { cursor: opt_string_view(current), table: links@ },
                    ));
                }
            },
            InlineEvent::LinkEnd => {
                current = Option::None;
                proof {
                    assert(step(st, events@[idx as int]) == Result::<FoldState, ErrorModel>::Ok(
                        FoldState { cursor: opt_string_view(current), table: links@ },
                    ));
                }
            },
            InlineEvent::Other => {
                proof {
                    assert(step(st, events@[idx as int]) == Result::<FoldState, ErrorModel>::Ok(
                        FoldState { cursor: opt_string_view(current), table: links@ },
                    ));
                }
            },
        }
        idx += 1;
    }
    proof {
        assert(events@.take(n as int) =~= events@);
    }
    match current {
        Option::Some(url) => Result::Err(LinkError::UnterminatedLink { url }),
        Option::None => Result::Ok(links),
    }
}

/// Extracts the link table of a markdown document: tokenizes it and runs
/// the fold, exactly as [`links_of`] says of the document's event stream.
pub fn links_from_document(contents: &str) -> (r: Result<LinkTable, LinkError>)
    ensures
        match links_of(events_of(contents@)) {
            Result::Ok(t) => r matches Ok(table) && table@ == t && table.wf(),
            Result::Err(e) => r matches Err(err) && err@ == e,
        },
{
    let evs = tokenize(contents);
    links_from_events(&evs)
}

} // verus!
