//! The library's central guarantee, proved once and for all: a document
//! made of well-formed links with pairwise distinct URLs folds into a
//! table with exactly one `Complete` entry per link, in order, whose text
//! is the in-order concatenation of that link's fragments.

use vstd::prelude::*;
use crate::events::InlineEvent;
use crate::fold::{
    append_text, fold_events, init_state, lemma_append_text, lemma_fold_append, lemma_fold_one,
    links_of, norm_title, record_title, step, FoldState,
};
use crate::links::{
    has_url, lemma_push_new_url, lemma_url_at_is, record_of, table_wf, url_at, ErrorModel,
    LinkModel, TableModel,
};

verus! {

/// A well-formed link: a link-start, one or more fragments, a link-end.
pub open spec fn is_link_group(g: Seq<InlineEvent>) -> bool {
    &&& g.len() >= 3
    &&& g[0] matches InlineEvent::LinkStart { .. }
    &&& g[g.len() - 1] matches InlineEvent::LinkEnd
    &&& forall|k: int| 1 <= k < g.len() - 1 ==> (#[trigger] g[k]) matches InlineEvent::Fragment { .. }
}

/// The URL a well-formed link opens with.
pub open spec fn group_url(g: Seq<InlineEvent>) -> Seq<char> {
    match g[0] {
        InlineEvent::LinkStart { url, .. } => url@,
        _ => Seq::empty(),
    }
}

/// The raw title a well-formed link opens with.
pub open spec fn group_title(g: Seq<InlineEvent>) -> Seq<char> {
    match g[0] {
        InlineEvent::LinkStart { title, .. } => title@,
        _ => Seq::empty(),
    }
}

/// In-order concatenation of the fragment texts in a run of events.
pub open spec fn frags_text(evs: Seq<InlineEvent>) -> Seq<char>
    decreases evs.len(),
{
    if evs.len() == 0 {
        Seq::empty()
    } else {
        (match evs[0] {
            InlineEvent::Fragment { text } => text@,
            _ => Seq::<char>::empty(),
        }) + frags_text(evs.drop_first())
    }
}

/// The text of a well-formed link: its fragments, concatenated in order.
pub open spec fn group_text(g: Seq<InlineEvent>) -> Seq<char> {
    frags_text(g.subrange(1, g.len() - 1))
}

/// The table entry a well-formed link folds into.
pub open spec fn group_record(g: Seq<InlineEvent>) -> (Seq<char>, LinkModel) {
    (
        group_url(g),
        LinkModel::Complete { title: norm_title(group_title(g)), text: group_text(g) },
    )
}

/// Folding a run of fragments into an open `Complete` record appends
/// their concatenated text to it and changes nothing else.
proof fn lemma_fold_frags(frs: Seq<InlineEvent>, t: TableModel, url: Seq<char>)
    requires
        table_wf(t),
        has_url(t, url),
        forall|k: int| 0 <= k < frs.len() ==> (#[trigger] frs[k]) matches InlineEvent::Fragment { .. },
        record_of(t, url) matches LinkModel::Complete { .. },
    ensures
        (match record_of(t, url) {
            LinkModel::Complete { title, text } => fold_events(
                FoldState { cursor: Option::Some(url), table: t },
                frs,
            ) == Result::<FoldState, ErrorModel>::Ok(
                FoldState {
                    cursor: Option::Some(url),
                    table: t.update(
                        url_at(t, url),
                        (url, LinkModel::Complete { title, text: text + frags_text(frs) }),
                    ),
                },
            ),
            LinkModel::Partial { .. } => true,
        }),
    decreases frs.len(),
{
    let i = url_at(t, url);
    assert(0 <= i < t.len() && t[i].0 == url);
    match record_of(t, url) {
        LinkModel::Complete { title, text } => {
            if frs.len() == 0 {
                assert(text + frags_text(frs) =~= text);
                assert(t.update(i, (url, LinkModel::Complete { title, text })) =~= t);
            } else {
                assert(frs[0] matches InlineEvent::Fragment { .. });
                match frs[0] {
                    InlineEvent::Fragment { text: f0 } => {
                        let t1 = append_text(t, url, f0@);
                        assert(t1 == t.update(
                            i,
                            (url, LinkModel::Complete { title, text: text + f0@ }),
                        ));
                        lemma_append_text(t, url, f0@);
                        assert(t1[i].0 == url);
                        lemma_url_at_is(t1, url, i);
                        assert(record_of(t1, url) == (LinkModel::Complete {
                            title,
                            text: text + f0@,
                        }));
                        lemma_fold_frags(frs.drop_first(), t1, url);
                        let t2 = t1.update(
                            i,
                            (
                                url,
                                LinkModel::Complete {
                                    title,
                                    text: (text + f0@) + frags_text(frs.drop_first()),
                                },
                            ),
                        );
                        assert((text + f0@) + frags_text(frs.drop_first()) =~= text + (f0@
                            + frags_text(frs.drop_first())));
                        assert(f0@ + frags_text(frs.drop_first()) == frags_text(frs));
                        assert(t2 =~= t.update(
                            i,
                            (url, LinkModel::Complete { title, text: text + frags_text(frs) }),
                        ));
                    },
                    _ => {},
                }
            }
        },
        LinkModel::Partial { .. } => {},
    }
}

/// Folding one well-formed link whose URL is new to the table appends its
/// finished `Complete` record and closes the cursor again.
proof fn lemma_fold_group(g: Seq<InlineEvent>, t: TableModel)
    requires
        table_wf(t),
        is_link_group(g),
        !has_url(t, group_url(g)),
    ensures
        fold_events(FoldState { cursor: Option::None, table: t }, g) == Result::<
            FoldState,
            ErrorModel,
        >::Ok(FoldState { cursor: Option::None, table: t.push(group_record(g)) }),
{
    let glen = g.len() as int;
    let s0 = FoldState { cursor: Option::None, table: t };
    match g[0] {
        InlineEvent::LinkStart { url, title } => {
            let u = url@;
            let nt = norm_title(title@);
            let lt = t.len() as int;
            let p0 = (u, LinkModel::Partial { title: nt });
            let t1 = t.push(p0);
            lemma_push_new_url(t, p0);
            // the first step opens the link
            assert(step(s0, g[0]) == Result::<FoldState, ErrorModel>::Ok(
                FoldState { cursor: Option::Some(u), table: t1 },
            ));
            let s1 = FoldState { cursor: Option::Some(u), table: t1 };
            assert(fold_events(s0, g) == fold_events(s1, g.drop_first()));
            // the remaining events: the fragments, then the closing end
            let mids = g.subrange(1, glen - 1);
            assert(g.drop_first() =~= mids + seq![g[glen - 1]]);
            lemma_fold_append(s1, mids, seq![g[glen - 1]]);
            // the first fragment turns the record Complete
            assert(mids.len() >= 1);
            assert(mids[0] == g[1]);
            assert(g[1] matches InlineEvent::Fragment { .. });
            assert(t1[lt].0 == u);
            lemma_url_at_is(t1, u, lt);
            match mids[0] {
                InlineEvent::Fragment { text: f0 } => {
                    let r1 = LinkModel::Complete { title: nt, text: f0@ };
                    let t2 = t1.update(lt, (u, r1));
                    assert(append_text(t1, u, f0@) == t2);
                    assert(step(s1, mids[0]) == Result::<FoldState, ErrorModel>::Ok(
                        FoldState { cursor: Option::Some(u), table: t2 },
                    ));
                    let s2 = FoldState { cursor: Option::Some(u), table: t2 };
                    assert(fold_events(s1, mids) == fold_events(s2, mids.drop_first()));
                    // the remaining fragments extend the record's text
                    lemma_append_text(t1, u, f0@);
                    assert(t2[lt].0 == u);
                    lemma_url_at_is(t2, u, lt);
                    assert(record_of(t2, u) == r1);
                    assert(forall|k: int|
                        0 <= k < mids.drop_first().len() ==> (#[trigger] mids.drop_first()[k])
                            matches InlineEvent::Fragment { .. });
                    lemma_fold_frags(mids.drop_first(), t2, u);
                    let t3 = t2.update(
                        lt,
                        (
                            u,
                            LinkModel::Complete {
                                title: nt,
                                text: f0@ + frags_text(mids.drop_first()),
                            },
                        ),
                    );
                    assert(fold_events(s2, mids.drop_first()) == Result::<
                        FoldState,
                        ErrorModel,
                    >::Ok(FoldState { cursor: Option::Some(u), table: t3 }));
                    // the closing end clears the cursor
                    let s3 = FoldState { cursor: Option::Some(u), table: t3 };
                    lemma_fold_one(s3, g[glen - 1]);
                    assert(g[glen - 1] matches InlineEvent::LinkEnd);
                    assert(step(s3, g[glen - 1]) == Result::<
                        FoldState,
                        ErrorModel,
                    >::Ok(FoldState { cursor: Option::None, table: t3 }));
                    // the finished table is the push of the finished record
                    assert(f0@ + frags_text(mids.drop_first()) == frags_text(mids));
                    assert(frags_text(mids) == group_text(g));
                    assert(t3 =~= t.push(group_record(g)));
                },
                _ => {},
            }
        },
        _ => {},
    }
}

/// Folding a run of well-formed links with fresh, pairwise distinct URLs
/// appends their finished records in order.
proof fn lemma_fold_groups(groups: Seq<Seq<InlineEvent>>, t: TableModel)
    requires
        table_wf(t),
        forall|i: int| 0 <= i < groups.len() ==> is_link_group(#[trigger] groups[i]),
        forall|i: int| 0 <= i < groups.len() ==> !has_url(t, group_url(#[trigger] groups[i])),
        forall|i: int, j: int|
            0 <= i < j < groups.len() ==> group_url(groups[i]) != group_url(groups[j]),
    ensures
        fold_events(FoldState { cursor: Option::None, table: t }, groups.flatten()) == Result::<
            FoldState,
            ErrorModel,
        >::Ok(
            FoldState {
                cursor: Option::None,
                table: t + groups.map_values(|g: Seq<InlineEvent>| group_record(g)),
            },
        ),
    decreases groups.len(),
{
    let s0 = FoldState { cursor: Option::None, table: t };
    let recs = groups.map_values(|g: Seq<InlineEvent>| group_record(g));
    if groups.len() == 0 {
        assert(groups.flatten() =~= Seq::<InlineEvent>::empty());
        assert(t + recs =~= t);
    } else {
        let g0 = groups[0];
        let rest = groups.drop_first();
        assert(groups.flatten() == g0 + rest.flatten());
        lemma_fold_append(s0, g0, rest.flatten());
        lemma_fold_group(g0, t);
        let r0 = group_record(g0);
        let t1 = t.push(r0);
        lemma_push_new_url(t, r0);
        assert(forall|i: int| 0 <= i < rest.len() ==> rest[i] == groups[i + 1]);
        assert(forall|i: int| 0 <= i < rest.len() ==> is_link_group(#[trigger] rest[i]));
        assert forall|i: int| 0 <= i < rest.len() implies !has_url(
            t1,
            group_url(#[trigger] rest[i]),
        ) by {
            assert(rest[i] == groups[i + 1]);
            assert(group_url(groups[0]) != group_url(groups[i + 1]));
            assert(!has_url(t, group_url(groups[i + 1])));
        }
        assert(forall|i: int, j: int|
            0 <= i < j < rest.len() ==> group_url(rest[i]) != group_url(rest[j]));
        lemma_fold_groups(rest, t1);
        let rrecs = rest.map_values(|g: Seq<InlineEvent>| group_record(g));
        assert(fold_events(s0, groups.flatten()) == Result::<
            FoldState,
            ErrorModel,
        >::Ok(FoldState { cursor: Option::None, table: t1 + rrecs }));
        assert(t1 + rrecs =~= t + recs);
    }
}

/// Fail-fast: once one step of the fold fails, the whole operation fails
/// with exactly that error, whatever events follow — no table is produced.
pub proof fn lemma_fail_fast(events: Seq<InlineEvent>, i: int, s: FoldState, e: ErrorModel)
    requires
        0 <= i < events.len(),
        fold_events(init_state(), events.take(i)) == Result::<FoldState, ErrorModel>::Ok(s),
        step(s, events[i]) == Result::<FoldState, ErrorModel>::Err(e),
    ensures
        links_of(events) == Result::<TableModel, ErrorModel>::Err(e),
{
    assert(events.take(i + 1) =~= events.take(i) + seq![events[i]]);
    lemma_fold_append(init_state(), events.take(i), seq![events[i]]);
    lemma_fold_one(s, events[i]);
    assert(fold_events(init_state(), events.take(i + 1)) == Result::<
        FoldState,
        ErrorModel,
    >::Err(e));
    assert(events =~= events.take(i + 1) + events.skip(i + 1));
    lemma_fold_append(init_state(), events.take(i + 1), events.skip(i + 1));
}

/// A title conflict: reopening a URL with a present title that differs
/// from the present title its record already carries fails the whole
/// operation with exactly that conflict, whatever events follow.
pub proof fn lemma_title_conflict(
    events: Seq<InlineEvent>,
    i: int,
    s: FoldState,
    url: String,
    title: String,
    existing: Seq<char>,
)
    requires
        0 <= i < events.len(),
        fold_events(init_state(), events.take(i)) == Result::<FoldState, ErrorModel>::Ok(s),
        events[i] == (InlineEvent::LinkStart { url, title }),
        title@.len() > 0,
        has_url(s.table, url@),
        record_title(record_of(s.table, url@)) == Option::Some(existing),
        existing != title@,
    ensures
        links_of(events) == Result::<TableModel, ErrorModel>::Err(
            ErrorModel::TitleConflict { url: url@, existing, candidate: title@ },
        ),
{
    assert(norm_title(title@) == Option::Some(title@));
    assert(step(s, events[i]) == Result::<FoldState, ErrorModel>::Err(
        ErrorModel::TitleConflict { url: url@, existing, candidate: title@ },
    ));
    lemma_fail_fast(
        events,
        i,
        s,
        ErrorModel::TitleConflict { url: url@, existing, candidate: title@ },
    );
}

/// An unterminated link: an event stream whose fold ends with a link span
/// still open fails with that URL, and yields no table.
pub proof fn lemma_unterminated(events: Seq<InlineEvent>, s: FoldState, url: Seq<char>)
    requires
        fold_events(init_state(), events) == Result::<FoldState, ErrorModel>::Ok(s),
        s.cursor == Option::Some(url),
    ensures
        links_of(events) == Result::<TableModel, ErrorModel>::Err(
            ErrorModel::UnterminatedLink { url },
        ),
{
}

/// A document of well-formed links with pairwise distinct URLs — each a
/// start, one or more fragments, then an end — folds successfully into a
/// table with exactly one entry per link, in order, each a `Complete`
/// record whose text is the in-order concatenation of that link's
/// fragments and whose title is the link's normalized title.
pub proof fn lemma_well_formed_links(groups: Seq<Seq<InlineEvent>>)
    requires
        forall|i: int| 0 <= i < groups.len() ==> is_link_group(#[trigger] groups[i]),
        forall|i: int, j: int|
            0 <= i < j < groups.len() ==> group_url(groups[i]) != group_url(groups[j]),
    ensures
        links_of(groups.flatten()) matches Ok(t) && t.len() == groups.len() && (forall|i: int|
            0 <= i < groups.len() ==> t[i] == group_record(#[trigger] groups[i])),
{
    let e = Seq::<(Seq<char>, LinkModel)>::empty();
    lemma_fold_groups(groups, e);
    let recs = groups.map_values(|g: Seq<InlineEvent>| group_record(g));
    assert(e + recs =~= recs);
    assert(fold_events(init_state(), groups.flatten()) == Result::<
        FoldState,
        ErrorModel,
    >::Ok(FoldState { cursor: Option::None, table: recs }));
    assert(links_of(groups.flatten()) == Result::<TableModel, ErrorModel>::Ok(recs));
    assert(forall|i: int| 0 <= i < groups.len() ==> recs[i] == group_record(#[trigger] groups[i]));
}

} // verus!
