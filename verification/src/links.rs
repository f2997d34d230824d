//! Link records, the two fatal errors, and the URL-keyed link table.
//!
//! The table keeps its entries in first-seen order and never holds two
//! entries with the same URL; both facts are part of its well-formedness
//! predicate and of every method contract.

use vstd::prelude::*;
use vstd::string::*;

verus! {

/// A link record: `Partial` while the span has produced no text yet,
/// `Complete` once at least one fragment has been folded in.
#[derive(Debug)]
pub enum Link {
    Partial { title: Option<String> },
    Complete { title: Option<String>, text: String },
}

/// Mathematical model of a [`Link`]: the same two variants over sequences.
pub enum LinkModel {
    Partial { title: Option<Seq<char>> },
    Complete { title: Option<Seq<char>>, text: Seq<char> },
}

/// Model of an optional title: the view of each character, `None` kept.
pub open spec fn opt_string_view(t: Option<String>) -> Option<Seq<char>> {
    match t {
        Option::Some(s) => Option::Some(s@),
        Option::None => Option::None,
    }
}

impl View for Link {
    type V = LinkModel;

    open spec fn view(&self) -> LinkModel {
        match *self {
            Link::Partial { title } => LinkModel::Partial { title: opt_string_view(title) },
            Link::Complete { title, text } => LinkModel::Complete {
                title: opt_string_view(title),
                text: text@,
            },
        }
    }
}

/// The two fatal errors: a URL reopened with a different non-absent title,
/// and a link span still open when the event stream ends.
#[derive(Debug)]
pub enum LinkError {
    TitleConflict { url: String, existing: String, candidate: String },
    UnterminatedLink { url: String },
}

/// Mathematical model of a [`LinkError`].
pub enum ErrorModel {
    TitleConflict { url: Seq<char>, existing: Seq<char>, candidate: Seq<char> },
    UnterminatedLink { url: Seq<char> },
}

impl View for LinkError {
    type V = ErrorModel;

    open spec fn view(&self) -> ErrorModel {
        match *self {
            LinkError::TitleConflict { url, existing, candidate } => ErrorModel::TitleConflict {
                url: url@,
                existing: existing@,
                candidate: candidate@,
            },
            LinkError::UnterminatedLink { url } => ErrorModel::UnterminatedLink { url: url@ },
        }
    }
}

/// The one-line description of an error.
pub open spec fn error_message_model(e: ErrorModel) -> Seq<char> {
    match e {
        ErrorModel::TitleConflict { url, existing, candidate } => "title conflict for "@ + url
            + ": \""@ + existing + "\" and \""@ + candidate + "\""@,
        ErrorModel::UnterminatedLink { url } => "unterminated link: "@ + url,
    }
}

impl LinkError {
    /// Renders the error as a single line of text.
    pub fn message(&self) -> (r: String)
        ensures
            r@ == error_message_model(self@),
    {
        match self {
            LinkError::TitleConflict { url, existing, candidate } => {
                let mut s = String::from_str("title conflict for ");
                s.append(url.as_str());
                s.append(": \"");
                s.append(existing.as_str());
                s.append("\" and \"");
                s.append(candidate.as_str());
                s.append("\"");
                assert(s@ =~= error_message_model(self@));
                s
            }
            LinkError::UnterminatedLink { url } => {
                let mut s = String::from_str("unterminated link: ");
                s.append(url.as_str());
                assert(s@ =~= error_message_model(self@));
                s
            }
        }
    }
}

/// Model of the link table: URL/record pairs in first-seen order.
pub type TableModel = Seq<(Seq<char>, LinkModel)>;

/// Whether some entry of `t` carries the key `url`.
pub open spec fn has_url(t: TableModel, url: Seq<char>) -> bool {
    exists|i: int| 0 <= i < t.len() && t[i].0 == url
}

/// The index of the entry carrying `url`; meaningful only under
/// [`table_wf`], which makes that entry unique.
pub open spec fn url_at(t: TableModel, url: Seq<char>) -> int {
    choose|i: int| 0 <= i < t.len() && t[i].0 == url
}

/// Well-formedness: no two entries share a URL.
pub open spec fn table_wf(t: TableModel) -> bool {
    forall|i: int, j: int| 0 <= i < j < t.len() ==> t[i].0 != t[j].0
}

/// The record stored for `url`.
pub open spec fn record_of(t: TableModel, url: Seq<char>) -> LinkModel {
    t[url_at(t, url)].1
}

/// In a well-formed table an entry's index is determined by its URL.
pub proof fn lemma_url_at_is(t: TableModel, url: Seq<char>, i: int)
    requires
        table_wf(t),
        0 <= i < t.len(),
        t[i].0 == url,
    ensures
        has_url(t, url),
        url_at(t, url) == i,
        record_of(t, url) == t[i].1,
{
    assert(has_url(t, url));
    let j = url_at(t, url);
    assert(0 <= j < t.len() && t[j].0 == url);
    if i < j {
        assert(t[i].0 != t[j].0);
    } else if j < i {
        assert(t[j].0 != t[i].0);
    }
}

/// Appending an entry with a fresh URL keeps a table well-formed, and adds
/// exactly that URL to its keys.
pub proof fn lemma_push_new_url(t: TableModel, p: (Seq<char>, LinkModel))
    requires
        table_wf(t),
        !has_url(t, p.0),
    ensures
        table_wf(t.push(p)),
        forall|u: Seq<char>| has_url(t.push(p), u) <==> has_url(t, u) || u == p.0,
{
    let t2 = t.push(p);
    assert forall|i: int, j: int| 0 <= i < j < t2.len() implies t2[i].0 != t2[j].0 by {
        if j < t.len() {
            assert(t[i].0 != t[j].0);
        } else {
            assert(t2[j].0 == p.0);
            assert(t2[i].0 == t[i].0);
        }
    }
    assert forall|u: Seq<char>| has_url(t2, u) <==> has_url(t, u) || u == p.0 by {
        if has_url(t, u) {
            let i = choose|i: int| 0 <= i < t.len() && t[i].0 == u;
            assert(t2[i].0 == u);
        }
        if u == p.0 {
            assert(t2[t.len() as int].0 == u);
        }
        if has_url(t2, u) && u != p.0 {
            let i = choose|i: int| 0 <= i < t2.len() && t2[i].0 == u;
            assert(i < t.len());
            assert(t[i].0 == u);
        }
    }
}

/// The link table: URL-keyed records in first-seen order.
#[derive(Debug)]
pub struct LinkTable {
    entries: Vec<(String, Link)>,
}

impl View for LinkTable {
    type V = TableModel;

    closed spec fn view(&self) -> TableModel {
        self.entries@.map_values(|p: (String, Link)| (p.0@, p.1@))
    }
}

impl LinkTable {
    /// Well-formedness of the table: pairwise distinct URLs.
    pub open spec fn wf(&self) -> bool {
        table_wf(self@)
    }

    /// An empty table.
    pub fn new() -> (r: LinkTable)
        ensures
            r@ =~= Seq::<(Seq<char>, LinkModel)>::empty(),
            r.wf(),
    {
        let r = LinkTable { entries: Vec::new() };
        assert(r@ =~= Seq::<(Seq<char>, LinkModel)>::empty());
        r
    }

    /// How many entries the table holds.
    pub fn len(&self) -> (r: usize)
        ensures
            r == self@.len(),
    {
        self.entries.len()
    }

    /// The entry at position `i`, in first-seen order.
    pub fn entry(&self, i: usize) -> (r: &(String, Link))
        requires
            i < self@.len(),
        ensures
            r.0@ == self@[i as int].0,
            r.1@ == self@[i as int].1,
    {
        &self.entries[i]
    }

    /// The record at position `i`.
    pub fn record_at(&self, i: usize) -> (r: &Link)
        requires
            i < self@.len(),
        ensures
            r@ == self@[i as int].1,
    {
        &self.entries[i].1
    }

    /// The position of the entry keyed by `url`, if there is one.
    pub fn find_url(&self, url: &String) -> (r: Option<usize>)
        requires
            self.wf(),
        ensures
            r is Some <==> has_url(self@, url@),
            r matches Some(i) ==> 0 <= i < self@.len() && url_at(self@, url@) == i
                && self@[i as int].0 == url@,
    {
        let n = self.entries.len();
        let mut i: usize = 0;
        while i < n
            invariant
                0 <= i <= n,
                n == self@.len(),
                self.wf(),
                forall|k: int| 0 <= k < i ==> self@[k].0 != url@,
            decreases n - i,
        {
            if self.entries[i].0 == *url {
                proof {
                    lemma_url_at_is(self@, url@, i as int);
                }
                return Some(i);
            }
            i += 1;
        }
        assert(!has_url(self@, url@));
        None
    }

    /// Replaces the record keyed by `url`, or appends a new entry if the URL
    /// is not present yet.
    pub fn set(&mut self, url: &String, link: Link)
        requires
            old(self).wf(),
        ensures
            final(self).wf(),
            has_url(old(self)@, url@) ==> final(self)@ =~= old(self)@.update(
                url_at(old(self)@, url@),
                (url@, link@),
            ),
            !has_url(old(self)@, url@) ==> final(self)@ =~= old(self)@.push((url@, link@)),
    {
        let ghost t0 = self@;
        match self.find_url(url) {
            Some(i) => {
                self.entries.set(i, (url.clone(), link));
                assert(self@ =~= t0.update(url_at(t0, url@), (url@, link@)));
                assert forall|a: int, b: int| 0 <= a < b < self@.len() implies self@[a].0
                    != self@[b].0 by {
                    assert(t0[a].0 != t0[b].0);
                }
            },
            None => {
                self.entries.push((url.clone(), link));
                assert(self@ =~= t0.push((url@, link@)));
                assert forall|a: int, b: int| 0 <= a < b < self@.len() implies self@[a].0
                    != self@[b].0 by {
                    if b < t0.len() {
                        assert(t0[a].0 != t0[b].0);
                    } else {
                        assert(self@[b].0 == url@);
                        assert(!has_url(t0, url@));
                    }
                }
            },
        }
    }
}

} // verus!
