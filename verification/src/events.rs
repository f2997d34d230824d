//! The inline events the accumulator consumes, and the tokenizer that
//! produces them from markdown text.
//!
//! Tokenizing markdown is the outside crate's job; everything after the
//! event stream exists is verified against [`events_of`], the name given
//! to that stream.

use vstd::prelude::*;
use pulldown_cmark::{Event, Parser, Tag, TagEnd};

verus! {

/// One inline-parsing event, as the fold sees it.
///
/// `LinkStart` carries the destination URL and the raw title (possibly
/// empty); `Fragment` carries a piece of text or raw HTML; `LinkEnd` closes
/// the innermost link span; `Other` stands for every event kind the fold
/// ignores.
#[derive(Debug)]
pub enum InlineEvent {
    LinkStart { url: String, title: String },
    Fragment { text: String },
    LinkEnd,
    Other,
}

/// The inline event stream of a markdown document. The tokenizer's output
/// is a function of the input text alone, so the stream can be named.
pub uninterp spec fn events_of(s: Seq<char>) -> Seq<InlineEvent>;

/// Relies on `pulldown_cmark::Parser`: the iterator yields the document's
/// events in order, deterministically from the input text alone; link
/// starts carry the destination URL and title, and text, HTML and inline
/// HTML nodes carry their content.
#[verifier::external_body]
pub(crate) fn tokenize(contents: &str) -> (r: Vec<InlineEvent>)
    ensures
        r@ == events_of(contents@),
{
    Parser::new(contents).map(|ev| match ev {
        Event::Start(Tag::Link { dest_url, title, .. }) => InlineEvent::LinkStart {
            url: dest_url.to_string(),
            title: title.to_string(),
        },
        Event::Text(s) | Event::Html(s) | Event::InlineHtml(s) => InlineEvent::Fragment {
            text: s.to_string(),
        },
        Event::End(TagEnd::Link) => InlineEvent::LinkEnd,
        _ => InlineEvent::Other,
    }).collect()
}

} // verus!
