//! A reference-definition line, read back: a parser for the lines the
//! renderer emits, and the proof that rendering a complete record and
//! parsing the line again recovers the same text, URL and title.

use vstd::prelude::*;
use crate::render::def_line;

verus! {

/// The index of the first occurrence of `c` in `s`, or `-1`.
pub open spec fn find_char(s: Seq<char>, c: char) -> int
    decreases s.len(),
{
    if s.len() == 0 {
        -1
    } else if s[0] == c {
        0
    } else if find_char(s.drop_first(), c) < 0 {
        -1
    } else {
        find_char(s.drop_first(), c) + 1
    }
}

/// A sequence without `c` has no first occurrence of it.
pub proof fn lemma_find_char_absent(s: Seq<char>, c: char)
    requires
        forall|k: int| 0 <= k < s.len() ==> s[k] != c,
    ensures
        find_char(s, c) == -1,
    decreases s.len(),
{
    if s.len() > 0 {
        assert(forall|k: int|
            0 <= k < s.drop_first().len() ==> #[trigger] s.drop_first()[k] == s[k + 1]);
        lemma_find_char_absent(s.drop_first(), c);
    }
}

/// The first occurrence of `c` is the position it first appears at.
pub proof fn lemma_find_char_at(s: Seq<char>, c: char, i: int)
    requires
        0 <= i < s.len(),
        s[i] == c,
        forall|k: int| 0 <= k < i ==> s[k] != c,
    ensures
        find_char(s, c) == i,
    decreases i,
{
    if i > 0 {
        assert(s[0] != c);
        assert(forall|k: int|
            0 <= k < s.drop_first().len() ==> #[trigger] s.drop_first()[k] == s[k + 1]);
        lemma_find_char_at(s.drop_first(), c, i - 1);
    }
}

/// Parses a reference-definition line: `[text]: url` or
/// `[text]: url "title"`. The text runs to the first `]`, the URL to the
/// first space after the `]: ` separator (or to the end), and a title, if
/// any, fills the quotes that close the line.
pub open spec fn parse_ref_def(s: Seq<char>) -> Option<(Seq<char>, Seq<char>, Option<Seq<char>>)> {
    if s.len() == 0 || s[0] != '[' {
        Option::None
    } else {
        let rest = s.drop_first();
        let i = find_char(rest, ']');
        if i < 0 {
            Option::None
        } else {
            let text = rest.take(i);
            let after = rest.skip(i + 1);
            if after.len() < 3 || after[0] != ':' || after[1] != ' ' {
                Option::None
            } else {
                let tail = after.skip(2);
                let j = find_char(tail, ' ');
                if j < 0 {
                    Option::Some((text, tail, Option::None))
                } else if j == 0 {
                    Option::None
                } else {
                    let url = tail.take(j);
                    let q = tail.skip(j + 1);
                    if q.len() >= 2 && q[0] == '"' && q[q.len() - 1] == '"' {
                        Option::Some((text, url, Option::Some(q.subrange(1, q.len() - 1))))
                    } else {
                        Option::None
                    }
                }
            }
        }
    }
}

/// Round trip: rendering a complete record's reference-definition line and
/// parsing it back recovers the same text, URL and title — for every text
/// free of `]`, every non-empty URL free of spaces, and every title.
pub proof fn lemma_ref_def_round_trip(text: Seq<char>, url: Seq<char>, title: Option<Seq<char>>)
    requires
        forall|k: int| 0 <= k < text.len() ==> text[k] != ']',
        url.len() > 0,
        forall|k: int| 0 <= k < url.len() ==> url[k] != ' ',
    ensures
        parse_ref_def(def_line(text, url, title)) == Option::Some((text, url, title)),
{
    reveal_strlit("[");
    reveal_strlit("]: ");
    reveal_strlit(" \"");
    reveal_strlit("\"");
    let s = def_line(text, url, title);
    let sep = "]: "@;
    let tl = text.len() as int;
    let ul = url.len() as int;
    match title {
        Option::None => {
            assert(s == "["@ + text + sep + url);
            assert(s.len() == 1 + tl + 3 + ul);
            assert(s[0] == '[');
            let rest = s.drop_first();
            assert(rest.len() == tl + 3 + ul);
            assert(forall|k: int| 0 <= k < tl ==> rest[k] == text[k]);
            assert(rest[tl] == ']');
            lemma_find_char_at(rest, ']', tl);
            assert(rest.take(tl) =~= text);
            let after = rest.skip(tl + 1);
            assert(after.len() == 2 + ul);
            assert(after[0] == ':');
            assert(after[1] == ' ');
            let tail = after.skip(2);
            assert(tail =~= url);
            lemma_find_char_absent(url, ' ');
            assert(parse_ref_def(s) == Option::Some((rest.take(tl), tail, Option::<
                Seq<char>,
            >::None)));
        },
        Option::Some(ti) => {
            let til = ti.len() as int;
            assert(s == "["@ + text + sep + url + " \""@ + ti + "\""@);
            assert(s.len() == 1 + tl + 3 + ul + 2 + til + 1);
            assert(s[0] == '[');
            let rest = s.drop_first();
            assert(rest.len() == tl + 3 + ul + 2 + til + 1);
            assert(forall|k: int| 0 <= k < tl ==> rest[k] == text[k]);
            assert(rest[tl] == ']');
            lemma_find_char_at(rest, ']', tl);
            assert(rest.take(tl) =~= text);
            let after = rest.skip(tl + 1);
            assert(after.len() == 2 + ul + 2 + til + 1);
            assert(after[0] == ':');
            assert(after[1] == ' ');
            let tail = after.skip(2);
            assert(tail.len() == ul + 2 + til + 1);
            assert(forall|k: int| 0 <= k < ul ==> tail[k] == url[k]);
            assert(tail[ul] == ' ');
            lemma_find_char_at(tail, ' ', ul);
            assert(tail.take(ul) =~= url);
            let q = tail.skip(ul + 1);
            assert(q.len() == til + 2);
            assert(q[0] == '"');
            assert(q[q.len() - 1] == '"');
            assert(q.subrange(1, q.len() - 1) =~= ti);
            assert(parse_ref_def(s) == Option::Some(
                (rest.take(tl), tail.take(ul), Option::Some(q.subrange(1, q.len() - 1))),
            ));
        },
    }
}

} // verus!
