//! The vocabulary of the contracts: lines, substrings and lowercase forms of
//! texts, each text taken as its sequence of characters, and the functions
//! of `std` that compute them.

use std::str::Lines;
use vstd::prelude::*;

verus! {

/// `needle` stands in `hay` at position `at`.
pub open spec fn occurs_at(needle: Seq<char>, hay: Seq<char>, at: int) -> bool {
    &&& 0 <= at
    &&& at + needle.len() <= hay.len()
    &&& hay.subrange(at, at + needle.len()) == needle
}

/// `needle` is a contiguous run of characters of `hay`.
pub open spec fn is_substring(needle: Seq<char>, hay: Seq<char>) -> bool {
    exists|at: int| #[trigger] occurs_at(needle, hay, at)
}

/// The position of the first line feed of `text`, or its length where it has
/// none.
pub open spec fn first_line_feed(text: Seq<char>) -> int
    decreases text.len(),
{
    if text.len() == 0 || text[0] == '\n' {
        0
    } else {
        1 + first_line_feed(text.drop_first())
    }
}

/// `line` without one carriage return at its end.
pub open spec fn without_carriage_return(line: Seq<char>) -> Seq<char> {
    if line.len() > 0 && line.last() == '\r' {
        line.drop_last()
    } else {
        line
    }
}

/// The lines of `text`. A line ends at a line feed; the line feed, and a
/// carriage return directly before it, are not part of the line. What
/// follows the last line feed is a line of its own unless it is empty, and it
/// keeps a carriage return at its end.
pub open spec fn lines_of(text: Seq<char>) -> Seq<Seq<char>>
    decreases text.len(),
{
    let end = first_line_feed(text);
    if text.len() == 0 {
        Seq::empty()
    } else if 0 <= end < text.len() {
        seq![without_carriage_return(text.take(end))] + lines_of(text.skip(end + 1))
    } else {
        seq![text]
    }
}

/// The lowercase form of `text`, as `str::to_lowercase` gives it: Unicode's
/// lowercase mapping, which may change the number of characters.
pub uninterp spec fn lowercase_of(text: Seq<char>) -> Seq<char>;

/// `str::to_lowercase`: the result is the lowercase form of `text`, which
/// depends on the characters of `text` alone. The lowercase form of the empty
/// text is empty.
pub assume_specification[ str::to_lowercase ](text: &str) -> (lowered: String)
    ensures
        lowered@ == lowercase_of(text@),
        text@.len() == 0 ==> lowered@.len() == 0,
;

/// An iterator over the lines of a text, as `str::lines` makes it.
#[verifier::external_type_specification]
#[verifier::external_body]
pub struct ExLines<'a>(Lines<'a>);

/// The lines that `lines` has yet to give, in the order in which it gives
/// them.
pub uninterp spec fn lines_left(lines: Lines) -> Seq<Seq<char>>;

/// `str::lines`: an iterator that gives the lines of `text` in order, split
/// as [`lines_of`] says.
pub assume_specification<'a>[ str::lines ](text: &'a str) -> (lines: Lines<'a>)
    ensures
        lines_left(lines) == lines_of(text@),
;

/// `Iterator::next` on the lines of a text: `None` when no line is left,
/// else the first of those left, which is then left no longer.
#[verifier::external_body]
pub(crate) fn next_line<'a>(lines: &mut Lines<'a>) -> (line: Option<&'a str>)
    ensures
        match line {
            Some(text) => lines_left(*old(lines)).len() > 0 && text@ == lines_left(
                *old(lines),
            )[0] && lines_left(*final(lines)) == lines_left(*old(lines)).skip(1),
            None => lines_left(*old(lines)).len() == 0,
        },
{
    lines.next()
}

/// `str::contains` with a string as the pattern: whether `needle` is a
/// contiguous part of `hay`.
#[verifier::external_body]
pub(crate) fn contains_str(hay: &str, needle: &str) -> (found: bool)
    ensures
        found == is_substring(needle@, hay@),
{
    hay.contains(needle)
}

/// The lines of `text` in order, each a slice of `text`.
pub fn split_lines<'a>(text: &'a str) -> (lines: Vec<&'a str>)
    ensures
        lines.deep_view() == lines_of(text@),
{
    let mut rest = text.lines();
    let mut lines: Vec<&'a str> = Vec::new();
    loop
        invariant_except_break
            lines.deep_view() + lines_left(rest) == lines_of(text@),
        ensures
            lines.deep_view() == lines_of(text@),
        decreases lines_left(rest).len(),
    {
        let ghost done = lines.deep_view();
        let ghost left = lines_left(rest);
        match next_line(&mut rest) {
            Some(line) => {
                lines.push(line);
                assert(lines.deep_view() + left.skip(1) =~= done + left);
            },
            None => {
                break ;
            },
        }
    }
    lines
}

/// The empty text is a substring of every text.
pub proof fn lemma_empty_is_substring(needle: Seq<char>, hay: Seq<char>)
    requires
        needle.len() == 0,
    ensures
        is_substring(needle, hay),
{
    assert(hay.subrange(0, 0) =~= needle);
    assert(occurs_at(needle, hay, 0));
}

} // verus!
