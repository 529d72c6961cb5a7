//! Word lists: one word on each line of a text, kept in lower case and in
//! dictionary order.

use vstd::prelude::*;
use crate::score::to_ascii_lower;
use crate::session::texts;
use crate::text::{lower_text, push_char, text_lt};

verus! {

/// Where the reading of the first `n` characters of `text` stands: the
/// lines that a line feed has ended, and the characters read since the
/// last line feed.
pub open spec fn lines_read(text: Seq<char>, n: int) -> (Seq<Seq<char>>, Seq<char>)
    decreases n,
{
    if n <= 0 {
        (Seq::empty(), Seq::empty())
    } else {
        let (done, open) = lines_read(text, n - 1);
        if text[n - 1] == '\n' {
            (done.push(open), Seq::empty())
        } else {
            (done, open.push(text[n - 1]))
        }
    }
}

/// The lines of a text: what stands between its line feeds, before the
/// first and after the last. Nothing follows a line feed at the end of
/// the text, and an empty text has no line.
pub open spec fn lines(text: Seq<char>) -> Seq<Seq<char>> {
    let (done, open) = lines_read(text, text.len() as int);
    if open.len() > 0 {
        done.push(open)
    } else {
        done
    }
}

/// Each text of a list in lower case.
pub open spec fn lowered(list: Seq<Seq<char>>) -> Seq<Seq<char>> {
    Seq::new(list.len(), |i: int| lower_text(list[i]))
}

/// No text of the list comes before an earlier one in dictionary order.
pub open spec fn sorted(list: Seq<Seq<char>>) -> bool {
    forall|i: int, j: int|
        0 <= i < j < list.len() ==> !text_lt(#[trigger] list[j], #[trigger] list[i])
}

/// `sort` of the standard library on a list of `String`s: afterwards the
/// list holds the same texts, each as often as before, in the order of
/// `String`, which is dictionary order by the codes of the characters.
#[verifier::external_body]
fn sort_words(words: &mut Vec<String>)
    ensures
        sorted(texts(final(words)@)),
        texts(final(words)@).to_multiset() == texts(old(words)@).to_multiset(),
{
    words.sort();
}

/// The lines of a text in lower case, in the order of the text.
pub fn lower_lines(text: &String) -> (list: Vec<String>)
    ensures
        texts(list@) == lowered(lines(text@)),
{
    let mut list: Vec<String> = Vec::new();
    let mut open = String::new();
    let mut any = false;
    let source = text.as_str();
    for c in it: source.chars()
        invariant
            it.seq() == text@,
            texts(list@) == lowered(lines_read(text@, it.index() as int).0),
            open@ == lower_text(lines_read(text@, it.index() as int).1),
            any == (lines_read(text@, it.index() as int).1.len() > 0),
    {
        let ghost before = lines_read(text@, it.index() as int);
        if c == '\n' {
            list.push(open);
            open = String::new();
            any = false;
            assert(lowered(before.0.push(before.1)) =~= lowered(before.0).push(
                lower_text(before.1),
            ));
        } else {
            push_char(&mut open, to_ascii_lower(c));
            any = true;
        }
    }
    let ghost end = lines_read(text@, text@.len() as int);
    if any {
        list.push(open);
        assert(lowered(end.0.push(end.1)) =~= lowered(end.0).push(lower_text(end.1)));
    }
    list
}

/// Replaces a word list by the lines of `text`, in lower case and in
/// dictionary order.
pub fn set_from_text(text: &String, set: &mut Vec<String>)
    ensures
        sorted(texts(final(set)@)),
        texts(final(set)@).to_multiset() == lowered(lines(text@)).to_multiset(),
{
    *set = lower_lines(text);
    sort_words(set);
}

} // verus!
