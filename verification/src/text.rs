//! Small operations on text that the rest of the library builds on.

use vstd::prelude::*;
use vstd::string::{StrSliceExecFns, StringExecFns};
use crate::score::{ascii_lower, to_ascii_lower};
use crate::session::texts;

verus! {

/// The capital form of an ASCII lower-case letter; any other character
/// itself.
pub open spec fn ascii_upper(c: char) -> char {
    if 'a' <= c && c <= 'z' {
        ((c as u8) - 32) as char
    } else {
        c
    }
}

/// A text with every ASCII lower-case letter turned into its capital.
pub open spec fn upper_text(text: Seq<char>) -> Seq<char> {
    Seq::new(text.len(), |i: int| ascii_upper(text[i]))
}

/// A text with every ASCII capital turned into its lower-case letter.
pub open spec fn lower_text(text: Seq<char>) -> Seq<char> {
    Seq::new(text.len(), |i: int| ascii_lower(text[i]))
}

/// `String::push` of the standard library: the string afterwards is the
/// string before with `c` added at its end.
#[verifier::external_body]
pub(crate) fn push_char(text: &mut String, c: char)
    ensures
        final(text)@ == old(text)@.push(c),
{
    text.push(c);
}

/// The capital form of a character.
pub fn to_ascii_upper(c: char) -> (r: char)
    ensures
        r == ascii_upper(c),
{
    if c >= 'a' && c <= 'z' {
        ((c as u8) - 32) as char
    } else {
        c
    }
}

/// A copy of `text` in capitals.
pub fn to_upper(text: &String) -> (r: String)
    ensures
        r@ == upper_text(text@),
{
    let source = text.as_str();
    let len = source.unicode_len();
    let mut r = String::new();
    let mut i: usize = 0;
    while i < len
        invariant
            i <= len,
            len == text@.len(),
            source@ == text@,
            r@ == upper_text(text@.take(i as int)),
        decreases len - i,
    {
        push_char(&mut r, to_ascii_upper(source.get_char(i)));
        i += 1;
    }
    r
}

/// A copy of `text` in lower case.
pub fn to_lower(text: &String) -> (r: String)
    ensures
        r@ == lower_text(text@),
{
    let source = text.as_str();
    let len = source.unicode_len();
    let mut r = String::new();
    let mut i: usize = 0;
    while i < len
        invariant
            i <= len,
            len == text@.len(),
            source@ == text@,
            r@ == lower_text(text@.take(i as int)),
        decreases len - i,
    {
        push_char(&mut r, to_ascii_lower(source.get_char(i)));
        i += 1;
    }
    r
}

/// Whether `text` holds the character `c`.
pub fn has_char(text: &String, c: char) -> (r: bool)
    ensures
        r == text@.contains(c),
{
    let source = text.as_str();
    let len = source.unicode_len();
    let mut i: usize = 0;
    while i < len
        invariant
            i <= len,
            len == text@.len(),
            source@ == text@,
            forall|j: int| 0 <= j < i ==> text@[j] != c,
        decreases len - i,
    {
        if source.get_char(i) == c {
            return true;
        }
        i += 1;
    }
    false
}

/// Whether `list` holds a string with the text of `word`.
pub fn has_word(list: &Vec<String>, word: &String) -> (r: bool)
    ensures
        r == texts(list@).contains(word@),
{
    let mut i: usize = 0;
    while i < list.len()
        invariant
            i <= list.len(),
            forall|j: int| 0 <= j < i ==> list[j]@ != word@,
        decreases list.len() - i,
    {
        if list[i] == *word {
            assert(texts(list@)[i as int] == word@);
            return true;
        }
        i += 1;
    }
    assert forall|j: int| 0 <= j < texts(list@).len() implies texts(
        list@,
    )[j] != word@ by {}
    false
}

/// Whether `a` comes before `b` in dictionary order from place `i` on,
/// given that they agree before it: characters are ordered by their
/// code, and a text comes before every longer text that starts with it.
pub open spec fn text_lt_from(a: Seq<char>, b: Seq<char>, i: int) -> bool
    decreases a.len() - i,
{
    if i < 0 || i >= b.len() {
        false
    } else if i >= a.len() {
        true
    } else if a[i] != b[i] {
        (a[i] as int) < (b[i] as int)
    } else {
        text_lt_from(a, b, i + 1)
    }
}

/// Whether `a` comes before `b` in dictionary order.
pub open spec fn text_lt(a: Seq<char>, b: Seq<char>) -> bool {
    text_lt_from(a, b, 0)
}

/// Dictionary order is transitive.
pub proof fn lemma_text_lt_transitive(a: Seq<char>, b: Seq<char>, c: Seq<char>, i: int)
    requires
        text_lt_from(a, b, i),
        text_lt_from(b, c, i),
    ensures
        text_lt_from(a, c, i),
    decreases a.len() - i,
{
    if i < a.len() && a[i] == b[i] && b[i] == c[i] {
        lemma_text_lt_transitive(a, b, c, i + 1);
    }
}

/// No text comes before itself in dictionary order.
pub proof fn lemma_text_lt_irreflexive(a: Seq<char>, i: int)
    ensures
        !text_lt_from(a, a, i),
    decreases a.len() - i,
{
    if 0 <= i < a.len() {
        lemma_text_lt_irreflexive(a, i + 1);
    }
}

/// Of two different texts that agree before place `i`, one comes before
/// the other in dictionary order.
pub proof fn lemma_text_lt_total(a: Seq<char>, b: Seq<char>, i: int)
    requires
        0 <= i <= a.len(),
        i <= b.len(),
        forall|k: int| 0 <= k < i ==> a[k] == b[k],
        a != b,
    ensures
        text_lt_from(a, b, i) || text_lt_from(b, a, i),
    decreases a.len() - i,
{
    if i < a.len() && i < b.len() {
        if a[i] == b[i] {
            lemma_text_lt_total(a, b, i + 1);
        }
    } else if i == a.len() && i == b.len() {
        assert(a =~= b);
    }
}

/// Whether the text of `a` comes before that of `b` in dictionary order.
pub fn comes_before(a: &String, b: &String) -> (r: bool)
    ensures
        r == text_lt(a@, b@),
{
    let left = a.as_str();
    let right = b.as_str();
    let left_len = left.unicode_len();
    let right_len = right.unicode_len();
    let mut i: usize = 0;
    while i < left_len && i < right_len
        invariant
            left@ == a@,
            right@ == b@,
            left_len == a@.len(),
            right_len == b@.len(),
            i <= left_len,
            i <= right_len,
            text_lt(a@, b@) == text_lt_from(a@, b@, i as int),
        decreases left_len - i,
    {
        let x = left.get_char(i);
        let y = right.get_char(i);
        if x != y {
            return x < y;
        }
        i += 1;
    }
    i < right_len
}

/// The character of a decimal digit.
pub open spec fn digit_char(d: nat) -> char {
    (48 + d) as char
}

/// The decimal numeral of a natural number, without leading zeros.
pub open spec fn digits(n: nat) -> Seq<char>
    decreases n,
{
    if n < 10 {
        seq![digit_char(n)]
    } else {
        digits(n / 10).push(digit_char(n % 10))
    }
}

/// The decimal numeral of an integer, with a minus sign before a negative
/// one.
pub open spec fn numeral(n: int) -> Seq<char> {
    if n < 0 {
        seq!['-'] + digits((-n) as nat)
    } else {
        digits(n as nat)
    }
}

/// Adds the decimal numeral of `n` to the end of `text`.
pub fn push_digits(text: &mut String, n: u128)
    ensures
        final(text)@ == old(text)@ + digits(n as nat),
    decreases n,
{
    if n >= 10 {
        push_digits(text, n / 10);
    }
    push_char(text, (48u8 + (n % 10) as u8) as char);
}

/// Adds the decimal numeral of `n` to the end of `text`.
pub fn push_numeral(text: &mut String, n: i128)
    requires
        n > i128::MIN,
    ensures
        final(text)@ == old(text)@ + numeral(n as int),
{
    if n < 0 {
        push_char(text, '-');
        push_digits(text, (-n) as u128);
    } else {
        push_digits(text, n as u128);
    }
}

/// Adds `more` to the end of `text`.
pub fn push_text(text: &mut String, more: &String)
    ensures
        final(text)@ == old(text)@ + more@,
{
    text.append(more.as_str());
}

} // verus!
