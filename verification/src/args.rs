//! Reading settings out of a list of arguments: flags, the values that
//! follow them, and numbers written in decimal.

use vstd::prelude::*;
use vstd::string::StrSliceExecFns;
use crate::error::Error;
use crate::session::texts;

verus! {

/// Whether `arg` is the flag with the short form `short` and the long
/// form `long`.
pub open spec fn is_flag(arg: Seq<char>, short: Seq<char>, long: Seq<char>) -> bool {
    arg == short || arg == long
}

/// Whether the flag stands anywhere among the arguments.
pub open spec fn has_flag(args: Seq<Seq<char>>, short: Seq<char>, long: Seq<char>) -> bool {
    exists|i: int| 0 <= i < args.len() && is_flag(#[trigger] args[i], short, long)
}

/// The arguments that follow the occurrences of the flag among the first
/// `n` arguments, in order.
pub open spec fn values_after(
    args: Seq<Seq<char>>,
    short: Seq<char>,
    long: Seq<char>,
    n: int,
) -> Seq<Seq<char>>
    decreases n,
{
    if n <= 0 {
        Seq::empty()
    } else if is_flag(args[n - 1], short, long) && n < args.len() {
        values_after(args, short, long, n - 1).push(args[n])
    } else {
        values_after(args, short, long, n - 1)
    }
}

/// Every argument that follows an occurrence of the flag.
pub open spec fn flag_values_of(args: Seq<Seq<char>>, short: Seq<char>, long: Seq<char>) -> Seq<
    Seq<char>,
> {
    values_after(args, short, long, args.len() as int)
}

/// The flag is the last argument, so that nothing follows it.
pub open spec fn lacks_value(args: Seq<Seq<char>>, short: Seq<char>, long: Seq<char>) -> bool {
    args.len() > 0 && is_flag(args.last(), short, long)
}

/// Whether two texts are the same.
pub fn text_is(a: &str, b: &str) -> (same: bool)
    ensures
        same == (a@ == b@),
{
    let len = a.unicode_len();
    if len != b.unicode_len() {
        return false;
    }
    let mut i: usize = 0;
    while i < len
        invariant
            i <= len,
            len == a@.len(),
            len == b@.len(),
            forall|k: int| 0 <= k < i ==> a@[k] == b@[k],
        decreases len - i,
    {
        if a.get_char(i) != b.get_char(i) {
            return false;
        }
        i += 1;
    }
    assert(a@ =~= b@);
    true
}

/// Whether `arg` is the flag `short` or `long`.
pub fn arg_is_flag(arg: &String, short: &str, long: &str) -> (r: bool)
    ensures
        r == is_flag(arg@, short@, long@),
{
    text_is(arg.as_str(), short) || text_is(arg.as_str(), long)
}

/// Whether the flag stands anywhere among the arguments.
pub fn flag_given(args: &Vec<String>, short: &str, long: &str) -> (given: bool)
    ensures
        given == has_flag(texts(args@), short@, long@),
{
    let mut i: usize = 0;
    while i < args.len()
        invariant
            i <= args.len(),
            forall|k: int| 0 <= k < i ==> !is_flag(#[trigger] texts(args@)[k], short@, long@),
        decreases args.len() - i,
    {
        if arg_is_flag(&args[i], short, long) {
            assert(is_flag(texts(args@)[i as int], short@, long@));
            return true;
        }
        i += 1;
    }
    false
}

/// The arguments that follow the occurrences of a flag, in order. A flag
/// that stands last has nothing after it: that is an error.
pub fn flag_values(args: &Vec<String>, short: &str, long: &str) -> (values: Result<
    Vec<String>,
    Error,
>)
    ensures
        match values {
            Ok(list) => !lacks_value(texts(args@), short@, long@) && texts(list@)
                == flag_values_of(texts(args@), short@, long@),
            Err(error) => error == Error::InvalidArgs && lacks_value(
                texts(args@),
                short@,
                long@,
            ),
        },
{
    let mut list: Vec<String> = Vec::new();
    let mut i: usize = 0;
    while i < args.len()
        invariant
            i <= args.len(),
            texts(list@) == values_after(texts(args@), short@, long@, i as int),
            forall|k: int|
                0 <= k < i && is_flag(#[trigger] texts(args@)[k], short@, long@) ==> k + 1
                    < args.len(),
        decreases args.len() - i,
    {
        if arg_is_flag(&args[i], short, long) {
            if i + 1 < args.len() {
                list.push(args[i + 1].clone());
            } else {
                return Err(Error::InvalidArgs);
            }
        }
        i += 1;
    }
    Ok(list)
}

/// Whether `c` is a decimal digit.
pub open spec fn is_digit(c: char) -> bool {
    '0' <= c && c <= '9'
}

/// Whether a text is made of decimal digits only.
pub open spec fn all_digits(text: Seq<char>) -> bool {
    forall|i: int| 0 <= i < text.len() ==> is_digit(#[trigger] text[i])
}

/// The number that a row of decimal digits denotes.
pub open spec fn digits_value(text: Seq<char>) -> nat
    decreases text.len(),
{
    if text.len() == 0 {
        0
    } else {
        (digits_value(text.drop_last()) * 10 + (text.last() as int - 48)) as nat
    }
}

/// The integer that a text denotes: one digit or more, after a `+` or,
/// where `signed` allows it, a `-`, or after no sign at all.
pub open spec fn number_of(text: Seq<char>, signed: bool) -> Option<int> {
    if text.len() == 0 {
        None
    } else if text[0] == '+' || (signed && text[0] == '-') {
        let body = text.subrange(1, text.len() as int);
        if body.len() > 0 && all_digits(body) {
            if text[0] == '-' {
                Some(-(digits_value(body) as int))
            } else {
                Some(digits_value(body) as int)
            }
        } else {
            None
        }
    } else if all_digits(text) {
        Some(digits_value(text) as int)
    } else {
        None
    }
}

/// The `i32` that a text denotes, if it denotes one.
pub open spec fn parsed_i32(text: Seq<char>) -> Option<i32> {
    match number_of(text, true) {
        Some(value) => if i32::MIN <= value <= i32::MAX {
            Some(value as i32)
        } else {
            None
        },
        None => None,
    }
}

/// The `u64` that a text denotes, if it denotes one.
pub open spec fn parsed_u64(text: Seq<char>) -> Option<u64> {
    match number_of(text, false) {
        Some(value) => if value <= u64::MAX {
            Some(value as u64)
        } else {
            None
        },
        None => None,
    }
}

/// A row of digits denotes at least what each of its beginnings denotes.
pub proof fn lemma_digits_value_monotone(text: Seq<char>, n: int)
    requires
        all_digits(text),
        0 <= n <= text.len(),
    ensures
        digits_value(text.take(n)) <= digits_value(text),
    decreases text.len(),
{
    if n == text.len() {
        assert(text.take(n) =~= text);
    } else {
        assert forall|i: int| 0 <= i < text.drop_last().len() implies is_digit(
            #[trigger] text.drop_last()[i],
        ) by {}
        lemma_digits_value_monotone(text.drop_last(), n);
        assert(text.drop_last().take(n) =~= text.take(n));
    }
}

/// Reads the digits of `text` from place `start` to its end as a number
/// that is at most `limit`.
fn parse_digits(text: &str, start: usize, limit: u64) -> (value: Option<u64>)
    requires
        start <= text@.len(),
    ensures
        value == if text@.len() > start && all_digits(
            text@.subrange(start as int, text@.len() as int),
        ) && digits_value(text@.subrange(start as int, text@.len() as int)) <= limit {
            Some(digits_value(text@.subrange(start as int, text@.len() as int)) as u64)
        } else {
            None
        },
{
    let len = text.unicode_len();
    if start >= len {
        return None;
    }
    let ghost body = text@.subrange(start as int, len as int);
    let mut value: u64 = 0;
    let mut i: usize = start;
    while i < len
        invariant
            start <= i <= len,
            len == text@.len(),
            body == text@.subrange(start as int, len as int),
            all_digits(body.take(i - start)),
            value == digits_value(body.take(i - start)),
            value <= limit,
        decreases len - i,
    {
        let c = text.get_char(i);
        if !(c >= '0' && c <= '9') {
            assert(!is_digit(body[i - start]));
            return None;
        }
        let digit: u64 = (c as u8 - 48) as u64;
        let next: u128 = value as u128 * 10 + digit as u128;
        proof {
            let longer = body.take(i + 1 - start);
            assert(longer.drop_last() =~= body.take(i - start));
            assert forall|k: int| 0 <= k < longer.len() implies is_digit(
                #[trigger] longer[k],
            ) by {}
            if all_digits(body) {
                lemma_digits_value_monotone(body, i + 1 - start);
            }
        }
        if next > limit as u128 {
            return None;
        }
        value = next as u64;
        i += 1;
    }
    assert(body.take(len - start) =~= body);
    Some(value)
}

/// Reads a text as an `i32` written in decimal.
pub fn parse_i32(text: &String) -> (value: Option<i32>)
    ensures
        value == parsed_i32(text@),
{
    let source = text.as_str();
    let len = source.unicode_len();
    if len == 0 {
        return None;
    }
    let first = source.get_char(0);
    if first == '-' {
        match parse_digits(source, 1, 2147483648) {
            Some(size) => Some((-(size as i64)) as i32),
            None => None,
        }
    } else if first == '+' {
        match parse_digits(source, 1, 2147483647) {
            Some(size) => Some(size as i32),
            None => None,
        }
    } else {
        assert(source@.subrange(0, len as int) =~= source@);
        match parse_digits(source, 0, 2147483647) {
            Some(size) => Some(size as i32),
            None => None,
        }
    }
}

/// Reads a text as a `u64` written in decimal.
pub fn parse_u64(text: &String) -> (value: Option<u64>)
    ensures
        value == parsed_u64(text@),
{
    let source = text.as_str();
    let len = source.unicode_len();
    if len == 0 {
        return None;
    }
    let first = source.get_char(0);
    if first == '+' {
        parse_digits(source, 1, u64::MAX)
    } else {
        assert(source@.subrange(0, len as int) =~= source@);
        parse_digits(source, 0, u64::MAX)
    }
}

} // verus!
