//! Colouring a guess against a secret word.
//!
//! The colouring is defined by counting, not by an algorithm: a letter of
//! the guess is green where the secret holds the same letter at the same
//! place; among the other letters of the guess, the occurrences of one
//! letter are yellow from left to right for as long as the secret has
//! occurrences of that letter left that no green match uses; all others
//! are red. `calculate_color` computes it by the usual two passes and is
//! proved against that definition.

use vstd::prelude::*;
use vstd::string::StrSliceExecFns;
use crate::color::Color;
use crate::count::{
    count_below, lemma_count_below_monotone, lemma_count_below_tail, lemma_count_split,
    occurrences,
};

verus! {

/// Number of letters in a word, and of colours in a result.
pub const WORDLE_LENS: usize = 5;

/// The secret and the guess hold the same thing at place `i`.
pub open spec fn exact<A>(secret: Seq<A>, guess: Seq<A>, i: int) -> bool {
    0 <= i < secret.len() && i < guess.len() && secret[i] == guess[i]
}

/// Place `k` of the secret holds `a`, and the guess does not match it there.
pub open spec fn is_spare<A>(secret: Seq<A>, guess: Seq<A>, a: A, k: int) -> bool {
    0 <= k < secret.len() && secret[k] == a && !exact(secret, guess, k)
}

/// Place `j` of the guess holds `a`, and the secret does not match it there.
pub open spec fn is_unplaced<A>(secret: Seq<A>, guess: Seq<A>, a: A, j: int) -> bool {
    0 <= j < guess.len() && guess[j] == a && !exact(secret, guess, j)
}

/// Occurrences of `a` in the first `n` places of the secret that no exact
/// match uses up.
pub open spec fn spare<A>(secret: Seq<A>, guess: Seq<A>, a: A, n: int) -> nat {
    count_below(n, |k: int| is_spare(secret, guess, a, k))
}

/// Occurrences of `a` in the first `n` places of the guess that are no
/// exact match.
pub open spec fn unplaced<A>(secret: Seq<A>, guess: Seq<A>, a: A, n: int) -> nat {
    count_below(n, |j: int| is_unplaced(secret, guess, a, j))
}

/// The colour of place `i` of the guess.
pub open spec fn color_at<A>(secret: Seq<A>, guess: Seq<A>, i: int) -> Color {
    if exact(secret, guess, i) {
        Color::G
    } else if unplaced(secret, guess, guess[i], i) < spare(
        secret,
        guess,
        guess[i],
        secret.len() as int,
    ) {
        Color::Y
    } else {
        Color::R
    }
}

/// The colouring of a guess against a secret: one colour for each place
/// of the guess.
pub open spec fn score<A>(secret: Seq<A>, guess: Seq<A>) -> Seq<Color> {
    Seq::new(guess.len(), |i: int| color_at(secret, guess, i))
}

/// The lower-case form of an ASCII capital; any other character itself.
pub open spec fn ascii_lower(c: char) -> char {
    if 'A' <= c && c <= 'Z' {
        ((c as u8) + 32) as char
    } else {
        c
    }
}

/// What a word shows at place `i`: its letter there, in lower case, or
/// nothing where the word has ended.
pub open spec fn cell(word: Seq<char>, i: int) -> Option<char> {
    if 0 <= i < word.len() {
        Some(ascii_lower(word[i]))
    } else {
        None
    }
}

/// The first `WORDLE_LENS` places of a word.
pub open spec fn cells(word: Seq<char>) -> Seq<Option<char>> {
    Seq::new(WORDLE_LENS as nat, |i: int| cell(word, i))
}

/// The colouring of `guess` against `secret`, both taken as words of
/// `WORDLE_LENS` places without regard to case.
pub open spec fn word_score(secret: Seq<char>, guess: Seq<char>) -> Seq<Color> {
    score(cells(secret), cells(guess))
}

/// Place `k` of the secret can no longer give a yellow to place `p` of
/// the guess or any later one: an exact match holds it, or an earlier
/// letter of the guess has taken it.
pub open spec fn consumed<A>(secret: Seq<A>, guess: Seq<A>, k: int, p: int) -> bool {
    exact(secret, guess, k) || spare(secret, guess, secret[k], k) < unplaced(
        secret,
        guess,
        secret[k],
        p,
    )
}

/// If every spare occurrence of `a` before place `n` of the secret has
/// fewer than `w` spare occurrences before it, there are at most `w`.
proof fn lemma_spare_bounded<A>(secret: Seq<A>, guess: Seq<A>, a: A, n: int, w: nat)
    requires
        forall|k: int|
            0 <= k < n && is_spare(secret, guess, a, k) ==> spare(secret, guess, a, k) < w,
    ensures
        spare(secret, guess, a, n) <= w,
    decreases n,
{
    if n > 0 {
        lemma_spare_bounded(secret, guess, a, n - 1, w);
    }
}

/// A spare occurrence of `a` at place `k` comes before every place that
/// has more spare occurrences of `a` before it.
proof fn lemma_spare_after<A>(secret: Seq<A>, guess: Seq<A>, a: A, k: int, m: int)
    requires
        is_spare(secret, guess, a, k),
        k < m,
    ensures
        spare(secret, guess, a, k) < spare(secret, guess, a, m),
{
    lemma_count_below_monotone(k + 1, m, |i: int| is_spare(secret, guess, a, i));
}

/// What the second pass keeps true when it goes from place `p` of the
/// guess to the next: `found` is the first unconsumed place of the secret
/// that holds the letter at place `p`, if there is one.
proof fn lemma_second_pass_step<A>(
    secret: Seq<A>,
    guess: Seq<A>,
    used: Seq<bool>,
    p: int,
    found: Option<int>,
)
    requires
        secret.len() == guess.len(),
        used.len() == secret.len(),
        0 <= p < guess.len(),
        forall|k: int| 0 <= k < secret.len() ==> used[k] == consumed(secret, guess, k, p),
        !exact(secret, guess, p),
        match found {
            Some(k) => {
                &&& 0 <= k < secret.len()
                &&& !used[k]
                &&& secret[k] == guess[p]
                &&& forall|j: int| 0 <= j < k ==> used[j] || secret[j] != guess[p]
            },
            None => forall|j: int| 0 <= j < secret.len() ==> used[j] || secret[j] != guess[p],
        },
    ensures
        color_at(secret, guess, p) == if found is Some {
            Color::Y
        } else {
            Color::R
        },
        forall|k: int|
            0 <= k < secret.len() ==> consumed(secret, guess, k, p + 1) == (used[k] || found
                == Some(k)),
{
    let a = guess[p];
    let n = secret.len() as int;
    let w = unplaced(secret, guess, a, p);
    assert forall|b: A| b != a implies unplaced(secret, guess, b, p + 1) == unplaced(
        secret,
        guess,
        b,
        p,
    ) by {}
    match found {
        Some(k) => {
            assert forall|j: int| 0 <= j < k && is_spare(secret, guess, a, j) implies spare(
                secret,
                guess,
                a,
                j,
            ) < w by {
                assert(used[j]);
            }
            lemma_spare_bounded(secret, guess, a, k, w);
            lemma_spare_after(secret, guess, a, k, n);
            assert forall|j: int| 0 <= j < n implies consumed(secret, guess, j, p + 1) == (used[j]
                || found == Some(j)) by {
                if secret[j] == a && !exact(secret, guess, j) {
                    if j < k {
                        assert(used[j]);
                    } else if j > k {
                        lemma_spare_after(secret, guess, a, k, j);
                    }
                }
            }
        },
        None => {
            assert forall|j: int| 0 <= j < n && is_spare(secret, guess, a, j) implies spare(
                secret,
                guess,
                a,
                j,
            ) < w by {
                assert(used[j]);
            }
            lemma_spare_bounded(secret, guess, a, n, w);
            assert forall|j: int| 0 <= j < n implies consumed(secret, guess, j, p + 1)
                == used[j] by {
                if secret[j] == a && !exact(secret, guess, j) {
                    assert(used[j]);
                }
            }
        },
    }
}

/// An exact match at place `p` of the guess takes nothing in the second
/// pass.
proof fn lemma_second_pass_skip<A>(secret: Seq<A>, guess: Seq<A>, p: int)
    requires
        exact(secret, guess, p),
    ensures
        forall|k: int|
            0 <= k < secret.len() ==> consumed(secret, guess, k, p + 1) == consumed(
                secret,
                guess,
                k,
                p,
            ),
{
    assert forall|b: A| unplaced(secret, guess, b, p + 1) == unplaced(secret, guess, b, p) by {}
}

/// Place `i` of the guess holds `a` and is coloured green or yellow.
pub open spec fn is_marked<A>(secret: Seq<A>, guess: Seq<A>, a: A, i: int) -> bool {
    &&& 0 <= i < guess.len()
    &&& guess[i] == a
    &&& (score(secret, guess)[i] == Color::G || score(secret, guess)[i] == Color::Y)
}

/// Number of places of the guess that hold `a` and are coloured green or
/// yellow.
pub open spec fn marked<A>(secret: Seq<A>, guess: Seq<A>, a: A) -> nat {
    count_below(guess.len() as int, |i: int| is_marked(secret, guess, a, i))
}

/// A colouring has one colour for each place: for words of equal length,
/// as many colours as the secret has places.
pub proof fn lemma_score_len<A>(secret: Seq<A>, guess: Seq<A>)
    requires
        secret.len() == guess.len(),
    ensures
        score(secret, guess).len() == secret.len(),
{
}

/// A word guessed against itself is green at every place.
pub proof fn lemma_score_self<A>(word: Seq<A>)
    ensures
        score(word, word).len() == word.len(),
        forall|i: int| 0 <= i < word.len() ==> score(word, word)[i] == Color::G,
{
}

/// A word guessed against itself, case aside, is green at every place.
pub proof fn lemma_word_score_self(word: Seq<char>)
    ensures
        word_score(word, word) == Seq::new(WORDLE_LENS as nat, |i: int| Color::G),
{
    lemma_score_self(cells(word));
}

/// Among the first `n` places of the guess, the yellow ones that hold `a`
/// are no more than the unplaced occurrences of `a` so far, and no more
/// than the spare occurrences of `a` in the secret.
proof fn lemma_yellow_bounded<A>(secret: Seq<A>, guess: Seq<A>, a: A, n: int)
    requires
        n <= guess.len(),
    ensures
        count_below(
            n,
            |i: int|
                guess[i] == a && 0 <= i < guess.len() && color_at(secret, guess, i) == Color::Y,
        ) <= unplaced(secret, guess, a, n),
        count_below(
            n,
            |i: int|
                guess[i] == a && 0 <= i < guess.len() && color_at(secret, guess, i) == Color::Y,
        ) <= spare(secret, guess, a, secret.len() as int),
    decreases n,
{
    if n > 0 {
        lemma_yellow_bounded(secret, guess, a, n - 1);
    }
}

/// Green and yellow together never promise more of a letter than the
/// secret holds: the places of the guess that hold `a` and are coloured
/// green or yellow are at most as many as the places of the secret that
/// hold `a`.
pub proof fn lemma_marks_bounded<A>(secret: Seq<A>, guess: Seq<A>, a: A)
    ensures
        marked(secret, guess, a) <= occurrences(secret, a),
{
    let n = guess.len() as int;
    let m = secret.len() as int;
    let green = |i: int| guess[i] == a && exact(secret, guess, i);
    let yellow = |i: int|
        guess[i] == a && 0 <= i < guess.len() && color_at(secret, guess, i) == Color::Y;
    let mark = |i: int| is_marked(secret, guess, a, i);
    let held = |k: int| 0 <= k < secret.len() && secret[k] == a;
    let free = |k: int| is_spare(secret, guess, a, k);
    lemma_count_split(n, mark, green, yellow);
    lemma_count_split(m, held, green, free);
    lemma_yellow_bounded(secret, guess, a, n);
    if n <= m {
        lemma_count_below_tail(n, m, green);
    } else {
        lemma_count_below_tail(m, n, green);
    }
}

/// The lower-case form of a character.
pub fn to_ascii_lower(c: char) -> (r: char)
    ensures
        r == ascii_lower(c),
{
    if c >= 'A' && c <= 'Z' {
        ((c as u8) + 32) as char
    } else {
        c
    }
}

/// The places of a word, as `calculate_color` compares them.
pub fn word_cells(word: &String) -> (r: Vec<Option<char>>)
    ensures
        r@ == cells(word@),
{
    let text = word.as_str();
    let len = text.unicode_len();
    let mut r: Vec<Option<char>> = Vec::new();
    let mut i: usize = 0;
    while i < WORDLE_LENS
        invariant
            i <= WORDLE_LENS,
            len == word@.len(),
            text@ == word@,
            r.len() == i,
            forall|j: int| 0 <= j < i ==> r[j] == cell(word@, j),
        decreases WORDLE_LENS - i,
    {
        if i < len {
            r.push(Some(to_ascii_lower(text.get_char(i))));
        } else {
            r.push(None);
        }
        i += 1;
    }
    r
}

/// Colours `guess` against `secret`, place by place.
pub fn score_cells(secret: &Vec<Option<char>>, guess: &Vec<Option<char>>) -> (result: Vec<Color>)
    requires
        secret.len() == guess.len(),
    ensures
        result@ == score(secret@, guess@),
{
    let n = guess.len();
    // First pass: the exact matches use up their places of the secret.
    let mut used: Vec<bool> = Vec::new();
    let mut k: usize = 0;
    while k < n
        invariant
            k <= n,
            n == secret.len(),
            n == guess.len(),
            used.len() == k,
            forall|i: int| 0 <= i < k ==> used[i] == exact(secret@, guess@, i),
        decreases n - k,
    {
        used.push(secret[k] == guess[k]);
        k += 1;
    }
    // Second pass: every other letter of the guess takes the first place
    // of the secret that holds it and is not used up yet.
    let mut result: Vec<Color> = Vec::new();
    let mut p: usize = 0;
    while p < n
        invariant
            p <= n,
            n == secret.len(),
            n == guess.len(),
            used.len() == n,
            result.len() == p,
            forall|i: int| 0 <= i < p ==> result[i] == color_at(secret@, guess@, i),
            forall|i: int| 0 <= i < n ==> used[i] == consumed(secret@, guess@, i, p as int),
        decreases n - p,
    {
        if secret[p] == guess[p] {
            proof {
                lemma_second_pass_skip(secret@, guess@, p as int);
            }
            result.push(Color::G);
        } else {
            let mut found: Option<usize> = None;
            let mut k: usize = 0;
            while k < n && found.is_none()
                invariant
                    k <= n,
                    n == secret.len(),
                    n == guess.len(),
                    used.len() == n,
                    p < n,
                    match found {
                        Some(f) => {
                            &&& f < n
                            &&& !used[f as int]
                            &&& secret[f as int] == guess[p as int]
                            &&& forall|j: int|
                                0 <= j < f ==> used[j] || secret[j] != guess[p as int]
                        },
                        None => forall|j: int|
                            0 <= j < k ==> used[j] || secret[j] != guess[p as int],
                    },
                decreases n - k, found.is_none() as int,
            {
                if !used[k] && secret[k] == guess[p] {
                    found = Some(k);
                } else {
                    k += 1;
                }
            }
            let ghost taken: Option<int> = match found {
                Some(f) => Some(f as int),
                None => None,
            };
            proof {
                lemma_second_pass_step(secret@, guess@, used@, p as int, taken);
            }
            match found {
                Some(f) => {
                    used.set(f, true);
                    result.push(Color::Y);
                },
                None => {
                    result.push(Color::R);
                },
            }
        }
        p += 1;
    }
    result
}

/// Colours `guess_word` against `word_to_guess`: `WORDLE_LENS` colours,
/// one for each place, without regard to the case of either word. A word
/// with fewer letters has nothing at its last places, and nothing is the
/// same as nothing; letters after the first `WORDLE_LENS` are not read.
pub fn calculate_color(word_to_guess: &String, guess_word: &String) -> (word_result: Vec<Color>)
    ensures
        word_result@ == word_score(word_to_guess@, guess_word@),
        word_result.len() == WORDLE_LENS,
{
    let secret = word_cells(word_to_guess);
    let guess = word_cells(guess_word);
    score_cells(&secret, &guess)
}

} // verus!
