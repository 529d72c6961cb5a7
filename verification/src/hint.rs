//! The hint list: the words that still agree with everything the round
//! has shown, and which of them to try next.

use vstd::prelude::*;
use crate::color::{Color, same_colors};
use crate::count::{count_below, lemma_count_below_tail};
use crate::score::{calculate_color, word_score};
use crate::session::texts;

verus! {

/// The words of `hints` that would have been coloured `result` had they
/// been the secret when `guess` was made, in their old order.
pub open spec fn narrowed(hints: Seq<Seq<char>>, guess: Seq<char>, result: Seq<Color>) -> Seq<
    Seq<char>,
> {
    hints.filter(|word: Seq<char>| word_score(word, guess) == result)
}

/// How many words of `hints` would remain if `guess` were made and
/// `answer` were the secret.
pub open spec fn remaining(hints: Seq<Seq<char>>, guess: Seq<char>, answer: Seq<char>) -> nat {
    narrowed(hints, guess, word_score(answer, guess)).len()
}

/// The sum of `remaining` over the first `n` words of `hints` as the
/// secret.
pub open spec fn grade_upto(hints: Seq<Seq<char>>, guess: Seq<char>, n: int) -> nat
    decreases n,
{
    if n <= 0 {
        0
    } else {
        grade_upto(hints, guess, n - 1) + remaining(hints, guess, hints[n - 1])
    }
}

/// The grade of `guess` as the next guess: the sum, over every word of
/// `hints` as the secret, of the number of words that would remain. The
/// lower, the more the guess tells.
pub open spec fn grade(hints: Seq<Seq<char>>, guess: Seq<char>) -> nat {
    grade_upto(hints, guess, hints.len() as int)
}

/// Word `i` of `hints` is recommended before word `j`: its grade is
/// lower, or the same and it stands earlier in the list.
pub open spec fn precedes(hints: Seq<Seq<char>>, i: int, j: int) -> bool {
    grade(hints, hints[i]) < grade(hints, hints[j]) || (grade(hints, hints[i]) == grade(
        hints,
        hints[j],
    ) && i < j)
}

/// The number of words of `hints` that are recommended before word `i`.
pub open spec fn place(hints: Seq<Seq<char>>, i: int) -> nat {
    count_below(hints.len() as int, |j: int| precedes(hints, j, i))
}

/// Number of words that `recommend_from_hint_list` gives at most.
pub const RECOMMENDED: usize = 2;

/// The largest list that can be graded without leaving `i32`.
pub const GRADED_MAX: usize = 46340;

/// Each secret leaves at most the whole list, so the grade over the first
/// `n` secrets is at most `n` times the length of the list.
pub proof fn lemma_grade_upto_bounded(hints: Seq<Seq<char>>, guess: Seq<char>, n: int)
    requires
        0 <= n <= hints.len(),
    ensures
        grade_upto(hints, guess, n) <= n * hints.len(),
    decreases n,
{
    if n > 0 {
        lemma_grade_upto_bounded(hints, guess, n - 1);
        narrowed(hints, guess, word_score(hints[n - 1], guess)).lemma_filter_len(
            |word: Seq<char>| word_score(word, guess) == word_score(hints[n - 1], guess),
        );
        assert((n - 1) * hints.len() + hints.len() == n * hints.len()) by (nonlinear_arith);
    }
}

/// Narrowing by the same guess and colouring a second time changes
/// nothing.
pub proof fn lemma_narrowed_idempotent(hints: Seq<Seq<char>>, guess: Seq<char>, result: Seq<Color>)
    ensures
        narrowed(narrowed(hints, guess, result), guess, result) == narrowed(hints, guess, result),
{
    lemma_filter_idempotent(hints, |word: Seq<char>| word_score(word, guess) == result);
}

/// Filtering a second time by the same test changes nothing.
pub proof fn lemma_filter_idempotent<A>(s: Seq<A>, pred: spec_fn(A) -> bool)
    ensures
        s.filter(pred).filter(pred) == s.filter(pred),
    decreases s.len(),
{
    reveal(Seq::filter);
    if s.len() > 0 {
        lemma_filter_idempotent(s.drop_last(), pred);
        if pred(s.last()) {
            let kept = s.drop_last().filter(pred);
            assert(kept.push(s.last()).drop_last() =~= kept);
        }
    }
}

/// Keeps the words of `hint_list` that agree with a coloured guess: those
/// that, taken as the secret, colour `guess_word` as `word_result`.
pub fn get_new_hint_list(
    hint_list: &Vec<String>,
    guess_word: &String,
    word_result: &Vec<Color>,
) -> (new_hint: Vec<String>)
    ensures
        texts(new_hint@) == narrowed(texts(hint_list@), guess_word@, word_result@),
{
    let mut new_hint: Vec<String> = Vec::new();
    let ghost pred = |word: Seq<char>| word_score(word, guess_word@) == word_result@;
    let mut i: usize = 0;
    proof {
        reveal(Seq::filter);
    }
    while i < hint_list.len()
        invariant
            i <= hint_list.len(),
            pred == |word: Seq<char>| word_score(word, guess_word@) == word_result@,
            texts(new_hint@) == texts(hint_list@).take(i as int).filter(pred),
        decreases hint_list.len() - i,
    {
        let colors = calculate_color(&hint_list[i], guess_word);
        let keep = same_colors(&colors, word_result);
        if keep {
            new_hint.push(hint_list[i].clone());
        }
        proof {
            reveal(Seq::filter);
            let upto = texts(hint_list@).take(i + 1);
            assert(upto.drop_last() =~= texts(hint_list@).take(i as int));
        }
        i += 1;
    }
    assert(texts(hint_list@).take(hint_list.len() as int) =~= texts(hint_list@));
    new_hint
}

/// Grades `next_guess` as the next guess against the words of `list`.
pub fn get_grade_one_depth(list: &Vec<String>, next_guess: &String) -> (sum: i32)
    requires
        list.len() <= GRADED_MAX,
    ensures
        sum == grade(texts(list@), next_guess@),
{
    let mut sum: i32 = 0;
    let mut i: usize = 0;
    while i < list.len()
        invariant
            i <= list.len(),
            list.len() <= GRADED_MAX,
            sum == grade_upto(texts(list@), next_guess@, i as int),
        decreases list.len() - i,
    {
        let result = calculate_color(&list[i], next_guess);
        let left = get_new_hint_list(list, next_guess, &result);
        proof {
            lemma_grade_upto_bounded(texts(list@), next_guess@, i as int);
            lemma_grade_upto_bounded(texts(list@), next_guess@, i + 1);
            assert((i + 1) * list.len() <= GRADED_MAX * GRADED_MAX) by (nonlinear_arith)
                requires
                    i + 1 <= list.len(),
                    list.len() <= GRADED_MAX,
            ;
        }
        sum = sum + left.len() as i32;
        i += 1;
    }
    sum
}

/// The place of the lowest grade, the earliest of them if there are
/// several, leaving out place `skip`.
fn lowest_except(grades: &Vec<i32>, skip: usize) -> (lowest: usize)
    requires
        grades.len() >= 2 || (grades.len() == 1 && skip != 0),
    ensures
        lowest < grades.len(),
        lowest != skip,
        forall|j: int|
            0 <= j < grades.len() && j != skip && j != lowest ==> grades[lowest as int] < grades[j]
                || (grades[lowest as int] == grades[j] && lowest < j),
{
    let mut lowest: usize = if skip == 0 {
        1
    } else {
        0
    };
    let mut j: usize = lowest + 1;
    while j < grades.len()
        invariant
            lowest < j <= grades.len(),
            lowest != skip,
            forall|k: int|
                0 <= k < j && k != skip && k != lowest ==> grades[lowest as int] < grades[k] || (
                grades[lowest as int] == grades[k] && lowest < k),
        decreases grades.len() - j,
    {
        if j != skip && grades[j] < grades[lowest] {
            lowest = j;
        }
        j += 1;
    }
    lowest
}

/// Picks the words to try next: the word of `list` with the lowest grade
/// and the one with the next lowest, where the list has as many. Words of
/// equal grade keep the order of the list.
pub fn recommend_from_hint_list(list: &Vec<String>) -> (picks: Vec<String>)
    requires
        list.len() <= GRADED_MAX,
    ensures
        picks.len() == if list.len() < RECOMMENDED {
            list.len()
        } else {
            RECOMMENDED
        },
        forall|r: int|
            0 <= r < picks.len() ==> exists|i: int|
                0 <= i < list.len() && place(texts(list@), i) == r && #[trigger] picks[r]@
                    == list[i]@,
{
    let ghost hints = texts(list@);
    let mut grades: Vec<i32> = Vec::new();
    let mut i: usize = 0;
    while i < list.len()
        invariant
            i <= list.len(),
            list.len() <= GRADED_MAX,
            hints == texts(list@),
            grades.len() == i,
            forall|j: int| 0 <= j < i ==> grades[j] == grade(hints, #[trigger] hints[j]),
        decreases list.len() - i,
    {
        grades.push(get_grade_one_depth(list, &list[i]));
        i += 1;
    }
    let mut picks: Vec<String> = Vec::new();
    if list.len() == 0 {
        return picks;
    }
    let first = lowest_except(&grades, list.len());
    picks.push(list[first].clone());
    proof {
        assert forall|j: int| 0 <= j < hints.len() implies !precedes(hints, j, first as int) by {}
        lemma_count_below_tail(
            0,
            hints.len() as int,
            |j: int| precedes(hints, j, first as int),
        );
        assert(place(hints, first as int) == 0);
    }
    if list.len() == 1 {
        return picks;
    }
    let second = lowest_except(&grades, first);
    picks.push(list[second].clone());
    proof {
        let before = |j: int| precedes(hints, j, second as int);
        assert forall|j: int| 0 <= j < hints.len() implies #[trigger] before(j) == (j
            == first) by {}
        lemma_count_below_tail(0, first as int, before);
        lemma_count_below_tail(first + 1, hints.len() as int, before);
        assert(place(hints, second as int) == 1);
    }
    picks
}

} // verus!
