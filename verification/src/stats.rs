//! Statistics over the rounds that a session has recorded.

use vstd::prelude::*;
use crate::count::{
    count_below, lemma_count_below_all, lemma_count_below_raise, lemma_count_below_tail,
    lemma_occurrences_positive, lemma_occurrences_push, lemma_occurrences_take, occurrences,
};
use crate::session::{texts, Game, Info};
use crate::text::{
    comes_before, digits, has_word, lemma_text_lt_irreflexive, lemma_text_lt_total,
    lemma_text_lt_transitive, numeral, push_char, push_digits, push_numeral, push_text, text_lt,
    to_upper, upper_text,
};

verus! {

/// Number of words that the statistics name.
pub const SHOWN_WORDS: usize = 5;

/// A word with the number of times it was guessed.
pub type Count = (Seq<char>, int);

/// The content of a frequency list.
pub open spec fn tally(list: Seq<(String, i32)>) -> Seq<Count> {
    Seq::new(list.len(), |i: int| (list[i].0@, list[i].1 as int))
}

/// Whether a frequency list names `word`.
pub open spec fn names(counts: Seq<Count>, word: Seq<char>) -> bool {
    exists|i: int| 0 <= i < counts.len() && (#[trigger] counts[i]).0 == word
}

/// A frequency list after `word` has been counted once more: every entry
/// for the word is raised by one, and a word that the list does not name
/// is added at its end with the count 1.
pub open spec fn tally_add(counts: Seq<Count>, word: Seq<char>) -> Seq<Count> {
    if names(counts, word) {
        Seq::new(
            counts.len(),
            |i: int|
                if counts[i].0 == word {
                    (word, counts[i].1 + 1)
                } else {
                    counts[i]
                },
        )
    } else {
        counts.push((word, 1))
    }
}

/// The frequency list of the guesses `seen`, counted one after the other
/// from an empty list: the words stand in the order in which they were
/// first guessed.
pub open spec fn tally_of(seen: Seq<Seq<char>>) -> Seq<Count>
    decreases seen.len(),
{
    if seen.len() == 0 {
        Seq::empty()
    } else {
        tally_add(tally_of(seen.drop_last()), seen.last())
    }
}

/// Counts `word` once more in a frequency list.
pub fn add_word_to_freq_list(freq_list: &mut Vec<(String, i32)>, word: &String)
    requires
        forall|i: int|
            0 <= i < old(freq_list).len() && (#[trigger] old(freq_list)[i]).0@ == word@ ==> old(
                freq_list,
            )[i].1 < i32::MAX,
    ensures
        tally(final(freq_list)@) == tally_add(tally(old(freq_list)@), word@),
{
    let mut contain = false;
    let mut i: usize = 0;
    while i < freq_list.len()
        invariant
            i <= freq_list.len(),
            freq_list.len() == old(freq_list).len(),
            contain == exists|j: int| 0 <= j < i && (#[trigger] old(freq_list)[j]).0@ == word@,
            forall|j: int|
                0 <= j < i ==> (#[trigger] freq_list[j]).0@ == old(freq_list)[j].0@
                    && freq_list[j].1 == if old(freq_list)[j].0@ == word@ {
                    old(freq_list)[j].1 + 1
                } else {
                    old(freq_list)[j].1 as int
                },
            forall|j: int|
                i <= j < freq_list.len() ==> (#[trigger] freq_list[j]) == old(freq_list)[j],
            forall|j: int|
                0 <= j < old(freq_list).len() && (#[trigger] old(freq_list)[j]).0@ == word@
                    ==> old(freq_list)[j].1 < i32::MAX,
        decreases freq_list.len() - i,
    {
        if freq_list[i].0 == *word {
            let raised = (freq_list[i].0.clone(), freq_list[i].1 + 1);
            freq_list.set(i, raised);
            contain = true;
        }
        i += 1;
    }
    proof {
        let before = tally(old(freq_list)@);
        if contain {
            let j = choose|j: int| 0 <= j < i && (#[trigger] old(freq_list)[j]).0@ == word@;
            assert(before[j].0 == word@);
        } else {
            assert forall|j: int| 0 <= j < before.len() implies (#[trigger] before[j]).0
                != word@ by {
                assert(old(freq_list)[j].0@ != word@);
            }
        }
    }
    if !contain {
        freq_list.push((word.clone(), 1));
    }
}

/// Every guess of every game, in the order in which they were made.
pub open spec fn all_guesses(games: Seq<Game>) -> Seq<Seq<char>>
    decreases games.len(),
{
    if games.len() == 0 {
        Seq::empty()
    } else {
        all_guesses(games.drop_last()) + texts(games.last().guesses@)
    }
}

/// A game was won if its answer is among its guesses.
pub open spec fn won(game: Game) -> bool {
    texts(game.guesses@).contains(game.answer@)
}

/// The number of games won among the first `n`.
pub open spec fn won_rounds(games: Seq<Game>, n: int) -> nat {
    count_below(n, |i: int| won(games[i]))
}

/// The number of guesses made in the games won among the first `n`.
pub open spec fn won_guesses(games: Seq<Game>, n: int) -> nat
    decreases n,
{
    if n <= 0 {
        0
    } else {
        won_guesses(games, n - 1) + if won(games[n - 1]) {
            games[n - 1].guesses@.len()
        } else {
            0nat
        }
    }
}

/// `counts` is the frequency list of the guesses `seen`: it names each of
/// them once, with the number of times it was made.
pub open spec fn is_tally_of(counts: Seq<Count>, seen: Seq<Seq<char>>) -> bool {
    &&& forall|i: int, j: int|
        0 <= i < j < counts.len() ==> (#[trigger] counts[i]).0 != (#[trigger] counts[j]).0
    &&& forall|i: int|
        0 <= i < counts.len() ==> seen.contains((#[trigger] counts[i]).0) && counts[i].1
            == occurrences(seen, counts[i].0)
    &&& forall|k: int| 0 <= k < seen.len() ==> names(counts, #[trigger] seen[k])
}

/// One entry stands above another in the statistics: it was guessed more
/// often, or as often and its word comes first in dictionary order.
pub open spec fn entry_outranks(a: Count, b: Count) -> bool {
    a.1 > b.1 || (a.1 == b.1 && text_lt(a.0, b.0))
}

/// Among the guesses `all`, the word `a` stands above the word `b`.
pub open spec fn outranks(all: Seq<Seq<char>>, a: Seq<char>, b: Seq<char>) -> bool {
    entry_outranks((a, occurrences(all, a) as int), (b, occurrences(all, b) as int))
}

/// `top` lists the most guessed words among `all`: at most `SHOWN_WORDS`
/// words that were guessed, each with the number of times it was, from
/// the highest down, and every guessed word that is left out stands below
/// all of a full list.
pub open spec fn is_top_list(all: Seq<Seq<char>>, top: Seq<Count>) -> bool {
    &&& top.len() <= SHOWN_WORDS
    &&& forall|r: int|
        0 <= r < top.len() ==> all.contains((#[trigger] top[r]).0) && top[r].1 == occurrences(
            all,
            top[r].0,
        )
    &&& forall|r: int, s: int|
        0 <= r < s < top.len() ==> outranks(all, (#[trigger] top[r]).0, (#[trigger] top[s]).0)
    &&& forall|k: int|
        0 <= k < all.len() && !names(top, #[trigger] all[k]) ==> top.len() == SHOWN_WORDS
            && forall|r: int| 0 <= r < top.len() ==> outranks(all, (#[trigger] top[r]).0, all[k])
}

/// The first `n` entries of a top list as text: each word in capitals, a
/// space and its count, with one space between entries.
pub open spec fn top_text(top: Seq<Count>, n: int) -> Seq<char>
    decreases n,
{
    if n <= 0 {
        Seq::empty()
    } else {
        top_text(top, n - 1) + if n > 1 {
            seq![' ']
        } else {
            Seq::empty()
        } + upper_text(top[n - 1].0) + seq![' '] + numeral(top[n - 1].1)
    }
}

/// The statistics as text: the games won, the games not won, and the
/// average, on one line; the top list on the next.
pub open spec fn stats_text(won: nat, failed: int, average: Seq<char>, top: Seq<Count>) -> Seq<
    char,
> {
    digits(won) + seq![' '] + numeral(failed) + seq![' '] + average + seq!['\n'] + top_text(
        top,
        top.len() as int,
    )
}

/// Counting one more guess keeps a frequency list in step with the
/// guesses seen.
pub proof fn lemma_tally_add(counts: Seq<Count>, seen: Seq<Seq<char>>, word: Seq<char>)
    requires
        is_tally_of(counts, seen),
    ensures
        is_tally_of(tally_add(counts, word), seen.push(word)),
{
    let after = tally_add(counts, word);
    let more = seen.push(word);
    assert forall|i: int| 0 <= i < after.len() implies more.contains((#[trigger] after[i]).0)
        && after[i].1 == occurrences(more, after[i].0) by {
        lemma_occurrences_push(seen, word, after[i].0);
        if i < counts.len() {
            let k = choose|k: int| 0 <= k < seen.len() && seen[k] == counts[i].0;
            assert(more[k] == counts[i].0);
        } else {
            if occurrences(seen, word) > 0 {
                lemma_occurrences_positive(seen, word);
                let k = choose|k: int| 0 <= k < seen.len() && seen[k] == word;
                assert(names(counts, seen[k]));
            }
        }
    }
    assert forall|k: int| 0 <= k < more.len() implies names(after, #[trigger] more[k]) by {
        if k < seen.len() {
            let i = choose|i: int| 0 <= i < counts.len() && (#[trigger] counts[i]).0 == seen[k];
            assert(after[i].0 == seen[k]);
        } else if names(counts, word) {
            let i = choose|i: int| 0 <= i < counts.len() && (#[trigger] counts[i]).0 == word;
            assert(after[i].0 == word);
        } else {
            assert(after[counts.len() as int].0 == word);
        }
    }
    assert forall|i: int, j: int| 0 <= i < j < after.len() implies (#[trigger] after[i]).0 != (
    #[trigger] after[j]).0 by {
        if j >= counts.len() {
            assert(counts[i].0 != word);
        }
    }
}

/// The frequency list of `seen` names each of the guesses once, with the
/// number of times it was made.
pub proof fn lemma_tally_of(seen: Seq<Seq<char>>)
    ensures
        is_tally_of(tally_of(seen), seen),
    decreases seen.len(),
{
    if seen.len() > 0 {
        lemma_tally_of(seen.drop_last());
        lemma_tally_add(tally_of(seen.drop_last()), seen.drop_last(), seen.last());
        assert(seen.drop_last().push(seen.last()) =~= seen);
    }
}

/// The guesses of the first `n` games are the beginning of the guesses
/// of all of them.
pub proof fn lemma_all_guesses_take(games: Seq<Game>, n: int)
    requires
        0 <= n <= games.len(),
    ensures
        all_guesses(games.take(n)).len() <= all_guesses(games).len(),
        all_guesses(games.take(n)) == all_guesses(games).take(
            all_guesses(games.take(n)).len() as int,
        ),
    decreases games.len(),
{
    if n == games.len() {
        assert(games.take(n) =~= games);
    } else {
        lemma_all_guesses_take(games.drop_last(), n);
        assert(games.drop_last().take(n) =~= games.take(n));
    }
}

/// The guesses of the first `n + 1` games are those of the first `n` and
/// then those of game `n`.
pub proof fn lemma_all_guesses_next(games: Seq<Game>, n: int)
    requires
        0 <= n < games.len(),
    ensures
        all_guesses(games.take(n + 1)) == all_guesses(games.take(n)) + texts(games[n].guesses@),
{
    assert(games.take(n + 1).drop_last() =~= games.take(n));
}

/// The frequency list of all guesses of `games`, in the order in which
/// the words were first guessed.
pub fn tally_guesses(games: &Vec<Game>) -> (freq_list: Vec<(String, i32)>)
    requires
        forall|word: Seq<char>| occurrences(all_guesses(games@), word) <= i32::MAX,
    ensures
        tally(freq_list@) == tally_of(all_guesses(games@)),
        is_tally_of(tally(freq_list@), all_guesses(games@)),
{
    let ghost all = all_guesses(games@);
    let mut freq_list: Vec<(String, i32)> = Vec::new();
    let mut g: usize = 0;
    while g < games.len()
        invariant
            g <= games.len(),
            all == all_guesses(games@),
            forall|word: Seq<char>| occurrences(all, word) <= i32::MAX,
            tally(freq_list@) == tally_of(all_guesses(games@.take(g as int))),
        decreases games.len() - g,
    {
        let ghost before = all_guesses(games@.take(g as int));
        let guesses = &games[g].guesses;
        let mut j: usize = 0;
        proof {
            lemma_all_guesses_next(games@, g as int);
            lemma_all_guesses_take(games@, g + 1);
        }
        while j < guesses.len()
            invariant
                j <= guesses.len(),
                g < games.len(),
                guesses == &games[g as int].guesses,
                all == all_guesses(games@),
                before == all_guesses(games@.take(g as int)),
                before + texts(guesses@) == all.take((before + texts(guesses@)).len() as int),
                (before + texts(guesses@)).len() <= all.len(),
                forall|word: Seq<char>| occurrences(all, word) <= i32::MAX,
                tally(freq_list@) == tally_of(before + texts(guesses@).take(j as int)),
            decreases guesses.len() - j,
        {
            let ghost seen = before + texts(guesses@).take(j as int);
            let ghost word = guesses[j as int]@;
            let ghost next = seen.len() as int + 1;
            proof {
                assert(seen.push(word) =~= before + texts(guesses@).take(j + 1));
                assert(seen.push(word) =~= all.take(next)) by {
                    assert(seen.push(word) =~= (before + texts(guesses@)).take(next));
                }
                lemma_tally_of(seen);
                lemma_occurrences_take(all, next, word);
                lemma_occurrences_push(seen, word, word);
                assert forall|i: int|
                    0 <= i < freq_list.len() && (#[trigger] freq_list[i]).0@
                        == word implies freq_list[i].1 < i32::MAX by {
                    assert(tally(freq_list@)[i].0 == word);
                }
                assert(seen.push(word).drop_last() =~= seen);
            }
            add_word_to_freq_list(&mut freq_list, &guesses[j]);
            j += 1;
        }
        assert(texts(guesses@).take(guesses.len() as int) =~= texts(guesses@));
        g += 1;
    }
    assert(games@.take(games.len() as int) =~= games@);
    proof {
        lemma_tally_of(all_guesses(games@));
    }
    freq_list
}

/// Whether `entry` is one of the entries of `top`.
pub open spec fn lists(top: Seq<Count>, entry: Count) -> bool {
    exists|r: int| 0 <= r < top.len() && #[trigger] top[r] == entry
}

/// Whether every entry of `top` stands above `entry`.
pub open spec fn all_outrank(top: Seq<Count>, entry: Count) -> bool {
    forall|r: int| 0 <= r < top.len() ==> entry_outranks(#[trigger] top[r], entry)
}

/// Whether entry `a` stands above entry `b`.
fn stands_above(a: &(String, i32), b: &(String, i32)) -> (r: bool)
    ensures
        r == entry_outranks((a.0@, a.1 as int), (b.0@, b.1 as int)),
{
    a.1 > b.1 || (a.1 == b.1 && comes_before(&a.0, &b.0))
}

/// Standing above is transitive.
pub proof fn lemma_entry_outranks_transitive(a: Count, b: Count, c: Count)
    requires
        entry_outranks(a, b),
        entry_outranks(b, c),
    ensures
        entry_outranks(a, c),
{
    if a.1 == b.1 && b.1 == c.1 {
        lemma_text_lt_transitive(a.0, b.0, c.0, 0);
    }
}

/// Of two entries for different words, one stands above the other.
pub proof fn lemma_entry_outranks_total(a: Count, b: Count)
    requires
        a.0 != b.0,
    ensures
        entry_outranks(a, b) || entry_outranks(b, a),
{
    lemma_text_lt_total(a.0, b.0, 0);
}

/// The highest entries of a frequency list that names no word twice, from
/// the highest down: `SHOWN_WORDS` of them, or all if there are fewer.
pub fn top_words(freq_list: &Vec<(String, i32)>) -> (top: Vec<(String, i32)>)
    requires
        forall|i: int, j: int|
            0 <= i < j < freq_list.len() ==> (#[trigger] freq_list[i]).0@ != (
            #[trigger] freq_list[j]).0@,
    ensures
        top.len() == if freq_list.len() < SHOWN_WORDS {
            freq_list.len()
        } else {
            SHOWN_WORDS
        },
        forall|r: int|
            0 <= r < top.len() ==> exists|i: int|
                0 <= i < freq_list.len() && #[trigger] tally(top@)[r] == tally(freq_list@)[i],
        forall|r: int, s: int|
            0 <= r < s < top.len() ==> entry_outranks(
                #[trigger] tally(top@)[r],
                #[trigger] tally(top@)[s],
            ),
        forall|i: int|
            0 <= i < freq_list.len() ==> lists(tally(top@), #[trigger] tally(freq_list@)[i]) || (
            top.len() == SHOWN_WORDS && all_outrank(tally(top@), tally(freq_list@)[i])),
{
    let n = freq_list.len();
    let ghost counts = tally(freq_list@);
    let limit = if n < SHOWN_WORDS {
        n
    } else {
        SHOWN_WORDS
    };
    let mut taken: Vec<bool> = Vec::new();
    let mut k: usize = 0;
    while k < n
        invariant
            k <= n,
            taken.len() == k,
            forall|i: int| 0 <= i < k ==> !taken[i],
        decreases n - k,
    {
        taken.push(false);
        k += 1;
    }
    proof {
        lemma_count_below_tail(0, n as int, |i: int| taken@[i]);
    }
    let mut top: Vec<(String, i32)> = Vec::new();
    let ghost mut order: Seq<int> = Seq::empty();
    let mut r: usize = 0;
    while r < limit
        invariant
            r <= limit,
            limit <= n,
            limit <= SHOWN_WORDS,
            n == freq_list.len(),
            counts == tally(freq_list@),
            taken.len() == n,
            top.len() == r,
            order.len() == r,
            count_below(n as int, |i: int| taken@[i]) == r,
            forall|i: int, j: int|
                0 <= i < j < freq_list.len() ==> (#[trigger] freq_list[i]).0@ != (
                #[trigger] freq_list[j]).0@,
            forall|q: int|
                0 <= q < r ==> 0 <= #[trigger] order[q] < n && taken[order[q]] && tally(top@)[q]
                    == counts[order[q]],
            forall|i: int|
                0 <= i < n && #[trigger] taken[i] ==> exists|q: int|
                    0 <= q < r && #[trigger] order[q] == i,
            forall|q: int, s: int|
                0 <= q < s < r ==> entry_outranks(
                    #[trigger] tally(top@)[q],
                    #[trigger] tally(top@)[s],
                ),
            forall|q: int, i: int|
                0 <= q < r && 0 <= i < n && !taken[i] ==> entry_outranks(
                    #[trigger] tally(top@)[q],
                    #[trigger] counts[i],
                ),
        decreases limit - r,
    {
        let mut best: Option<usize> = None;
        let mut j: usize = 0;
        while j < n
            invariant
                j <= n,
                n == freq_list.len(),
                counts == tally(freq_list@),
                taken.len() == n,
                forall|i: int, j: int|
                    0 <= i < j < freq_list.len() ==> (#[trigger] freq_list[i]).0@ != (
                    #[trigger] freq_list[j]).0@,
                match best {
                    Some(b) => {
                        &&& b < j
                        &&& !taken[b as int]
                        &&& forall|i: int|
                            0 <= i < j && !taken[i] && i != b ==> entry_outranks(
                                counts[b as int],
                                #[trigger] counts[i],
                            )
                    },
                    None => forall|i: int| 0 <= i < j ==> #[trigger] taken[i],
                },
            decreases n - j,
        {
            if !taken[j] {
                match best {
                    Some(b) => {
                        proof {
                            lemma_entry_outranks_total(counts[j as int], counts[b as int]);
                        }
                        if stands_above(&freq_list[j], &freq_list[b]) {
                            proof {
                                assert forall|i: int|
                                    0 <= i < j + 1 && !taken[i] && i != j implies entry_outranks(
                                    counts[j as int],
                                    #[trigger] counts[i],
                                ) by {
                                    if i != b {
                                        lemma_entry_outranks_transitive(
                                            counts[j as int],
                                            counts[b as int],
                                            counts[i],
                                        );
                                    }
                                }
                            }
                            best = Some(j);
                        }
                    },
                    None => {
                        best = Some(j);
                    },
                }
            }
            j += 1;
        }
        proof {
            if best is None {
                let flagged = |i: int| taken@[i];
                lemma_count_below_all(n as int, flagged);
                assert forall|i: int| 0 <= i < n implies #[trigger] flagged(i) by {
                    assert(taken[i]);
                }
            }
        }
        let b = best.unwrap();
        let ghost before = taken@;
        let ghost top_before = tally(top@);
        taken.set(b, true);
        top.push((freq_list[b].0.clone(), freq_list[b].1));
        proof {
            lemma_count_below_raise(n as int, |i: int| before[i], |i: int| taken@[i], b as int);
            let order_before = order;
            order = order.push(b as int);
            assert forall|q: int| 0 <= q < r + 1 implies 0 <= #[trigger] order[q] < n
                && taken[order[q]] && tally(top@)[q] == counts[order[q]] by {
                if q < r {
                    assert(tally(top@)[q] == top_before[q]);
                }
            }
            assert forall|i: int| 0 <= i < n && #[trigger] taken[i] implies exists|q: int|
                0 <= q < r + 1 && #[trigger] order[q] == i by {
                if i == b {
                    assert(order[r as int] == i);
                } else {
                    let q = choose|q: int| 0 <= q < r && #[trigger] order_before[q] == i;
                    assert(order[q] == i);
                }
            }
            assert forall|q: int, s: int| 0 <= q < s < r + 1 implies entry_outranks(
                #[trigger] tally(top@)[q],
                #[trigger] tally(top@)[s],
            ) by {
                assert(tally(top@)[q] == top_before[q]);
                if s < r {
                    assert(tally(top@)[s] == top_before[s]);
                } else {
                    assert(entry_outranks(top_before[q], counts[b as int]));
                }
            }
            assert forall|q: int, i: int|
                0 <= q < r + 1 && 0 <= i < n && !taken[i] implies entry_outranks(
                #[trigger] tally(top@)[q],
                #[trigger] counts[i],
            ) by {
                if q < r {
                    assert(tally(top@)[q] == top_before[q]);
                }
            }
        }
        r += 1;
    }
    proof {
        assert forall|q: int| 0 <= q < top.len() implies exists|i: int|
            0 <= i < freq_list.len() && #[trigger] tally(top@)[q] == tally(freq_list@)[i] by {
            assert(tally(top@)[q] == counts[order[q]]);
        }
        let flagged = |i: int| taken@[i];
        if limit < SHOWN_WORDS {
            lemma_count_below_all(n as int, flagged);
        }
        assert forall|i: int| 0 <= i < freq_list.len() implies lists(
            tally(top@),
            #[trigger] tally(freq_list@)[i],
        ) || (top.len() == SHOWN_WORDS && all_outrank(tally(top@), tally(freq_list@)[i])) by {
            if limit < SHOWN_WORDS {
                assert(flagged(i));
            }
            if taken[i] {
                let q = choose|q: int| 0 <= q < r && #[trigger] order[q] == i;
                assert(tally(top@)[q] == counts[i]);
            } else {
                assert forall|q: int| 0 <= q < top.len() implies entry_outranks(
                    #[trigger] tally(top@)[q],
                    tally(freq_list@)[i],
                ) by {
                    assert(entry_outranks(tally(top@)[q], counts[i]));
                }
            }
        }
    }
    top
}

/// The highest entries of the frequency list of `all` are the top list
/// of `all`.
pub proof fn lemma_top_of_tally(all: Seq<Seq<char>>, counts: Seq<Count>, top: Seq<Count>)
    requires
        is_tally_of(counts, all),
        top.len() <= SHOWN_WORDS,
        forall|r: int| 0 <= r < top.len() ==> lists(counts, #[trigger] top[r]),
        forall|r: int, s: int|
            0 <= r < s < top.len() ==> entry_outranks(#[trigger] top[r], #[trigger] top[s]),
        forall|i: int|
            0 <= i < counts.len() ==> lists(top, #[trigger] counts[i]) || (top.len() == SHOWN_WORDS
                && all_outrank(top, counts[i])),
    ensures
        is_top_list(all, top),
{
    assert forall|r: int| 0 <= r < top.len() implies all.contains((#[trigger] top[r]).0)
        && top[r].1 == occurrences(all, top[r].0) by {
        let i = choose|i: int| 0 <= i < counts.len() && #[trigger] counts[i] == top[r];
        assert(all.contains(counts[i].0));
    }
    assert forall|k: int| 0 <= k < all.len() && !names(top, #[trigger] all[k]) implies top.len()
        == SHOWN_WORDS && forall|r: int|
        0 <= r < top.len() ==> outranks(all, (#[trigger] top[r]).0, all[k]) by {
        let i = choose|i: int| 0 <= i < counts.len() && (#[trigger] counts[i]).0 == all[k];
        if lists(top, counts[i]) {
            let r = choose|r: int| 0 <= r < top.len() && #[trigger] top[r] == counts[i];
            assert(top[r].0 == all[k]);
        }
        assert forall|r: int| 0 <= r < top.len() implies outranks(
            all,
            (#[trigger] top[r]).0,
            all[k],
        ) by {
            assert(entry_outranks(top[r], counts[i]));
        }
    }
}

/// Of two words, at most one stands above the other, and no word stands
/// above itself.
pub proof fn lemma_outranks_asymmetric(all: Seq<Seq<char>>, a: Seq<char>, b: Seq<char>)
    ensures
        !(outranks(all, a, b) && outranks(all, b, a)),
{
    if text_lt(a, b) && text_lt(b, a) {
        lemma_text_lt_transitive(a, b, a, 0);
    }
    lemma_text_lt_irreflexive(a, 0);
}

/// The word at place `r` of a top list stands above the word `w` that was
/// guessed and is at none of the places up to `r`.
proof fn lemma_top_outranks_rest(all: Seq<Seq<char>>, top: Seq<Count>, r: int, w: Seq<char>)
    requires
        is_top_list(all, top),
        0 <= r < top.len(),
        all.contains(w),
        forall|q: int| 0 <= q <= r ==> (#[trigger] top[q]).0 != w,
    ensures
        outranks(all, top[r].0, w),
{
    if names(top, w) {
        let s = choose|s: int| 0 <= s < top.len() && (#[trigger] top[s]).0 == w;
        assert(outranks(all, top[r].0, top[s].0));
    } else {
        let k = choose|k: int| 0 <= k < all.len() && all[k] == w;
        assert(!names(top, all[k]));
    }
}

/// Two top lists of the same guesses name the same word at each place
/// that both have.
proof fn lemma_top_lists_agree(all: Seq<Seq<char>>, a: Seq<Count>, b: Seq<Count>, r: int)
    requires
        is_top_list(all, a),
        is_top_list(all, b),
        0 <= r < a.len(),
        r < b.len(),
    ensures
        a[r].0 == b[r].0,
    decreases r,
{
    assert forall|q: int| 0 <= q < r implies (#[trigger] a[q]).0 == b[q].0 by {
        lemma_top_lists_agree(all, a, b, q);
    }
    if a[r].0 != b[r].0 {
        assert forall|q: int| 0 <= q <= r implies (#[trigger] b[q]).0 != a[r].0 by {
            if q < r {
                assert(outranks(all, a[q].0, a[r].0));
                lemma_outranks_asymmetric(all, a[r].0, a[r].0);
            }
        }
        assert forall|q: int| 0 <= q <= r implies (#[trigger] a[q]).0 != b[r].0 by {
            if q < r {
                assert(outranks(all, b[q].0, b[r].0));
                lemma_outranks_asymmetric(all, b[r].0, b[r].0);
            }
        }
        lemma_top_outranks_rest(all, b, r, a[r].0);
        lemma_top_outranks_rest(all, a, r, b[r].0);
        lemma_outranks_asymmetric(all, a[r].0, b[r].0);
    }
}

/// A top list that is no longer than another names every word of the
/// other, so that the other is no longer.
proof fn lemma_top_lists_len(all: Seq<Seq<char>>, a: Seq<Count>, b: Seq<Count>)
    requires
        is_top_list(all, a),
        is_top_list(all, b),
    ensures
        a.len() >= b.len(),
{
    if a.len() < b.len() {
        let extra = b[a.len() as int].0;
        assert forall|q: int| 0 <= q < a.len() implies (#[trigger] a[q]).0 != extra by {
            lemma_top_lists_agree(all, a, b, q);
            assert(outranks(all, b[q].0, extra));
            lemma_outranks_asymmetric(all, extra, extra);
        }
        let k = choose|k: int| 0 <= k < all.len() && all[k] == extra;
        assert(!names(a, all[k]));
    }
}

/// The guesses of a session have one top list only.
pub proof fn lemma_top_list_unique(all: Seq<Seq<char>>, a: Seq<Count>, b: Seq<Count>)
    requires
        is_top_list(all, a),
        is_top_list(all, b),
    ensures
        a == b,
{
    lemma_top_lists_len(all, a, b);
    lemma_top_lists_len(all, b, a);
    assert forall|r: int| 0 <= r < a.len() implies a[r] == b[r] by {
        lemma_top_lists_agree(all, a, b, r);
    }
}

/// The number of games won, and the number of guesses made in them.
pub fn success_counts(games: &Vec<Game>) -> (counts: (usize, u128))
    ensures
        counts.0 == won_rounds(games@, games.len() as int),
        counts.1 == won_guesses(games@, games.len() as int),
{
    let mut rounds: usize = 0;
    let mut guesses: u128 = 0;
    let mut g: usize = 0;
    while g < games.len()
        invariant
            g <= games.len(),
            rounds <= g,
            rounds == won_rounds(games@, g as int),
            guesses == won_guesses(games@, g as int),
            guesses <= g * usize::MAX,
        decreases games.len() - g,
    {
        assert((g + 1) * usize::MAX == g * usize::MAX + usize::MAX) by (nonlinear_arith);
        assert(g * usize::MAX <= usize::MAX * usize::MAX) by (nonlinear_arith)
            requires
                g <= usize::MAX,
        ;
        if has_word(&games[g].guesses, &games[g].answer) {
            rounds += 1;
            guesses += games[g].guesses.len() as u128;
        }
        g += 1;
    }
    (rounds, guesses)
}

/// Writes the statistics of the session: on the first line the games won,
/// the games not won (the rounds played less the games won) and
/// `average`; on the second the most guessed words in capitals, each with
/// its count.
///
/// `average` is the text of the average number of guesses in a game won;
/// the caller renders it from `success_counts`.
pub fn stats_to_string(info: &Info, average: &String) -> (text: String)
    requires
        forall|word: Seq<char>|
            occurrences(all_guesses(info.state.games@), word) <= i32::MAX,
    ensures
        exists|top: Seq<Count>|
            is_top_list(all_guesses(info.state.games@), top) && text@ == #[trigger] stats_text(
                won_rounds(info.state.games@, info.state.games.len() as int),
                info.state.total_rounds - won_rounds(
                    info.state.games@,
                    info.state.games.len() as int,
                ),
                average@,
                top,
            ),
{
    let games = &info.state.games;
    let counts = success_counts(games);
    let failed: i128 = info.state.total_rounds as i128 - counts.0 as i128;
    let freq_list = tally_guesses(games);
    proof {
        assert forall|i: int, j: int| 0 <= i < j < freq_list.len() implies (
        #[trigger] freq_list[i]).0@ != (#[trigger] freq_list[j]).0@ by {
            assert(tally(freq_list@)[i].0 != tally(freq_list@)[j].0);
        }
    }
    let top = top_words(&freq_list);
    proof {
        assert forall|r: int| 0 <= r < top.len() implies lists(
            tally(freq_list@),
            #[trigger] tally(top@)[r],
        ) by {
            let i = choose|i: int|
                0 <= i < freq_list.len() && #[trigger] tally(top@)[r] == tally(freq_list@)[i];
            assert(tally(freq_list@)[i] == tally(top@)[r]);
        }
        lemma_top_of_tally(all_guesses(games@), tally(freq_list@), tally(top@));
    }
    let mut text = String::new();
    push_digits(&mut text, counts.0 as u128);
    push_char(&mut text, ' ');
    push_numeral(&mut text, failed);
    push_char(&mut text, ' ');
    push_text(&mut text, average);
    push_char(&mut text, '\n');
    let ghost head = text@;
    assert(head =~= digits(counts.0 as nat) + seq![' '] + numeral(failed as int) + seq![' ']
        + average@ + seq!['\n']);
    let mut r: usize = 0;
    while r < top.len()
        invariant
            r <= top.len(),
            text@ == head + top_text(tally(top@), r as int),
        decreases top.len() - r,
    {
        if r > 0 {
            push_char(&mut text, ' ');
        }
        let word = to_upper(&top[r].0);
        push_text(&mut text, &word);
        push_char(&mut text, ' ');
        push_numeral(&mut text, top[r].1 as i128);
        r += 1;
    }
    assert(text@ == stats_text(
        counts.0 as nat,
        failed as int,
        average@,
        tally(top@),
    ));
    text
}

} // verus!
