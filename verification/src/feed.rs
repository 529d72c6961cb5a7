//! A round played over lines that are given in advance: each line is
//! offered to the round as a guess, until the round has ended or the lines
//! have run out.

use vstd::prelude::*;
use crate::color::Color;
use crate::round::{
    after_guess, green_locks, guess_allowed, guess_one_time, lemma_green_locks_hold, lock_holds,
    RoundInfo, RoundState, RoundView, MAX_GUESSES,
};
use crate::score::{word_score, WORDLE_LENS};
use crate::session::{texts, Info};
use crate::text::upper_text;

verus! {

/// What decides whether a round takes a guess, and what it does with it.
pub struct Rules {
    /// The words that can be guessed.
    pub acceptable: Seq<Seq<char>>,
    /// Whether difficult mode is on.
    pub difficult: bool,
    /// Whether the hint list is kept.
    pub hint: bool,
}

/// The rules that a session sets for its rounds.
pub open spec fn rules_of(info: Info) -> Rules {
    Rules {
        acceptable: texts(info.acceptable_set@),
        difficult: info.is_difficult,
        hint: info.is_hint,
    }
}

/// Whether the round takes `line` as a guess: it is waiting for one, and
/// the line is a guess that it allows.
pub open spec fn takes(rules: Rules, round: RoundView, line: Seq<char>) -> bool {
    round.state() == RoundState::AwaitingGuess && guess_allowed(
        rules.acceptable,
        rules.difficult,
        round,
        line,
    )
}

/// The round after the first `n` of `lines` have been offered to it. A
/// line that the round takes is a guess; any other line changes nothing.
pub open spec fn feed(
    rules: Rules,
    round: RoundView,
    secret: Seq<char>,
    lines: Seq<Seq<char>>,
    n: int,
) -> RoundView
    decreases n,
{
    if n <= 0 {
        round
    } else {
        let before = feed(rules, round, secret, lines, n - 1);
        if takes(rules, before, lines[n - 1]) {
            after_guess(before, secret, lines[n - 1], rules.hint)
        } else {
            before
        }
    }
}

/// Those of the first `n` of `lines` that the round takes, in order.
pub open spec fn taken_lines(
    rules: Rules,
    round: RoundView,
    secret: Seq<char>,
    lines: Seq<Seq<char>>,
    n: int,
) -> Seq<Seq<char>>
    decreases n,
{
    if n <= 0 {
        Seq::empty()
    } else if takes(rules, feed(rules, round, secret, lines, n - 1), lines[n - 1]) {
        taken_lines(rules, round, secret, lines, n - 1).push(lines[n - 1])
    } else {
        taken_lines(rules, round, secret, lines, n - 1)
    }
}

/// Each text of a list in capitals.
pub open spec fn in_capitals(list: Seq<Seq<char>>) -> Seq<Seq<char>> {
    Seq::new(list.len(), |k: int| upper_text(list[k]))
}

/// Offers `lines` to the round one after the other, until the round has
/// ended or the lines have run out, and gives the number of lines read.
/// No line is read once the round has ended.
pub fn take_lines(
    word_to_guess: &String,
    info: &Info,
    round_info: &mut RoundInfo,
    lines: &Vec<String>,
) -> (read: usize)
    requires
        old(round_info)@.wf(),
    ensures
        final(round_info)@.wf(),
        read <= lines.len(),
        final(round_info)@ == feed(
            rules_of(*info),
            old(round_info)@,
            word_to_guess@,
            texts(lines@),
            read as int,
        ),
        forall|j: int|
            0 <= j < read ==> (#[trigger] feed(
                rules_of(*info),
                old(round_info)@,
                word_to_guess@,
                texts(lines@),
                j,
            )).state() == RoundState::AwaitingGuess,
        read == lines.len() || final(round_info)@.state() != RoundState::AwaitingGuess,
{
    let mut read: usize = 0;
    while read < lines.len() && round_info.is_success == false
        && round_info.word_guessed_this_round.len() < MAX_GUESSES
        invariant
            read <= lines.len(),
            round_info@.wf(),
            round_info@ == feed(
                rules_of(*info),
                old(round_info)@,
                word_to_guess@,
                texts(lines@),
                read as int,
            ),
            forall|j: int|
                0 <= j < read ==> (#[trigger] feed(
                    rules_of(*info),
                    old(round_info)@,
                    word_to_guess@,
                    texts(lines@),
                    j,
                )).state() == RoundState::AwaitingGuess,
        decreases lines.len() - read,
    {
        assert(texts(lines@)[read as int] == lines[read as int]@);
        let _ = guess_one_time(word_to_guess, info, round_info, lines[read].clone());
        read += 1;
    }
    read
}

/// Once a round has ended, no further line changes it.
pub proof fn lemma_feed_ended(
    rules: Rules,
    round: RoundView,
    secret: Seq<char>,
    lines: Seq<Seq<char>>,
    n: int,
    m: int,
)
    requires
        n <= m,
        feed(rules, round, secret, lines, n).state() != RoundState::AwaitingGuess,
    ensures
        feed(rules, round, secret, lines, m) == feed(rules, round, secret, lines, n),
    decreases m - n,
{
    if n < m {
        lemma_feed_ended(rules, round, secret, lines, n, m - 1);
    }
}

/// What a round that starts with no guess behind it has recorded after
/// `n` lines: its guesses are the lines that it took, in capitals and in
/// their order, at most `MAX_GUESSES` of them; lines that it did not take
/// have left nothing. It is won exactly if the last line that it took is
/// the secret, and no line taken before the last is the secret; it is
/// lost exactly if it took `MAX_GUESSES` lines, none of them the secret.
pub proof fn lemma_feed_record(
    rules: Rules,
    round: RoundView,
    secret: Seq<char>,
    lines: Seq<Seq<char>>,
    n: int,
)
    requires
        round.guesses.len() == 0,
        !round.solved,
    ensures
        ({
            let end = feed(rules, round, secret, lines, n);
            let taken = taken_lines(rules, round, secret, lines, n);
            &&& end.guesses == in_capitals(taken)
            &&& taken.len() <= MAX_GUESSES
            &&& end.solved <==> taken.len() > 0 && taken.last() == secret
            &&& forall|k: int| 0 <= k < taken.len() - 1 ==> #[trigger] taken[k] != secret
            &&& end.state() == RoundState::Success <==> taken.len() > 0 && taken.last() == secret
            &&& end.state() == RoundState::Failed <==> taken.len() == MAX_GUESSES
                && forall|k: int| 0 <= k < taken.len() ==> #[trigger] taken[k] != secret
        }),
    decreases n,
{
    let end = feed(rules, round, secret, lines, n);
    let taken = taken_lines(rules, round, secret, lines, n);
    if n > 0 {
        lemma_feed_record(rules, round, secret, lines, n - 1);
        let before = feed(rules, round, secret, lines, n - 1);
        let earlier = taken_lines(rules, round, secret, lines, n - 1);
        assert(before.guesses.len() == earlier.len());
        if takes(rules, before, lines[n - 1]) {
            assert(taken == earlier.push(lines[n - 1]));
            assert(end.guesses =~= in_capitals(taken));
            assert forall|k: int| 0 <= k < earlier.len() implies #[trigger] earlier[k]
                != secret by {
                if k == earlier.len() - 1 {
                    assert(earlier.last() != secret);
                }
            }
            assert forall|k: int| 0 <= k < taken.len() - 1 implies #[trigger] taken[k]
                != secret by {
                assert(taken[k] == earlier[k]);
            }
        }
    } else {
        assert(round.guesses =~= in_capitals(Seq::<Seq<char>>::empty()));
    }
    assert(end.guesses.len() == taken.len());
    if taken.len() > 0 && !end.solved {
        assert forall|k: int| 0 <= k < taken.len() implies #[trigger] taken[k] != secret by {
            if k == taken.len() - 1 {
                assert(taken.last() != secret);
            }
        }
    }
    if end.state() == RoundState::Failed {
        assert(taken.len() == MAX_GUESSES);
    }
    if taken.len() == MAX_GUESSES && (forall|k: int|
        0 <= k < taken.len() ==> #[trigger] taken[k] != secret) {
        assert(taken[taken.len() - 1] != secret);
        assert(!end.solved);
    }
}

/// A lock that the round holds after `n` lines is still there after any
/// later line.
pub proof fn lemma_feed_keeps_locks(
    rules: Rules,
    round: RoundView,
    secret: Seq<char>,
    lines: Seq<Seq<char>>,
    n: int,
    m: int,
    lock: (usize, char),
)
    requires
        n <= m,
        feed(rules, round, secret, lines, n).locked.contains(lock),
    ensures
        feed(rules, round, secret, lines, m).locked.contains(lock),
    decreases m - n,
{
    if n < m {
        lemma_feed_keeps_locks(rules, round, secret, lines, n, m - 1, lock);
        let before = feed(rules, round, secret, lines, m - 1);
        let j = choose|j: int| 0 <= j < before.locked.len() && before.locked[j] == lock;
        assert(feed(rules, round, secret, lines, m).locked[j] == lock);
    }
}

/// In difficult mode, once the round has taken a line that is green at
/// place `i`, it takes no later line with another letter at that place:
/// such a line leaves the whole round as it was.
pub proof fn lemma_feed_locked_place(
    rules: Rules,
    round: RoundView,
    secret: Seq<char>,
    lines: Seq<Seq<char>>,
    a: int,
    b: int,
    i: int,
)
    requires
        rules.difficult,
        0 <= a < b < lines.len(),
        0 <= i < WORDLE_LENS,
        takes(rules, feed(rules, round, secret, lines, a), lines[a]),
        word_score(secret, lines[a])[i] == Color::G,
        !(i < lines[b].len() && lines[b][i] == lines[a][i]),
    ensures
        !takes(rules, feed(rules, round, secret, lines, b), lines[b]),
        feed(rules, round, secret, lines, b + 1) == feed(rules, round, secret, lines, b),
{
    let lock = (i as usize, lines[a][i]);
    let before = feed(rules, round, secret, lines, a);
    let after = feed(rules, round, secret, lines, a + 1);
    let fresh_locks = green_locks(lines[a], word_score(secret, lines[a]), WORDLE_LENS as int);
    lemma_green_locks_hold(lines[a], word_score(secret, lines[a]), WORDLE_LENS as int, i);
    let j = choose|j: int| 0 <= j < fresh_locks.len() && fresh_locks[j] == lock;
    assert(after.locked[before.locked.len() + j] == lock);
    lemma_feed_keeps_locks(rules, round, secret, lines, a + 1, b, lock);
    let later = feed(rules, round, secret, lines, b);
    let m = choose|m: int| 0 <= m < later.locked.len() && later.locked[m] == lock;
    assert(!lock_holds(lines[b], later.locked[m]));
}

/// A line that the round takes and that is the secret ends the round in
/// success, with the secret in capitals as its last guess.
pub proof fn lemma_feed_secret(
    rules: Rules,
    round: RoundView,
    secret: Seq<char>,
    lines: Seq<Seq<char>>,
    n: int,
)
    requires
        0 <= n < lines.len(),
        takes(rules, feed(rules, round, secret, lines, n), lines[n]),
        lines[n] == secret,
    ensures
        feed(rules, round, secret, lines, n + 1).state() == RoundState::Success,
        feed(rules, round, secret, lines, n + 1).guesses.last() == upper_text(secret),
{
}

} // verus!
