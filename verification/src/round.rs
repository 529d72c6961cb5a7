//! One round: the secret is fixed, guesses come one at a time, and each
//! accepted guess adds to what the round knows.

use vstd::prelude::*;
use vstd::string::StrSliceExecFns;
use crate::color::Color;
use crate::error::Error;
use crate::hint::{get_new_hint_list, narrowed};
use crate::score::{calculate_color, word_score, WORDLE_LENS};
use crate::session::{texts, Info};
use crate::text::{has_char, has_word, to_upper, upper_text};

verus! {

/// Number of letters that the alphabet tracker follows.
pub const ALPHABET_LENS: usize = 26;

/// Number of accepted guesses after which a round is lost.
pub const MAX_GUESSES: usize = 6;

/// Where a round stands.
#[derive(Debug, Clone, Copy, PartialEq, Eq, Structural)]
pub enum RoundState {
    AwaitingGuess,
    Success,
    Failed,
}

/// What a round has learnt so far.
pub struct RoundInfo {
    /// Places known to be green, each with its letter, oldest first.
    pub already_guessed_position: Vec<(usize, char)>,
    /// The best colour seen for each letter from `a` to `z`.
    pub alphabet_color: Vec<Color>,
    /// The accepted guesses in order, in capitals.
    pub word_guessed_this_round: Vec<String>,
    /// The colouring of each accepted guess, in the same order.
    pub word_results: Vec<Vec<Color>>,
    /// The words that agree with every colouring seen so far.
    pub hint_list: Vec<String>,
    /// Whether the last accepted guess was the secret.
    pub is_success: bool,
}

/// The mathematical content of a `RoundInfo`.
#[verifier::ext_equal]
pub struct RoundView {
    pub locked: Seq<(usize, char)>,
    pub alphabet: Seq<Color>,
    pub guesses: Seq<Seq<char>>,
    pub results: Seq<Seq<Color>>,
    pub hints: Seq<Seq<char>>,
    pub solved: bool,
}

impl View for RoundInfo {
    type V = RoundView;

    open spec fn view(&self) -> RoundView {
        RoundView {
            locked: self.already_guessed_position@,
            alphabet: self.alphabet_color@,
            guesses: texts(self.word_guessed_this_round@),
            results: Seq::new(self.word_results@.len(), |i: int| self.word_results@[i]@),
            hints: texts(self.hint_list@),
            solved: self.is_success,
        }
    }
}

/// The `k`-th letter of the alphabet, counted from `a` as 0.
pub open spec fn letter_of(k: int) -> char {
    (97 + k) as char
}

/// The better known of two colours.
pub open spec fn best(a: Color, b: Color) -> Color {
    if a.rank() < b.rank() {
        b
    } else {
        a
    }
}

/// The colour of `letter` after the first `n` places of a coloured guess
/// have been taken into account, starting from `before`.
pub open spec fn letter_after(
    before: Color,
    letter: char,
    guess: Seq<char>,
    result: Seq<Color>,
    n: int,
) -> Color
    decreases n,
{
    if n <= 0 {
        before
    } else {
        let prev = letter_after(before, letter, guess, result, n - 1);
        if guess[n - 1] == letter {
            best(prev, result[n - 1])
        } else {
            prev
        }
    }
}

/// The alphabet after a coloured guess: each letter keeps the best colour
/// it has had, the colours it gets in this guess included.
pub open spec fn alphabet_after(before: Seq<Color>, guess: Seq<char>, result: Seq<Color>) -> Seq<
    Color,
> {
    Seq::new(
        ALPHABET_LENS as nat,
        |k: int| letter_after(before[k], letter_of(k), guess, result, WORDLE_LENS as int),
    )
}

impl RoundView {
    /// The shape every round has: one colour for each letter of the
    /// alphabet, every lock inside the word, and one colouring for each
    /// guess.
    pub open spec fn wf(self) -> bool {
        &&& self.alphabet.len() == ALPHABET_LENS
        &&& forall|i: int|
            0 <= i < self.locked.len() ==> (#[trigger] self.locked[i]).0 < WORDLE_LENS
        &&& self.results.len() == self.guesses.len()
    }

    /// Where the round stands: won once the last guess was the secret,
    /// lost once `MAX_GUESSES` guesses were taken without that, waiting
    /// for a guess otherwise.
    pub open spec fn state(self) -> RoundState {
        if self.solved {
            RoundState::Success
        } else if self.guesses.len() >= MAX_GUESSES {
            RoundState::Failed
        } else {
            RoundState::AwaitingGuess
        }
    }

    /// A round before its first guess, with `hints` as the words to choose
    /// from.
    pub open spec fn fresh(hints: Seq<Seq<char>>) -> RoundView {
        RoundView {
            locked: Seq::empty(),
            alphabet: Seq::new(ALPHABET_LENS as nat, |k: int| Color::X),
            guesses: Seq::empty(),
            results: Seq::empty(),
            hints,
            solved: false,
        }
    }
}

impl RoundInfo {
    /// A round before its first guess: every word that can be guessed is
    /// still a hint.
    pub fn new(info: &Info) -> (round_info: RoundInfo)
        ensures
            round_info@ == RoundView::fresh(texts(info.acceptable_set@)),
            round_info@.wf(),
    {
        let mut alphabet: Vec<Color> = Vec::new();
        let mut i: usize = 0;
        while i < ALPHABET_LENS
            invariant
                i <= ALPHABET_LENS,
                alphabet.len() == i,
                forall|k: int| 0 <= k < i ==> alphabet[k] == Color::X,
            decreases ALPHABET_LENS - i,
        {
            alphabet.push(Color::X);
            i += 1;
        }
        let round_info = RoundInfo {
            already_guessed_position: Vec::new(),
            alphabet_color: alphabet,
            word_guessed_this_round: Vec::new(),
            word_results: Vec::new(),
            hint_list: info.acceptable_set.clone(),
            is_success: false,
        };
        round_info
    }

    /// Where the round stands.
    pub fn round_state(&self) -> (state: RoundState)
        ensures
            state == self@.state(),
    {
        if self.is_success {
            RoundState::Success
        } else if self.word_guessed_this_round.len() >= MAX_GUESSES {
            RoundState::Failed
        } else {
            RoundState::AwaitingGuess
        }
    }
}

/// The place of a lower-case letter in the alphabet.
pub fn letter_index(c: char) -> (r: Option<usize>)
    ensures
        match r {
            Some(k) => k < ALPHABET_LENS && letter_of(k as int) == c,
            None => forall|k: int| 0 <= k < ALPHABET_LENS ==> letter_of(k) != c,
        },
{
    if c >= 'a' && c <= 'z' {
        Some((c as u8 - 97) as usize)
    } else {
        None
    }
}

/// Takes a coloured guess into the round's alphabet: a letter's colour
/// changes only to a better one.
pub fn update_round_alphabet_color(
    round_info: &mut RoundInfo,
    guess_word: &String,
    word_result: &Vec<Color>,
)
    requires
        old(round_info)@.alphabet.len() == ALPHABET_LENS,
        guess_word@.len() >= WORDLE_LENS,
        word_result.len() >= WORDLE_LENS,
    ensures
        final(round_info)@ == (RoundView {
            alphabet: alphabet_after(old(round_info)@.alphabet, guess_word@, word_result@),
            ..old(round_info)@
        }),
        forall|k: int|
            0 <= k < ALPHABET_LENS ==> (#[trigger] final(round_info)@.alphabet[k]).rank() >= old(
                round_info,
            )@.alphabet[k].rank(),
{
    let text = guess_word.as_str();
    let mut p: usize = 0;
    while p < WORDLE_LENS
        invariant
            p <= WORDLE_LENS,
            text@ == guess_word@,
            guess_word@.len() >= WORDLE_LENS,
            word_result.len() >= WORDLE_LENS,
            round_info.alphabet_color.len() == ALPHABET_LENS,
            round_info@ == (RoundView { alphabet: round_info@.alphabet, ..old(round_info)@ }),
            forall|k: int|
                0 <= k < ALPHABET_LENS ==> round_info.alphabet_color[k] == letter_after(
                    old(round_info)@.alphabet[k],
                    letter_of(k),
                    guess_word@,
                    word_result@,
                    p as int,
                ),
        decreases WORDLE_LENS - p,
    {
        let c = text.get_char(p);
        match letter_index(c) {
            Some(k) => {
                if round_info.alphabet_color[k].grade() < word_result[p].grade() {
                    round_info.alphabet_color.set(k, word_result[p]);
                }
            },
            None => {},
        }
        p += 1;
    }
    assert(round_info@.alphabet =~= alphabet_after(
        old(round_info)@.alphabet,
        guess_word@,
        word_result@,
    ));
    assert forall|k: int| 0 <= k < ALPHABET_LENS implies (#[trigger] round_info@.alphabet[k]).rank()
        >= old(round_info)@.alphabet[k].rank() by {
        lemma_letter_after(
            old(round_info)@.alphabet[k],
            letter_of(k),
            guess_word@,
            word_result@,
            WORDLE_LENS as int,
        );
    }
}

/// The guess holds the locked letter at the locked place.
pub open spec fn lock_holds(guess: Seq<char>, lock: (usize, char)) -> bool {
    lock.0 < guess.len() && guess[lock.0 as int] == lock.1
}

/// Whether the round takes `guess`: it has the length of a word, it is
/// one of the `acceptable` words, and, in difficult mode, it keeps every
/// locked letter in its place and holds every letter that the alphabet
/// shows as yellow.
pub open spec fn guess_allowed(
    acceptable: Seq<Seq<char>>,
    difficult: bool,
    round: RoundView,
    guess: Seq<char>,
) -> bool {
    &&& guess.len() == WORDLE_LENS
    &&& acceptable.contains(guess)
    &&& difficult ==> {
        &&& forall|i: int|
            0 <= i < round.locked.len() ==> lock_holds(guess, #[trigger] round.locked[i])
        &&& forall|k: int|
            0 <= k < ALPHABET_LENS && #[trigger] round.alphabet[k] == Color::Y ==> guess.contains(
                letter_of(k),
            )
    }
}

/// The locks that the first `n` places of a coloured guess give: each
/// green place with the letter of the guess there, from left to right.
pub open spec fn green_locks(guess: Seq<char>, result: Seq<Color>, n: int) -> Seq<(usize, char)>
    decreases n,
{
    if n <= 0 {
        Seq::empty()
    } else if result[n - 1] == Color::G {
        green_locks(guess, result, n - 1).push(((n - 1) as usize, guess[n - 1]))
    } else {
        green_locks(guess, result, n - 1)
    }
}

/// The round after it has taken `guess` against `secret`. With `hint`
/// set, the hint list is narrowed as well.
pub open spec fn after_guess(
    round: RoundView,
    secret: Seq<char>,
    guess: Seq<char>,
    hint: bool,
) -> RoundView {
    let result = word_score(secret, guess);
    RoundView {
        locked: round.locked + green_locks(guess, result, WORDLE_LENS as int),
        alphabet: alphabet_after(round.alphabet, guess, result),
        guesses: round.guesses.push(upper_text(guess)),
        results: round.results.push(result),
        hints: if hint {
            narrowed(round.hints, guess, result)
        } else {
            round.hints
        },
        solved: guess == secret,
    }
}

/// The round after it has taken each of `guesses` in turn.
pub open spec fn play(
    round: RoundView,
    secret: Seq<char>,
    guesses: Seq<Seq<char>>,
    hint: bool,
) -> RoundView
    decreases guesses.len(),
{
    if guesses.len() == 0 {
        round
    } else {
        after_guess(play(round, secret, guesses.drop_last(), hint), secret, guesses.last(), hint)
    }
}

/// Checks a guess against the word list and, in difficult mode, against
/// what the round has shown. Gives the guess back if the round takes it.
pub fn get_checked_guess(info: &Info, round_info: &RoundInfo, guess_word: String) -> (checked:
    Result<String, Error>)
    requires
        round_info@.wf(),
    ensures
        match checked {
            Ok(word) => word@ == guess_word@ && guess_allowed(
                texts(info.acceptable_set@),
                info.is_difficult,
                round_info@,
                guess_word@,
            ),
            Err(error) => error == Error::InvalidWord && !guess_allowed(
                texts(info.acceptable_set@),
                info.is_difficult,
                round_info@,
                guess_word@,
            ),
        },
{
    let text = guess_word.as_str();
    if text.unicode_len() != WORDLE_LENS {
        return Err(Error::InvalidWord);
    }
    if !has_word(&info.acceptable_set, &guess_word) {
        return Err(Error::InvalidWord);
    }
    if info.is_difficult {
        let mut i: usize = 0;
        while i < round_info.already_guessed_position.len()
            invariant
                i <= round_info.already_guessed_position.len(),
                info.is_difficult,
                round_info@.wf(),
                text@ == guess_word@,
                guess_word@.len() == WORDLE_LENS,
                forall|j: int|
                    0 <= j < i ==> lock_holds(guess_word@, #[trigger] round_info@.locked[j]),
            decreases round_info.already_guessed_position.len() - i,
        {
            let lock = round_info.already_guessed_position[i];
            assert(lock == round_info@.locked[i as int]);
            if text.get_char(lock.0) != lock.1 {
                return Err(Error::InvalidWord);
            }
            i += 1;
        }
        let mut k: usize = 0;
        while k < ALPHABET_LENS
            invariant
                k <= ALPHABET_LENS,
                info.is_difficult,
                round_info@.wf(),
                forall|j: int|
                    0 <= j < k && #[trigger] round_info@.alphabet[j] == Color::Y
                        ==> guess_word@.contains(letter_of(j)),
            decreases ALPHABET_LENS - k,
        {
            if round_info.alphabet_color[k] == Color::Y {
                let letter = (97u8 + k as u8) as char;
                if !has_char(&guess_word, letter) {
                    return Err(Error::InvalidWord);
                }
            }
            k += 1;
        }
    }
    Ok(guess_word)
}

/// Takes one guess in a round that is waiting for one.
///
/// A guess that the round does not take leaves the round as it was. A
/// guess that it takes is recorded in capitals with its colouring, locks
/// its green places, raises the alphabet and, in hint mode, narrows the
/// hint list. `Err(Error::AlreadyCorrect)` reports that the guess was the
/// secret.
pub fn guess_one_time(
    word_to_guess: &String,
    info: &Info,
    round_info: &mut RoundInfo,
    guess_word: String,
) -> (taken: Result<(), Error>)
    requires
        old(round_info)@.wf(),
        old(round_info)@.state() == RoundState::AwaitingGuess,
    ensures
        final(round_info)@.wf(),
        match taken {
            Err(Error::InvalidWord) => {
                &&& !guess_allowed(
                    texts(info.acceptable_set@),
                    info.is_difficult,
                    old(round_info)@,
                    guess_word@,
                )
                &&& final(round_info)@ == old(round_info)@
            },
            Err(Error::AlreadyCorrect) => {
                &&& guess_allowed(
                    texts(info.acceptable_set@),
                    info.is_difficult,
                    old(round_info)@,
                    guess_word@,
                )
                &&& guess_word@ == word_to_guess@
                &&& final(round_info)@ == after_guess(
                    old(round_info)@,
                    word_to_guess@,
                    guess_word@,
                    info.is_hint,
                )
            },
            Ok(()) => {
                &&& guess_allowed(
                    texts(info.acceptable_set@),
                    info.is_difficult,
                    old(round_info)@,
                    guess_word@,
                )
                &&& guess_word@ != word_to_guess@
                &&& final(round_info)@ == after_guess(
                    old(round_info)@,
                    word_to_guess@,
                    guess_word@,
                    info.is_hint,
                )
            },
            Err(Error::InvalidArgs) => false,
        },
{
    let guess_word = match get_checked_guess(info, round_info, guess_word) {
        Ok(word) => word,
        Err(_) => {
            return Err(Error::InvalidWord);
        },
    };
    round_info.word_guessed_this_round.push(to_upper(&guess_word));
    let word_result = calculate_color(word_to_guess, &guess_word);
    let text = guess_word.as_str();
    let mut i: usize = 0;
    while i < WORDLE_LENS
        invariant
            i <= WORDLE_LENS,
            text@ == guess_word@,
            guess_word@.len() == WORDLE_LENS,
            word_result@ == word_score(word_to_guess@, guess_word@),
            round_info.already_guessed_position@ == old(round_info)@.locked + green_locks(
                guess_word@,
                word_result@,
                i as int,
            ),
            round_info@ == (RoundView {
                locked: round_info@.locked,
                guesses: old(round_info)@.guesses.push(upper_text(guess_word@)),
                ..old(round_info)@
            }),
        decreases WORDLE_LENS - i,
    {
        if word_result[i] == Color::G {
            round_info.already_guessed_position.push((i, text.get_char(i)));
        }
        i += 1;
    }
    if info.is_hint {
        round_info.hint_list = get_new_hint_list(&round_info.hint_list, &guess_word, &word_result);
    }
    update_round_alphabet_color(round_info, &guess_word, &word_result);
    let solved = guess_word == *word_to_guess;
    round_info.is_success = solved;
    round_info.word_results.push(word_result);
    assert(round_info@ =~= after_guess(
        old(round_info)@,
        word_to_guess@,
        guess_word@,
        info.is_hint,
    ));
    assert forall|j: int| 0 <= j < round_info@.locked.len() implies (
    #[trigger] round_info@.locked[j]).0 < WORDLE_LENS by {
        lemma_green_locks_inside(guess_word@, word_result@, WORDLE_LENS as int);
    }
    if solved {
        Err(Error::AlreadyCorrect)
    } else {
        Ok(())
    }
}

/// Every lock that a coloured guess gives lies at a place below `n`.
pub proof fn lemma_green_locks_inside(guess: Seq<char>, result: Seq<Color>, n: int)
    requires
        0 <= n <= usize::MAX,
    ensures
        forall|j: int|
            0 <= j < green_locks(guess, result, n).len() ==> (#[trigger] green_locks(
                guess,
                result,
                n,
            )[j]).0 < n,
    decreases n,
{
    if n > 0 {
        lemma_green_locks_inside(guess, result, n - 1);
        let earlier = green_locks(guess, result, n - 1);
        assert forall|j: int| 0 <= j < green_locks(guess, result, n).len() implies (
        #[trigger] green_locks(guess, result, n)[j]).0 < n by {
            if j < earlier.len() {
                assert(green_locks(guess, result, n)[j] == earlier[j]);
            }
        }
    }
}

/// What `letter_after` comes to: the colour is never worse than before,
/// never worse than any colour the letter gets in the guess, and it is
/// the colour before or one that the letter gets in the guess.
pub proof fn lemma_letter_after(
    before: Color,
    letter: char,
    guess: Seq<char>,
    result: Seq<Color>,
    n: int,
)
    ensures
        letter_after(before, letter, guess, result, n).rank() >= before.rank(),
        forall|p: int|
            0 <= p < n && guess[p] == letter ==> letter_after(
                before,
                letter,
                guess,
                result,
                n,
            ).rank() >= (#[trigger] result[p]).rank(),
        letter_after(before, letter, guess, result, n) == before || exists|p: int|
            0 <= p < n && guess[p] == letter && letter_after(before, letter, guess, result, n)
                == #[trigger] result[p],
    decreases n,
{
    if n > 0 {
        lemma_letter_after(before, letter, guess, result, n - 1);
        let prev = letter_after(before, letter, guess, result, n - 1);
        let now = letter_after(before, letter, guess, result, n);
        if now != before {
            if now == prev {
                let p = choose|p: int|
                    0 <= p < n - 1 && guess[p] == letter && prev == #[trigger] result[p];
                assert(0 <= p < n && guess[p] == letter && now == result[p]);
            } else {
                assert(guess[n - 1] == letter && now == result[n - 1]);
            }
        }
    }
}

/// No guess lowers the rank of a letter in the alphabet.
pub proof fn lemma_alphabet_never_regresses(
    round: RoundView,
    secret: Seq<char>,
    guesses: Seq<Seq<char>>,
    hint: bool,
    k: int,
)
    requires
        round.wf(),
        0 <= k < ALPHABET_LENS,
    ensures
        play(round, secret, guesses, hint).alphabet.len() == ALPHABET_LENS,
        play(round, secret, guesses, hint).alphabet[k].rank() >= round.alphabet[k].rank(),
    decreases guesses.len(),
{
    if guesses.len() > 0 {
        let earlier = play(round, secret, guesses.drop_last(), hint);
        lemma_alphabet_never_regresses(round, secret, guesses.drop_last(), hint, k);
        lemma_letter_after(
            earlier.alphabet[k],
            letter_of(k),
            guesses.last(),
            word_score(secret, guesses.last()),
            WORDLE_LENS as int,
        );
    }
}

/// A guess that is the secret ends the round in success.
pub proof fn lemma_round_won(round: RoundView, secret: Seq<char>, hint: bool)
    ensures
        after_guess(round, secret, secret, hint).state() == RoundState::Success,
{
}

/// A fresh round that takes only guesses other than the secret waits for
/// the next guess as long as it has taken fewer than `MAX_GUESSES`, and
/// has failed once it has taken that many.
pub proof fn lemma_round_lost(
    hints: Seq<Seq<char>>,
    secret: Seq<char>,
    guesses: Seq<Seq<char>>,
    hint: bool,
)
    requires
        forall|i: int| 0 <= i < guesses.len() ==> guesses[i] != secret,
    ensures
        play(RoundView::fresh(hints), secret, guesses, hint).guesses.len() == guesses.len(),
        play(RoundView::fresh(hints), secret, guesses, hint).state() == if guesses.len()
            >= MAX_GUESSES {
            RoundState::Failed
        } else {
            RoundState::AwaitingGuess
        },
    decreases guesses.len(),
{
    if guesses.len() > 0 {
        lemma_round_lost(hints, secret, guesses.drop_last(), hint);
    }
}

/// A green place of a coloured guess is among the locks that it gives.
pub proof fn lemma_green_locks_hold(guess: Seq<char>, result: Seq<Color>, n: int, i: int)
    requires
        0 <= i < n <= usize::MAX,
        result[i] == Color::G,
    ensures
        green_locks(guess, result, n).contains((i as usize, guess[i])),
    decreases n,
{
    let locks = green_locks(guess, result, n);
    if i == n - 1 {
        assert(locks.last() == (i as usize, guess[i]));
    } else {
        lemma_green_locks_hold(guess, result, n - 1, i);
        let earlier = green_locks(guess, result, n - 1);
        let j = choose|j: int| 0 <= j < earlier.len() && earlier[j] == (i as usize, guess[i]);
        assert(locks[j] == earlier[j]);
    }
}

/// A lock, once set, stays through every later guess.
pub proof fn lemma_locks_stay(
    round: RoundView,
    secret: Seq<char>,
    guesses: Seq<Seq<char>>,
    hint: bool,
    lock: (usize, char),
)
    requires
        round.locked.contains(lock),
    ensures
        play(round, secret, guesses, hint).locked.contains(lock),
    decreases guesses.len(),
{
    if guesses.len() > 0 {
        lemma_locks_stay(round, secret, guesses.drop_last(), hint, lock);
        let earlier = play(round, secret, guesses.drop_last(), hint);
        let j = choose|j: int| 0 <= j < earlier.locked.len() && earlier.locked[j] == lock;
        assert(play(round, secret, guesses, hint).locked[j] == lock);
    }
}

/// In difficult mode, once a guess has been green at place `i`, no later
/// guess with another letter at that place is taken, whatever the round
/// has taken in between.
pub proof fn lemma_locked_place_rejects(
    acceptable: Seq<Seq<char>>,
    round: RoundView,
    secret: Seq<char>,
    first: Seq<char>,
    between: Seq<Seq<char>>,
    next: Seq<char>,
    hint: bool,
    i: int,
)
    requires
        0 <= i < WORDLE_LENS,
        word_score(secret, first)[i] == Color::G,
        !(i < next.len() && next[i] == first[i]),
    ensures
        !guess_allowed(
            acceptable,
            true,
            play(after_guess(round, secret, first, hint), secret, between, hint),
            next,
        ),
{
    let lock = (i as usize, first[i]);
    let locked = after_guess(round, secret, first, hint);
    let fresh_locks = green_locks(first, word_score(secret, first), WORDLE_LENS as int);
    lemma_green_locks_hold(first, word_score(secret, first), WORDLE_LENS as int, i);
    let j = choose|j: int| 0 <= j < fresh_locks.len() && fresh_locks[j] == lock;
    assert(locked.locked[round.locked.len() + j] == lock);
    lemma_locks_stay(locked, secret, between, hint, lock);
    let later = play(locked, secret, between, hint);
    let m = choose|m: int| 0 <= m < later.locked.len() && later.locked[m] == lock;
    assert(!lock_holds(next, later.locked[m]));
}

} // verus!
