//! What a session knows: its settings, its word lists, the order in which
//! it draws secret words, and the record of the rounds played.

use vstd::prelude::*;
use rand::rngs::StdRng;
use rand::seq::SliceRandom;
use rand::SeedableRng;
use crate::args::{
    flag_given, flag_values, flag_values_of, has_flag, lacks_value, parse_i32, parse_u64,
    parsed_i32, parsed_u64, text_is,
};
use crate::error::Error;
use crate::feed::{feed, rules_of, take_lines};
use crate::round::{RoundInfo, RoundState, RoundView};
use crate::text::{has_word, lower_text, to_lower, to_upper, upper_text};

verus! {

/// The record of one finished round.
#[derive(Debug, Clone)]
pub struct Game {
    /// The secret word, in capitals.
    pub answer: String,
    /// The accepted guesses in order, in capitals.
    pub guesses: Vec<String>,
}

/// The record of a session, as it is kept between runs.
#[derive(Debug, Clone)]
pub struct State {
    pub total_rounds: i32,
    pub games: Vec<Game>,
}

/// Settings, word lists and running counts of a session.
pub struct Info {
    pub is_difficult: bool,
    pub is_random: bool,
    pub is_word_specified: bool,
    pub is_stats: bool,
    pub is_recommend: bool,
    pub is_seeded: bool,
    pub is_special_day: bool,
    pub is_stated: bool,
    pub is_hint: bool,
    pub succeeded_game: i32,
    pub failed_game: i32,
    /// The secret words drawn so far in this session.
    pub words_appeared: Vec<String>,
    /// The day on which the session starts, counted from 1.
    pub day: i32,
    pub seed: u64,
    /// The order in which the words of `final_set` are drawn.
    pub shuffled_seq: Vec<usize>,
    pub final_path: String,
    pub acceptable_path: String,
    /// The words that can be the secret.
    pub final_set: Vec<String>,
    /// The words that can be guessed.
    pub acceptable_set: Vec<String>,
    pub state: State,
    pub state_path: String,
}

/// The settings that a configuration file can hold. A setting that the
/// file does not name is `None`.
pub struct Config {
    pub random: Option<bool>,
    pub difficult: Option<bool>,
    pub stats: Option<bool>,
    pub day: Option<i64>,
    pub seed: Option<u64>,
    /// Where the list of secret words is kept.
    pub final_set: Option<String>,
    /// Where the list of words that can be guessed is kept.
    pub acceptable_set: Option<String>,
    /// Where the record of the session is kept.
    pub state: Option<String>,
    /// The secret word.
    pub word: Option<String>,
}

/// Where the secret of the next round comes from.
#[derive(Debug, Clone, Copy, PartialEq, Eq, Structural)]
pub enum SecretSource {
    /// It is drawn from the shuffled list of secret words.
    Shuffled,
    /// It was given with the settings.
    Specified,
    /// Somebody types it in.
    Interactive,
}

/// The texts of a list of strings.
pub open spec fn texts(list: Seq<String>) -> Seq<Seq<char>> {
    Seq::new(list.len(), |i: int| list[i]@)
}

/// The numbers from 0 up to `n`, `n` left out, in order.
pub open spec fn first_indices(n: nat) -> Seq<usize> {
    Seq::new(n, |i: int| i as usize)
}

/// What a shuffle of `items` gives with a generator seeded with `seed`.
pub uninterp spec fn seeded_shuffle(items: Seq<usize>, seed: u64) -> Seq<usize>;

/// The order in which a list of `n` words is drawn under `seed`.
pub open spec fn seeded_order(n: nat, seed: u64) -> Seq<usize> {
    seeded_shuffle(first_indices(n), seed)
}

/// `SliceRandom::shuffle` of the crate `rand`, with a `StdRng` made by
/// `SeedableRng::seed_from_u64`: the items are brought into an order that
/// depends on the items and the seed alone. The shuffle only swaps items,
/// so the same items are there afterwards, each as often as before.
#[verifier::external_body]
fn shuffle_seeded(items: &mut Vec<usize>, seed: u64)
    ensures
        final(items)@ == seeded_shuffle(old(items)@, seed),
        final(items)@.to_multiset() == old(items)@.to_multiset(),
{
    let mut rng: StdRng = SeedableRng::seed_from_u64(seed);
    items.shuffle(&mut rng);
}

/// The numbers below `n` in the order that `seed` gives.
pub fn shuffled_indices(n: usize, seed: u64) -> (order: Vec<usize>)
    ensures
        order@ == seeded_order(n as nat, seed),
        order@.to_multiset() == first_indices(n as nat).to_multiset(),
        order.len() == n,
        forall|i: int| 0 <= i < order.len() ==> order[i] < n,
{
    let mut order: Vec<usize> = Vec::new();
    let mut i: usize = 0;
    while i < n
        invariant
            i <= n,
            order.len() == i,
            forall|k: int| 0 <= k < i ==> order[k] == k,
        decreases n - i,
    {
        order.push(i);
        i += 1;
    }
    assert(order@ =~= first_indices(n as nat));
    shuffle_seeded(&mut order, seed);
    proof {
        let plain = first_indices(n as nat);
        order@.to_multiset_ensures();
        plain.to_multiset_ensures();
        assert forall|i: int| 0 <= i < order.len() implies order[i] < n by {
            assert(plain.to_multiset().count(order[i]) > 0);
        }
    }
    order
}

/// The first day from `day` on whose word has not appeared yet, if there
/// is one. Days are counted from 0 here, and day `d` has the word
/// `words[order[d]]`.
pub open spec fn unplayed_from(
    order: Seq<usize>,
    words: Seq<Seq<char>>,
    appeared: Seq<Seq<char>>,
    day: int,
) -> Option<int>
    decreases order.len() - day,
{
    if day < 0 || day >= order.len() {
        None
    } else if !appeared.contains(words[order[day] as int]) {
        Some(day)
    } else {
        unplayed_from(order, words, appeared, day + 1)
    }
}

/// What `unplayed_from` finds: a day from `day` on whose word has not
/// appeared, after days whose words all have; or nothing, where the words
/// of all days from `day` on have appeared or `day` is no day at all.
pub proof fn lemma_unplayed_from(
    order: Seq<usize>,
    words: Seq<Seq<char>>,
    appeared: Seq<Seq<char>>,
    day: int,
)
    ensures
        match unplayed_from(order, words, appeared, day) {
            Some(d) => {
                &&& 0 <= day <= d < order.len()
                &&& !appeared.contains(words[order[d] as int])
                &&& forall|e: int|
                    day <= e < d ==> appeared.contains(#[trigger] words[order[e] as int])
            },
            None => day < 0 || forall|e: int|
                day <= e < order.len() ==> appeared.contains(#[trigger] words[order[e] as int]),
        },
    decreases order.len() - day,
{
    if 0 <= day < order.len() && appeared.contains(words[order[day] as int]) {
        lemma_unplayed_from(order, words, appeared, day + 1);
    }
}

/// The secrets of the first `n` rounds of a session that draws its words
/// by `order`, starts on day `day` and has nothing behind it. Where no
/// word is left to draw, the session ends and the list with it.
pub open spec fn secrets_of(order: Seq<usize>, words: Seq<Seq<char>>, day: int, n: nat) -> Seq<
    Seq<char>,
>
    decreases n,
{
    if n == 0 {
        Seq::empty()
    } else {
        let earlier = secrets_of(order, words, day, (n - 1) as nat);
        if earlier.len() < n - 1 {
            earlier
        } else {
            match unplayed_from(order, words, earlier, n - 1 + day - 1) {
                Some(d) => earlier.push(words[order[d] as int]),
                None => earlier,
            }
        }
    }
}

/// Every word of `inner` is a word of `outer`.
pub open spec fn contained(inner: Seq<Seq<char>>, outer: Seq<Seq<char>>) -> bool {
    forall|i: int| 0 <= i < inner.len() ==> outer.contains(#[trigger] inner[i])
}

/// Settings that cannot stand together: a given word with random mode,
/// or a given word with a seed or a day.
pub open spec fn conflicting(random: bool, word: bool, seeded: bool, special_day: bool) -> bool {
    (random && word) || (word && (seeded || special_day))
}

/// Every flag that takes a value has one, every given word is a secret
/// word, and every given day and seed is a number of its kind.
pub open spec fn args_valid(args: Seq<Seq<char>>, final_words: Seq<Seq<char>>) -> bool {
    &&& !lacks_value(args, "-w"@, "--word"@)
    &&& !lacks_value(args, "-d"@, "--day"@)
    &&& !lacks_value(args, "-s"@, "--seed"@)
    &&& !lacks_value(args, "-S"@, "--state"@)
    &&& forall|i: int|
        0 <= i < flag_values_of(args, "-w"@, "--word"@).len() ==> final_words.contains(
            #[trigger] flag_values_of(args, "-w"@, "--word"@)[i],
        )
    &&& forall|i: int|
        0 <= i < flag_values_of(args, "-d"@, "--day"@).len() ==> parsed_i32(
            #[trigger] flag_values_of(args, "-d"@, "--day"@)[i],
        ) is Some
    &&& forall|i: int|
        0 <= i < flag_values_of(args, "-s"@, "--seed"@).len() ==> parsed_u64(
            #[trigger] flag_values_of(args, "-s"@, "--seed"@)[i],
        ) is Some
}

/// The two sessions have the same word lists, paths to them, counts,
/// drawn words and record.
pub open spec fn same_record(a: Info, b: Info) -> bool {
    &&& a.succeeded_game == b.succeeded_game
    &&& a.failed_game == b.failed_game
    &&& a.words_appeared == b.words_appeared
    &&& a.final_path == b.final_path
    &&& a.acceptable_path == b.acceptable_path
    &&& a.final_set == b.final_set
    &&& a.acceptable_set == b.acceptable_set
    &&& a.state == b.state
}

/// The last of `values`, or `default` where there is none.
pub open spec fn last_or<T>(values: Seq<T>, default: T) -> T {
    if values.len() > 0 {
        values.last()
    } else {
        default
    }
}

impl State {
    /// The record of a session in which nothing has been played.
    pub fn new() -> (state: State)
        ensures
            state.total_rounds == 0,
            state.games@.len() == 0,
    {
        State { total_rounds: 0, games: Vec::new() }
    }
}

impl Info {
    /// Every place of the drawing order names a word of the final list.
    pub open spec fn wf(&self) -> bool {
        forall|i: int|
            0 <= i < self.shuffled_seq.len() ==> (#[trigger] self.shuffled_seq[i])
                < self.final_set.len()
    }

    /// The drawing order is the one that the seed gives for the final
    /// list.
    pub open spec fn seeded(&self) -> bool {
        self.shuffled_seq@ == seeded_order(self.final_set.len() as nat, self.seed)
    }

    /// The drawing order is a permutation of the places of the final
    /// list: it names each of them once.
    pub open spec fn permuted(&self) -> bool {
        self.shuffled_seq@.to_multiset() == first_indices(
            self.final_set.len() as nat,
        ).to_multiset()
    }

    /// The day of the next round in random mode, counted from 0: the
    /// rounds played so far after the starting day.
    pub open spec fn next_day(&self) -> int {
        self.succeeded_game + self.failed_game + self.day - 1
    }

    /// The day whose word the next round draws in random mode, if there
    /// is one left.
    pub open spec fn drawn_day(&self) -> Option<int> {
        unplayed_from(
            self.shuffled_seq@,
            texts(self.final_set@),
            texts(self.words_appeared@),
            self.next_day(),
        )
    }

    /// Why the next round cannot start, if it cannot: in random mode no
    /// word is left to draw, or the secret that was typed in is no secret
    /// word.
    pub open spec fn start_error(&self, typed: Option<String>) -> Option<Error> {
        match self.source() {
            SecretSource::Shuffled => if self.drawn_day() is None {
                Some(Error::InvalidArgs)
            } else {
                None
            },
            SecretSource::Specified => None,
            SecretSource::Interactive => match typed {
                Some(text) => if texts(self.final_set@).contains(text@) {
                    None
                } else {
                    Some(Error::InvalidWord)
                },
                None => Some(Error::InvalidWord),
            },
        }
    }

    /// The secret of the next round, in lower case: the word of the day
    /// drawn, the given word `word`, or the word typed in.
    pub open spec fn next_secret(&self, word: Seq<char>, typed: Option<String>) -> Seq<char> {
        match self.source() {
            SecretSource::Shuffled => lower_text(
                texts(self.final_set@)[self.shuffled_seq[self.drawn_day().unwrap()] as int],
            ),
            SecretSource::Specified => lower_text(word),
            SecretSource::Interactive => lower_text(typed.unwrap()@),
        }
    }

    /// The words that have appeared once the next round has started.
    pub open spec fn appeared_next(&self) -> Seq<Seq<char>> {
        match self.source() {
            SecretSource::Shuffled => texts(self.words_appeared@).push(
                texts(self.final_set@)[self.shuffled_seq[self.drawn_day().unwrap()] as int],
            ),
            _ => texts(self.words_appeared@),
        }
    }

    /// Whether `after` is the session once the round `round` on `secret`
    /// has gone into its record: the record has one game more, with the
    /// secret and the guesses of the round in capitals, and the round
    /// counts as won or as lost.
    pub open spec fn recorded(&self, secret: Seq<char>, round: RoundView, after: Info) -> bool {
        &&& after.state.games@.len() == self.state.games@.len() + 1
        &&& after.state.games@.drop_last() == self.state.games@
        &&& after.state.games@.last().answer@ == upper_text(secret)
        &&& texts(after.state.games@.last().guesses@) == round.guesses
        &&& after.state.total_rounds == self.state.total_rounds + 1
        &&& after.succeeded_game == self.succeeded_game + if round.solved {
            1int
        } else {
            0int
        }
        &&& after.failed_game == self.failed_game + if round.solved {
            0int
        } else {
            1int
        }
    }

    /// Where the next secret comes from.
    pub open spec fn source(&self) -> SecretSource {
        if self.is_random {
            SecretSource::Shuffled
        } else if self.is_word_specified {
            SecretSource::Specified
        } else {
            SecretSource::Interactive
        }
    }

    /// A session with the given word lists and every setting at its
    /// default: no mode chosen, day 1, seed 0, nothing played.
    pub fn new(final_set: Vec<String>, acceptable_set: Vec<String>) -> (info: Info)
        ensures
            info.final_set == final_set,
            info.acceptable_set == acceptable_set,
            !info.is_difficult && !info.is_random && !info.is_word_specified && !info.is_stats
                && !info.is_recommend && !info.is_seeded && !info.is_special_day
                && !info.is_stated && !info.is_hint,
            info.succeeded_game == 0,
            info.failed_game == 0,
            info.words_appeared@.len() == 0,
            info.day == 1,
            info.seed == 0,
            info.final_path@.len() == 0,
            info.acceptable_path@.len() == 0,
            info.state.total_rounds == 0,
            info.state.games@.len() == 0,
            info.state_path@.len() == 0,
            info.seeded(),
            info.permuted(),
            info.wf(),
    {
        let shuffled_seq = shuffled_indices(final_set.len(), 0);
        Info {
            is_difficult: false,
            is_random: false,
            is_word_specified: false,
            is_stats: false,
            is_recommend: false,
            is_seeded: false,
            is_special_day: false,
            is_stated: false,
            is_hint: false,
            succeeded_game: 0,
            failed_game: 0,
            words_appeared: Vec::new(),
            day: 1,
            seed: 0,
            shuffled_seq,
            final_path: String::new(),
            acceptable_path: String::new(),
            final_set,
            acceptable_set,
            state: State::new(),
            state_path: String::new(),
        }
    }

    /// The session after the settings of a configuration file have been
    /// taken in: each setting that the file names replaces the one the
    /// session had; a day, a seed, a record and a word are marked as
    /// given.
    pub open spec fn with_config(self, config: Config) -> Info {
        Info {
            is_random: match config.random {
                Some(b) => b,
                None => self.is_random,
            },
            is_difficult: match config.difficult {
                Some(b) => b,
                None => self.is_difficult,
            },
            is_stats: match config.stats {
                Some(b) => b,
                None => self.is_stats,
            },
            is_special_day: config.day is Some || self.is_special_day,
            day: match config.day {
                Some(d) => d as i32,
                None => self.day,
            },
            is_seeded: config.seed is Some || self.is_seeded,
            seed: match config.seed {
                Some(s) => s,
                None => self.seed,
            },
            final_path: match config.final_set {
                Some(path) => path,
                None => self.final_path,
            },
            acceptable_path: match config.acceptable_set {
                Some(path) => path,
                None => self.acceptable_path,
            },
            is_stated: config.state is Some || self.is_stated,
            state_path: match config.state {
                Some(path) => path,
                None => self.state_path,
            },
            is_word_specified: config.word is Some || self.is_word_specified,
            ..self
        }
    }

    /// Takes the modes of a configuration file into the session.
    fn take_modes(&mut self, config: &Config)
        ensures
            *final(self) == (Info {
                is_random: old(self).with_config(*config).is_random,
                is_difficult: old(self).with_config(*config).is_difficult,
                is_stats: old(self).with_config(*config).is_stats,
                ..*old(self)
            }),
    {
        self.is_random = match config.random {
            Some(b) => b,
            None => self.is_random,
        };
        self.is_difficult = match config.difficult {
            Some(b) => b,
            None => self.is_difficult,
        };
        self.is_stats = match config.stats {
            Some(b) => b,
            None => self.is_stats,
        };
    }

    /// Takes the day and the seed of a configuration file into the
    /// session.
    fn take_draw(&mut self, config: &Config)
        ensures
            *final(self) == (Info {
                is_special_day: old(self).with_config(*config).is_special_day,
                day: old(self).with_config(*config).day,
                is_seeded: old(self).with_config(*config).is_seeded,
                seed: old(self).with_config(*config).seed,
                ..*old(self)
            }),
    {
        match config.day {
            Some(d) => {
                self.is_special_day = true;
                self.day = #[verifier::truncate]
                (d as i32);
            },
            None => {},
        }
        match config.seed {
            Some(s) => {
                self.is_seeded = true;
                self.seed = s;
            },
            None => {},
        }
    }

    /// Takes the paths of a configuration file into the session.
    fn take_paths(&mut self, config: &Config)
        ensures
            *final(self) == (Info {
                final_path: old(self).with_config(*config).final_path,
                acceptable_path: old(self).with_config(*config).acceptable_path,
                is_stated: old(self).with_config(*config).is_stated,
                state_path: old(self).with_config(*config).state_path,
                ..*old(self)
            }),
    {
        match &config.final_set {
            Some(path) => {
                self.final_path = path.clone();
            },
            None => {},
        }
        match &config.acceptable_set {
            Some(path) => {
                self.acceptable_path = path.clone();
            },
            None => {},
        }
        match &config.state {
            Some(path) => {
                self.is_stated = true;
                self.state_path = path.clone();
            },
            None => {},
        }
    }

    /// Takes the settings of a configuration file into the session. The
    /// word, if the file names one, becomes the secret. A day outside
    /// `i32` is cut to its low 32 bits.
    pub fn load_config(&mut self, word_to_guess: &mut String, config: &Config)
        ensures
            *final(self) == old(self).with_config(*config),
            final(word_to_guess)@ == match config.word {
                Some(word) => word@,
                None => old(word_to_guess)@,
            },
    {
        self.take_modes(config);
        self.take_draw(config);
        self.take_paths(config);
        match &config.word {
            Some(word) => {
                self.is_word_specified = true;
                *word_to_guess = word.clone();
            },
            None => {},
        }
    }

    /// Takes a saved record into the session. `payload` is the text that
    /// was saved and `parsed` the record read from it, or `None` where
    /// the text is no record. The text `{}` stands for a session with
    /// nothing played, whatever `parsed` holds; any other text that is no
    /// record is an error and leaves the session as it was.
    pub fn load_state(&mut self, payload: &String, parsed: Option<State>) -> (loaded: Result<
        (),
        Error,
    >)
        ensures
            match loaded {
                Ok(()) => {
                    &&& payload@ == "{}"@ || parsed is Some
                    &&& *final(self) == (Info { state: final(self).state, ..*old(self) })
                    &&& if payload@ == "{}"@ {
                        final(self).state.total_rounds == 0 && final(self).state.games@.len() == 0
                    } else {
                        Some(final(self).state) == parsed
                    }
                },
                Err(error) => {
                    &&& error == Error::InvalidArgs
                    &&& payload@ != "{}"@
                    &&& parsed is None
                    &&& *final(self) == *old(self)
                },
            },
    {
        if text_is(payload.as_str(), "{}") {
            self.state = State::new();
            return Ok(());
        }
        match parsed {
            Some(state) => {
                self.state = state;
                Ok(())
            },
            None => Err(Error::InvalidArgs),
        }
    }

    /// Whether random mode is on once the arguments are taken in.
    pub open spec fn random_with(self, args: Seq<Seq<char>>) -> bool {
        self.is_random || has_flag(args, "-r"@, "--random"@)
    }

    /// Whether a word is given once the arguments are taken in.
    pub open spec fn word_with(self, args: Seq<Seq<char>>) -> bool {
        self.is_word_specified || flag_values_of(args, "-w"@, "--word"@).len() > 0
    }

    /// Whether a seed is given once the arguments are taken in.
    pub open spec fn seeded_with(self, args: Seq<Seq<char>>) -> bool {
        self.is_seeded || flag_values_of(args, "-s"@, "--seed"@).len() > 0
    }

    /// Whether a day is given once the arguments are taken in.
    pub open spec fn special_day_with(self, args: Seq<Seq<char>>) -> bool {
        self.is_special_day || flag_values_of(args, "-d"@, "--day"@).len() > 0
    }

    /// Whether the arguments can be taken into the session: the secret
    /// words are all words that can be guessed, the arguments are valid,
    /// and the settings that come of them do not conflict: no word is
    /// given together with random mode, a seed or a day.
    pub open spec fn takes_args(self, args: Seq<Seq<char>>) -> bool {
        &&& contained(texts(self.final_set@), texts(self.acceptable_set@))
        &&& args_valid(args, texts(self.final_set@))
        &&& !conflicting(
            self.random_with(args),
            self.word_with(args),
            self.seeded_with(args),
            self.special_day_with(args),
        )
    }

    /// Whether `after` is the session once valid arguments are taken in:
    /// each mode whose flag is given is on, the last given day, seed and
    /// path of the record replace the ones the session had, and the
    /// drawing order is the permutation of the final list that the seed
    /// gives.
    pub open spec fn analyzed(self, args: Seq<Seq<char>>, after: Info) -> bool {
        &&& after.is_random == self.random_with(args)
        &&& after.is_difficult == (self.is_difficult || has_flag(args, "-D"@, "--difficult"@))
        &&& after.is_stats == (self.is_stats || has_flag(args, "-t"@, "--stats"@))
        &&& after.is_hint == (self.is_hint || has_flag(args, "-h"@, "--hint"@))
        &&& after.is_recommend == (self.is_recommend || has_flag(args, "-c"@, "--recommend"@))
        &&& after.is_word_specified == self.word_with(args)
        &&& after.is_special_day == self.special_day_with(args)
        &&& Some(after.day) == if flag_values_of(args, "-d"@, "--day"@).len() > 0 {
            parsed_i32(flag_values_of(args, "-d"@, "--day"@).last())
        } else {
            Some(self.day)
        }
        &&& after.is_seeded == self.seeded_with(args)
        &&& Some(after.seed) == if flag_values_of(args, "-s"@, "--seed"@).len() > 0 {
            parsed_u64(flag_values_of(args, "-s"@, "--seed"@).last())
        } else {
            Some(self.seed)
        }
        &&& after.is_stated == (self.is_stated || flag_values_of(args, "-S"@, "--state"@).len()
            > 0)
        &&& after.state_path@ == last_or(
            flag_values_of(args, "-S"@, "--state"@),
            self.state_path@,
        )
        &&& after.seeded()
        &&& after.permuted()
        &&& after.wf()
        &&& same_record(self, after)
    }

    /// Sets the modes that flags switch on.
    fn set_modes(&mut self, random: bool, difficult: bool, stats: bool, hint: bool, recommend: bool)
        ensures
            *final(self) == (Info {
                is_random: random,
                is_difficult: difficult,
                is_stats: stats,
                is_hint: hint,
                is_recommend: recommend,
                ..*old(self)
            }),
    {
        self.is_random = random;
        self.is_difficult = difficult;
        self.is_stats = stats;
        self.is_hint = hint;
        self.is_recommend = recommend;
    }

    /// Sets the day and the seed, where one is given, and draws the order
    /// of the secret words anew.
    fn set_draw(&mut self, day: Option<i32>, seed: Option<u64>)
        ensures
            *final(self) == (Info {
                is_special_day: day is Some || old(self).is_special_day,
                day: match day {
                    Some(d) => d,
                    None => old(self).day,
                },
                is_seeded: seed is Some || old(self).is_seeded,
                seed: match seed {
                    Some(s) => s,
                    None => old(self).seed,
                },
                shuffled_seq: final(self).shuffled_seq,
                ..*old(self)
            }),
            final(self).seeded(),
            final(self).permuted(),
            final(self).wf(),
    {
        match day {
            Some(d) => {
                self.is_special_day = true;
                self.day = d;
            },
            None => {},
        }
        match seed {
            Some(s) => {
                self.is_seeded = true;
                self.seed = s;
            },
            None => {},
        }
        self.shuffled_seq = shuffled_indices(self.final_set.len(), self.seed);
    }

    /// Whether the session ends with the round just played: a given word
    /// is played once.
    pub fn ends_after_round(&self) -> (ends: bool)
        ensures
            ends == self.is_word_specified,
    {
        self.is_word_specified
    }

    /// Whether the record is written back when the session ends: a place
    /// for it has been named and the secrets were drawn.
    pub fn saves_record(&self) -> (saves: bool)
        ensures
            saves == (self.is_stated && self.is_random),
    {
        self.is_stated && self.is_random
    }

    /// Where the next secret comes from.
    pub fn secret_source(&self) -> (source: SecretSource)
        ensures
            source == self.source(),
    {
        if self.is_random {
            SecretSource::Shuffled
        } else if self.is_word_specified {
            SecretSource::Specified
        } else {
            SecretSource::Interactive
        }
    }
}

/// Draws the word of the first day from `start_day` on whose word has not
/// appeared in this session, and gives that day. Days are counted from 0.
/// Where there is no such day, nothing is drawn and `word_to_guess` stays
/// as it was.
pub fn get_word_by_start_day(word_to_guess: &mut String, info: &Info, start_day: i32) -> (picked:
    Option<usize>)
    requires
        info.wf(),
    ensures
        match picked {
            Some(d) => {
                &&& unplayed_from(
                    info.shuffled_seq@,
                    texts(info.final_set@),
                    texts(info.words_appeared@),
                    start_day as int,
                ) == Some(d as int)
                &&& start_day <= d < info.shuffled_seq.len()
                &&& final(word_to_guess)@ == info.final_set[info.shuffled_seq[d as int] as int]@
            },
            None => {
                &&& unplayed_from(
                    info.shuffled_seq@,
                    texts(info.final_set@),
                    texts(info.words_appeared@),
                    start_day as int,
                ) is None
                &&& final(word_to_guess)@ == old(word_to_guess)@
            },
        },
{
    match draw_word(info, start_day as i64) {
        Some(day) => {
            *word_to_guess = info.final_set[info.shuffled_seq[day]].clone();
            Some(day)
        },
        None => None,
    }
}

/// Whether every word of `inner` is a word of `outer`.
pub fn contains_all(outer: &Vec<String>, inner: &Vec<String>) -> (all: bool)
    ensures
        all == contained(texts(inner@), texts(outer@)),
{
    let mut i: usize = 0;
    while i < inner.len()
        invariant
            i <= inner.len(),
            forall|k: int| 0 <= k < i ==> texts(outer@).contains(#[trigger] texts(inner@)[k]),
        decreases inner.len() - i,
    {
        if !has_word(outer, &inner[i]) {
            assert(!texts(outer@).contains(texts(inner@)[i as int]));
            return false;
        }
        i += 1;
    }
    true
}

/// The paths of the configuration files that the arguments name, in
/// order.
pub fn config_paths(args: &Vec<String>) -> (paths: Result<Vec<String>, Error>)
    ensures
        match paths {
            Ok(list) => !lacks_value(texts(args@), "-c"@, "--config"@) && texts(list@)
                == flag_values_of(texts(args@), "-c"@, "--config"@),
            Err(error) => error == Error::InvalidArgs && lacks_value(
                texts(args@),
                "-c"@,
                "--config"@,
            ),
        },
{
    flag_values(args, "-c", "--config")
}

/// Takes the paths of the word lists from the arguments: the last path
/// given for each list replaces the one the session had.
pub fn list_paths(info: &mut Info, args: &Vec<String>) -> (taken: Result<(), Error>)
    ensures
        match taken {
            Ok(()) => {
                &&& !lacks_value(texts(args@), "-f"@, "--final-set"@)
                &&& !lacks_value(texts(args@), "-a"@, "--acceptable-set"@)
                &&& final(info).final_path@ == last_or(
                    flag_values_of(texts(args@), "-f"@, "--final-set"@),
                    old(info).final_path@,
                )
                &&& final(info).acceptable_path@ == last_or(
                    flag_values_of(texts(args@), "-a"@, "--acceptable-set"@),
                    old(info).acceptable_path@,
                )
                &&& *final(info) == (Info {
                    final_path: final(info).final_path,
                    acceptable_path: final(info).acceptable_path,
                    ..*old(info)
                })
            },
            Err(error) => {
                &&& error == Error::InvalidArgs
                &&& lacks_value(texts(args@), "-f"@, "--final-set"@) || lacks_value(
                    texts(args@),
                    "-a"@,
                    "--acceptable-set"@,
                )
                &&& *final(info) == *old(info)
            },
        },
{
    let finals = match flag_values(args, "-f", "--final-set") {
        Ok(list) => list,
        Err(_) => {
            return Err(Error::InvalidArgs);
        },
    };
    let acceptables = match flag_values(args, "-a", "--acceptable-set") {
        Ok(list) => list,
        Err(_) => {
            return Err(Error::InvalidArgs);
        },
    };
    if finals.len() > 0 {
        info.final_path = finals[finals.len() - 1].clone();
    }
    if acceptables.len() > 0 {
        info.acceptable_path = acceptables[acceptables.len() - 1].clone();
    }
    Ok(())
}

/// The word that the arguments give as the secret: the last one given,
/// where every one given is a secret word.
fn given_word(args: &Vec<String>, final_set: &Vec<String>) -> (word: Result<Option<String>, Error>)
    ensures
        match word {
            Ok(last) => {
                &&& !lacks_value(texts(args@), "-w"@, "--word"@)
                &&& forall|i: int|
                    0 <= i < flag_values_of(texts(args@), "-w"@, "--word"@).len() ==> texts(
                        final_set@,
                    ).contains(#[trigger] flag_values_of(texts(args@), "-w"@, "--word"@)[i])
                &&& match last {
                    Some(text) => flag_values_of(texts(args@), "-w"@, "--word"@).len() > 0
                        && text@ == flag_values_of(texts(args@), "-w"@, "--word"@).last(),
                    None => flag_values_of(texts(args@), "-w"@, "--word"@).len() == 0,
                }
            },
            Err(error) => {
                &&& error == Error::InvalidArgs
                &&& lacks_value(texts(args@), "-w"@, "--word"@) || exists|i: int|
                    0 <= i < flag_values_of(texts(args@), "-w"@, "--word"@).len() && !texts(
                        final_set@,
                    ).contains(#[trigger] flag_values_of(texts(args@), "-w"@, "--word"@)[i])
            },
        },
{
    let values = match flag_values(args, "-w", "--word") {
        Ok(list) => list,
        Err(_) => {
            return Err(Error::InvalidArgs);
        },
    };
    let ghost given = flag_values_of(texts(args@), "-w"@, "--word"@);
    let mut i: usize = 0;
    while i < values.len()
        invariant
            i <= values.len(),
            texts(values@) == given,
            given == flag_values_of(texts(args@), "-w"@, "--word"@),
            forall|k: int| 0 <= k < i ==> texts(final_set@).contains(#[trigger] given[k]),
        decreases values.len() - i,
    {
        if !has_word(final_set, &values[i]) {
            assert(!texts(final_set@).contains(given[i as int]));
            return Err(Error::InvalidArgs);
        }
        i += 1;
    }
    if values.len() > 0 {
        let last = values[values.len() - 1].clone();
        Ok(Some(last))
    } else {
        Ok(None)
    }
}

/// The day that the arguments give: the last one given, where every one
/// given is a number.
fn given_day(args: &Vec<String>) -> (day: Result<Option<i32>, Error>)
    ensures
        match day {
            Ok(last) => {
                &&& !lacks_value(texts(args@), "-d"@, "--day"@)
                &&& forall|i: int|
                    0 <= i < flag_values_of(texts(args@), "-d"@, "--day"@).len() ==> parsed_i32(
                        #[trigger] flag_values_of(texts(args@), "-d"@, "--day"@)[i],
                    ) is Some
                &&& last == if flag_values_of(texts(args@), "-d"@, "--day"@).len() > 0 {
                    parsed_i32(flag_values_of(texts(args@), "-d"@, "--day"@).last())
                } else {
                    None
                }
            },
            Err(error) => {
                &&& error == Error::InvalidArgs
                &&& lacks_value(texts(args@), "-d"@, "--day"@) || exists|i: int|
                    0 <= i < flag_values_of(texts(args@), "-d"@, "--day"@).len() && parsed_i32(
                        #[trigger] flag_values_of(texts(args@), "-d"@, "--day"@)[i],
                    ) is None
            },
        },
{
    let values = match flag_values(args, "-d", "--day") {
        Ok(list) => list,
        Err(_) => {
            return Err(Error::InvalidArgs);
        },
    };
    let ghost given = flag_values_of(texts(args@), "-d"@, "--day"@);
    let mut last: Option<i32> = None;
    let mut i: usize = 0;
    while i < values.len()
        invariant
            i <= values.len(),
            texts(values@) == given,
            given == flag_values_of(texts(args@), "-d"@, "--day"@),
            forall|k: int| 0 <= k < i ==> parsed_i32(#[trigger] given[k]) is Some,
            last == if i > 0 {
                parsed_i32(given[i - 1])
            } else {
                None
            },
        decreases values.len() - i,
    {
        last = parse_i32(&values[i]);
        assert(values[i as int]@ == given[i as int]);
        if last.is_none() {
            return Err(Error::InvalidArgs);
        }
        i += 1;
    }
    Ok(last)
}

/// The seed that the arguments give: the last one given, where every one
/// given is a number.
fn given_seed(args: &Vec<String>) -> (seed: Result<Option<u64>, Error>)
    ensures
        match seed {
            Ok(last) => {
                &&& !lacks_value(texts(args@), "-s"@, "--seed"@)
                &&& forall|i: int|
                    0 <= i < flag_values_of(texts(args@), "-s"@, "--seed"@).len() ==> parsed_u64(
                        #[trigger] flag_values_of(texts(args@), "-s"@, "--seed"@)[i],
                    ) is Some
                &&& last == if flag_values_of(texts(args@), "-s"@, "--seed"@).len() > 0 {
                    parsed_u64(flag_values_of(texts(args@), "-s"@, "--seed"@).last())
                } else {
                    None
                }
            },
            Err(error) => {
                &&& error == Error::InvalidArgs
                &&& lacks_value(texts(args@), "-s"@, "--seed"@) || exists|i: int|
                    0 <= i < flag_values_of(texts(args@), "-s"@, "--seed"@).len() && parsed_u64(
                        #[trigger] flag_values_of(texts(args@), "-s"@, "--seed"@)[i],
                    ) is None
            },
        },
{
    let values = match flag_values(args, "-s", "--seed") {
        Ok(list) => list,
        Err(_) => {
            return Err(Error::InvalidArgs);
        },
    };
    let ghost given = flag_values_of(texts(args@), "-s"@, "--seed"@);
    let mut last: Option<u64> = None;
    let mut i: usize = 0;
    while i < values.len()
        invariant
            i <= values.len(),
            texts(values@) == given,
            given == flag_values_of(texts(args@), "-s"@, "--seed"@),
            forall|k: int| 0 <= k < i ==> parsed_u64(#[trigger] given[k]) is Some,
            last == if i > 0 {
                parsed_u64(given[i - 1])
            } else {
                None
            },
        decreases values.len() - i,
    {
        last = parse_u64(&values[i]);
        assert(values[i as int]@ == given[i as int]);
        if last.is_none() {
            return Err(Error::InvalidArgs);
        }
        i += 1;
    }
    Ok(last)
}

/// Takes the arguments into the session, after the configuration files
/// and the word lists have been taken in, and gives the paths of the
/// records that the arguments name, in order.
///
/// The flags are `-w`/`--word`, `-d`/`--day`, `-s`/`--seed` and
/// `-S`/`--state`, each followed by its value, and `-r`/`--random`,
/// `-D`/`--difficult`, `-t`/`--stats`, `-h`/`--hint` and
/// `-c`/`--recommend`. Where the arguments cannot be taken, nothing
/// changes.
pub fn info_analyze(word_to_guess: &mut String, info: &mut Info, args: &Vec<String>) -> (analyzed:
    Result<Vec<String>, Error>)
    ensures
        match analyzed {
            Ok(state_paths) => {
                &&& old(info).takes_args(texts(args@))
                &&& old(info).analyzed(texts(args@), *final(info))
                &&& final(word_to_guess)@ == last_or(
                    flag_values_of(texts(args@), "-w"@, "--word"@),
                    old(word_to_guess)@,
                )
                &&& texts(state_paths@) == flag_values_of(texts(args@), "-S"@, "--state"@)
            },
            Err(error) => {
                &&& error == Error::InvalidArgs
                &&& !old(info).takes_args(texts(args@))
                &&& *final(info) == *old(info)
                &&& final(word_to_guess)@ == old(word_to_guess)@
            },
        },
{
    if !contains_all(&info.acceptable_set, &info.final_set) {
        return Err(Error::InvalidArgs);
    }
    let word = match given_word(args, &info.final_set) {
        Ok(last) => last,
        Err(_) => {
            return Err(Error::InvalidArgs);
        },
    };
    let day = match given_day(args) {
        Ok(last) => last,
        Err(_) => {
            return Err(Error::InvalidArgs);
        },
    };
    let seed = match given_seed(args) {
        Ok(last) => last,
        Err(_) => {
            return Err(Error::InvalidArgs);
        },
    };
    let state_paths = match flag_values(args, "-S", "--state") {
        Ok(list) => list,
        Err(_) => {
            return Err(Error::InvalidArgs);
        },
    };
    let random = info.is_random || flag_given(args, "-r", "--random");
    let word_given = info.is_word_specified || word.is_some();
    let seeded = info.is_seeded || seed.is_some();
    let special_day = info.is_special_day || day.is_some();
    if (random && word_given) || (word_given && (seeded || special_day)) {
        return Err(Error::InvalidArgs);
    }
    let difficult = info.is_difficult || flag_given(args, "-D", "--difficult");
    let stats = info.is_stats || flag_given(args, "-t", "--stats");
    let hint = info.is_hint || flag_given(args, "-h", "--hint");
    let recommend = info.is_recommend || flag_given(args, "-c", "--recommend");
    info.set_modes(random, difficult, stats, hint, recommend);
    info.set_draw(day, seed);
    info.is_word_specified = word_given;
    match word {
        Some(text) => {
            *word_to_guess = text;
        },
        None => {},
    }
    if state_paths.len() > 0 {
        info.is_stated = true;
        info.state_path = state_paths[state_paths.len() - 1].clone();
    }
    Ok(state_paths)
}

/// What the answer to the question whether to play on says: `Y` is yes,
/// `N` and no answer at all are no, and anything else is no answer to the
/// question.
pub fn wants_another(answer: &String) -> (choice: Option<bool>)
    ensures
        choice == if answer@ == "Y"@ {
            Some(true)
        } else if answer@ == "N"@ || answer@ == ""@ {
            Some(false)
        } else {
            None
        },
{
    if text_is(answer.as_str(), "Y") {
        Some(true)
    } else if text_is(answer.as_str(), "N") || text_is(
        answer.as_str(),
        "",
    ) {
        Some(false)
    } else {
        None
    }
}

/// Starts a round: settles the secret and gives a round that waits for
/// its first guess. The secret ends up in `word_to_guess`, in lower case.
///
/// In random mode the secret is the word of the first day from the
/// session's next day on that has not appeared, and it is marked as
/// appeared; where no such day is left, that is an error. With a given
/// word the secret is that word. Otherwise the secret is `typed`, which
/// has to be one of the secret words.
pub fn start_round(word_to_guess: &mut String, info: &mut Info, typed: Option<String>) -> (started:
    Result<RoundInfo, Error>)
    requires
        old(info).wf(),
    ensures
        final(info).wf(),
        match started {
            Ok(round_info) => {
                &&& old(info).start_error(typed) is None
                &&& round_info@ == RoundView::fresh(texts(old(info).acceptable_set@))
                &&& round_info@.wf()
                &&& final(word_to_guess)@ == old(info).next_secret(old(word_to_guess)@, typed)
                &&& texts(final(info).words_appeared@) == old(info).appeared_next()
                &&& *final(info) == (Info {
                    words_appeared: final(info).words_appeared,
                    ..*old(info)
                })
                &&& old(info).source() != SecretSource::Shuffled ==> *final(info) == *old(info)
            },
            Err(error) => {
                &&& old(info).start_error(typed) == Some(error)
                &&& *final(info) == *old(info)
                &&& final(word_to_guess)@ == old(word_to_guess)@
            },
        },
{
    match info.secret_source() {
        SecretSource::Shuffled => {
            let played: i64 = info.succeeded_game as i64 + info.failed_game as i64;
            let next_day: i64 = played + info.day as i64 - 1;
            match draw_word(info, next_day) {
                Some(d) => {
                    let word = &info.final_set[info.shuffled_seq[d]];
                    *word_to_guess = to_lower(word);
                    let drawn = word.clone();
                    info.words_appeared.push(drawn);
                    assert(texts(info.words_appeared@) =~= old(info).appeared_next());
                },
                None => {
                    return Err(Error::InvalidArgs);
                },
            }
        },
        SecretSource::Specified => {
            *word_to_guess = to_lower(word_to_guess);
        },
        SecretSource::Interactive => {
            match typed {
                Some(text) => {
                    if !has_word(&info.final_set, &text) {
                        return Err(Error::InvalidWord);
                    }
                    *word_to_guess = to_lower(&text);
                },
                None => {
                    return Err(Error::InvalidWord);
                },
            }
        },
    }
    Ok(RoundInfo::new(info))
}

/// The first day from `start` on whose word has not appeared.
fn draw_word(info: &Info, start: i64) -> (picked: Option<usize>)
    requires
        info.wf(),
    ensures
        match picked {
            Some(d) => unplayed_from(
                info.shuffled_seq@,
                texts(info.final_set@),
                texts(info.words_appeared@),
                start as int,
            ) == Some(d as int) && start <= d < info.shuffled_seq.len(),
            None => unplayed_from(
                info.shuffled_seq@,
                texts(info.final_set@),
                texts(info.words_appeared@),
                start as int,
            ) is None,
        },
{
    if start < 0 || start as u64 >= info.shuffled_seq.len() as u64 {
        return None;
    }
    let mut day: usize = start as usize;
    while day < info.shuffled_seq.len()
        invariant
            info.wf(),
            start <= day,
            unplayed_from(
                info.shuffled_seq@,
                texts(info.final_set@),
                texts(info.words_appeared@),
                start as int,
            ) == unplayed_from(
                info.shuffled_seq@,
                texts(info.final_set@),
                texts(info.words_appeared@),
                day as int,
            ),
        decreases info.shuffled_seq.len() - day,
    {
        let word = &info.final_set[info.shuffled_seq[day]];
        if !has_word(&info.words_appeared, word) {
            return Some(day);
        }
        day += 1;
    }
    None
}

/// Ends a round: the secret and the guesses go into the record in
/// capitals, and the round counts as won if its last guess was the
/// secret, as lost if not.
pub fn finish_round(word_to_guess: &String, info: &mut Info, round_info: RoundInfo)
    requires
        old(info).state.total_rounds < i32::MAX,
        old(info).succeeded_game < i32::MAX,
        old(info).failed_game < i32::MAX,
    ensures
        old(info).recorded(word_to_guess@, round_info@, *final(info)),
        *final(info) == (Info {
            state: final(info).state,
            succeeded_game: final(info).succeeded_game,
            failed_game: final(info).failed_game,
            ..*old(info)
        }),
{
    let solved = round_info.is_success;
    let game = Game {
        answer: to_upper(word_to_guess),
        guesses: round_info.word_guessed_this_round,
    };
    info.state.games.push(game);
    info.state.total_rounds = info.state.total_rounds + 1;
    if solved {
        info.succeeded_game = info.succeeded_game + 1;
    } else {
        info.failed_game = info.failed_game + 1;
    }
    assert(info.state.games@.drop_last() =~= old(info).state.games@);
}

/// Plays a round over lines that are given in advance: settles the secret
/// as `start_round` does, offers the lines to the round as guesses until
/// the round has ended or the lines have run out, and puts a round that
/// has ended into the record. Gives the number of lines read and where
/// the round stands; a round that still waits for a guess is not
/// recorded.
pub fn guess_round(
    word_to_guess: &mut String,
    info: &mut Info,
    typed: Option<String>,
    lines: &Vec<String>,
) -> (played: Result<(usize, RoundState), Error>)
    requires
        old(info).wf(),
        old(info).state.total_rounds < i32::MAX,
        old(info).succeeded_game < i32::MAX,
        old(info).failed_game < i32::MAX,
    ensures
        final(info).wf(),
        match played {
            Ok((read, state)) => {
                let secret = old(info).next_secret(old(word_to_guess)@, typed);
                let fresh = RoundView::fresh(texts(old(info).acceptable_set@));
                let end = feed(rules_of(*old(info)), fresh, secret, texts(lines@), read as int);
                &&& old(info).start_error(typed) is None
                &&& final(word_to_guess)@ == secret
                &&& read <= lines.len()
                &&& state == end.state()
                &&& forall|j: int|
                    0 <= j < read ==> (#[trigger] feed(
                        rules_of(*old(info)),
                        fresh,
                        secret,
                        texts(lines@),
                        j,
                    )).state() == RoundState::AwaitingGuess
                &&& texts(final(info).words_appeared@) == old(info).appeared_next()
                &&& *final(info) == (Info {
                    words_appeared: final(info).words_appeared,
                    state: final(info).state,
                    succeeded_game: final(info).succeeded_game,
                    failed_game: final(info).failed_game,
                    ..*old(info)
                })
                &&& if state == RoundState::AwaitingGuess {
                    &&& read == lines.len()
                    &&& final(info).state == old(info).state
                    &&& final(info).succeeded_game == old(info).succeeded_game
                    &&& final(info).failed_game == old(info).failed_game
                } else {
                    old(info).recorded(secret, end, *final(info))
                }
            },
            Err(error) => {
                &&& old(info).start_error(typed) == Some(error)
                &&& *final(info) == *old(info)
                &&& final(word_to_guess)@ == old(word_to_guess)@
            },
        },
{
    let mut round_info = match start_round(word_to_guess, info, typed) {
        Ok(round_info) => round_info,
        Err(error) => {
            return Err(error);
        },
    };
    assert(rules_of(*info) == rules_of(*old(info)));
    let read = take_lines(word_to_guess, info, &mut round_info, lines);
    let state = round_info.round_state();
    match state {
        RoundState::AwaitingGuess => {},
        _ => {
            finish_round(word_to_guess, info, round_info);
        },
    }
    Ok((read, state))
}

/// `word` is the word of a day before `day`.
pub open spec fn drawn_before(
    order: Seq<usize>,
    words: Seq<Seq<char>>,
    word: Seq<char>,
    day: int,
) -> bool {
    exists|e: int| 0 <= e < day && e < order.len() && words[#[trigger] order[e] as int] == word
}

/// `word` is the word of day `day`, counted from 0.
pub open spec fn is_word_of_day(
    order: Seq<usize>,
    words: Seq<Seq<char>>,
    word: Seq<char>,
    day: int,
) -> bool {
    0 <= day < order.len() && words[order[day] as int] == word
}

/// An order that is a permutation of the places of a list names each
/// place once, and nothing else.
pub proof fn lemma_permutation(order: Seq<usize>, n: nat)
    requires
        n <= usize::MAX,
        order.to_multiset() == first_indices(n).to_multiset(),
    ensures
        order.len() == n,
        order.no_duplicates(),
        forall|e: int| 0 <= e < order.len() ==> #[trigger] order[e] < n,
{
    let plain = first_indices(n);
    order.to_multiset_ensures();
    plain.to_multiset_ensures();
    assert(plain.no_duplicates());
    plain.lemma_multiset_has_no_duplicates();
    order.lemma_multiset_has_no_duplicates_conv();
    assert forall|e: int| 0 <= e < order.len() implies #[trigger] order[e] < n by {
        assert(order.contains(order[e]));
        assert(plain.to_multiset().count(order[e]) > 0);
        assert(plain.contains(order[e]));
    }
}

/// Where the list names no word twice, the order is a permutation, and
/// every word that has appeared is the word of an earlier day, the word
/// of day `day` has not appeared: it is the one that is drawn.
pub proof fn lemma_fresh_day(
    order: Seq<usize>,
    words: Seq<Seq<char>>,
    appeared: Seq<Seq<char>>,
    day: int,
)
    requires
        words.len() <= usize::MAX,
        order.to_multiset() == first_indices(words.len()).to_multiset(),
        words.no_duplicates(),
        0 <= day < order.len(),
        forall|k: int|
            0 <= k < appeared.len() ==> drawn_before(order, words, #[trigger] appeared[k], day),
    ensures
        unplayed_from(order, words, appeared, day) == Some(day),
{
    lemma_permutation(order, words.len());
    let word = words[order[day] as int];
    if appeared.contains(word) {
        let k = choose|k: int| 0 <= k < appeared.len() && appeared[k] == word;
        assert(drawn_before(order, words, appeared[k], day));
        let e = choose|e: int|
            0 <= e < day && e < order.len() && words[#[trigger] order[e] as int] == word;
        assert(order[e] == order[day]);
    }
}

/// In a session whose list names no word twice and whose drawn words are
/// all words of earlier days, a round in random mode has the word of the
/// session's next day as its secret: with `n` rounds played and the
/// starting day `d`, the word at place `n + d - 1` of the drawing order.
pub proof fn lemma_secret_of_the_day(info: Info, word: Seq<char>, typed: Option<String>)
    requires
        info.is_random,
        info.permuted(),
        texts(info.final_set@).no_duplicates(),
        0 <= info.next_day() < info.shuffled_seq.len(),
        forall|k: int|
            0 <= k < info.words_appeared.len() ==> drawn_before(
                info.shuffled_seq@,
                texts(info.final_set@),
                #[trigger] texts(info.words_appeared@)[k],
                info.next_day(),
            ),
    ensures
        info.start_error(typed) is None,
        info.drawn_day() == Some(info.next_day()),
        info.shuffled_seq[info.next_day()] < info.final_set.len(),
        info.next_secret(word, typed) == lower_text(
            info.final_set[info.shuffled_seq[info.succeeded_game + info.failed_game + info.day
                - 1] as int]@,
        ),
{
    lemma_permutation(info.shuffled_seq@, info.final_set.len() as nat);
    lemma_fresh_day(
        info.shuffled_seq@,
        texts(info.final_set@),
        texts(info.words_appeared@),
        info.next_day(),
    );
}

/// The secrets of a session whose list names no word twice are the words
/// of its days, one after the other from the starting day on, until the
/// days run out.
pub proof fn lemma_secrets_by_day(order: Seq<usize>, words: Seq<Seq<char>>, day: int, n: nat)
    requires
        words.len() <= usize::MAX,
        order.to_multiset() == first_indices(words.len()).to_multiset(),
        words.no_duplicates(),
        day >= 1,
    ensures
        secrets_of(order, words, day, n).len() <= n,
        secrets_of(order, words, day, n).len() == n || secrets_of(order, words, day, n).len()
            + day - 1 >= order.len(),
        forall|k: int|
            0 <= k < secrets_of(order, words, day, n).len() ==> is_word_of_day(
                order,
                words,
                #[trigger] secrets_of(order, words, day, n)[k],
                k + day - 1,
            ),
    decreases n,
{
    let secrets = secrets_of(order, words, day, n);
    if n > 0 {
        lemma_secrets_by_day(order, words, day, (n - 1) as nat);
        let earlier = secrets_of(order, words, day, (n - 1) as nat);
        let next = n - 1 + day - 1;
        if earlier.len() == n - 1 && next < order.len() {
            assert forall|k: int| 0 <= k < earlier.len() implies drawn_before(
                order,
                words,
                #[trigger] earlier[k],
                next,
            ) by {
                assert(is_word_of_day(order, words, earlier[k], k + day - 1));
                assert(words[order[k + day - 1] as int] == earlier[k]);
            }
            lemma_fresh_day(order, words, earlier, next);
            assert(secrets == earlier.push(words[order[next] as int]));
        } else {
            assert(secrets == earlier);
        }
        assert forall|k: int| 0 <= k < secrets.len() implies is_word_of_day(
            order,
            words,
            #[trigger] secrets[k],
            k + day - 1,
        ) by {
            if k < earlier.len() {
                assert(secrets[k] == earlier[k]);
                assert(is_word_of_day(order, words, earlier[k], k + day - 1));
            }
        }
    }
}

/// Two sessions with the same secret words, the same seed and the same
/// starting day draw the same secrets, round after round.
pub proof fn lemma_seed_determines_secrets(a: Info, b: Info, rounds: nat)
    requires
        a.seeded(),
        b.seeded(),
        a.seed == b.seed,
        a.day == b.day,
        texts(a.final_set@) == texts(b.final_set@),
    ensures
        secrets_of(a.shuffled_seq@, texts(a.final_set@), a.day as int, rounds) == secrets_of(
            b.shuffled_seq@,
            texts(b.final_set@),
            b.day as int,
            rounds,
        ),
{
    assert(texts(a.final_set@).len() == a.final_set@.len());
    assert(texts(b.final_set@).len() == b.final_set@.len());
}

/// In a session that has drawn the secrets of its first rounds and has
/// played them, the next round draws the next of `secrets_of`.
pub proof fn lemma_next_secret(info: Info)
    requires
        info.succeeded_game + info.failed_game >= 0,
        texts(info.words_appeared@) == secrets_of(
            info.shuffled_seq@,
            texts(info.final_set@),
            info.day as int,
            (info.succeeded_game + info.failed_game) as nat,
        ),
        texts(info.words_appeared@).len() == info.succeeded_game + info.failed_game,
    ensures
        secrets_of(
            info.shuffled_seq@,
            texts(info.final_set@),
            info.day as int,
            (info.succeeded_game + info.failed_game + 1) as nat,
        ) == match unplayed_from(
            info.shuffled_seq@,
            texts(info.final_set@),
            texts(info.words_appeared@),
            info.next_day(),
        ) {
            Some(d) => texts(info.words_appeared@).push(
                texts(info.final_set@)[info.shuffled_seq[d] as int],
            ),
            None => texts(info.words_appeared@),
        },
{
}

} // verus!
