//! Reading the settings of a configuration file, which is a JSON object
//! with one member for each setting.

use vstd::prelude::*;
use serde_json::Value;
use crate::error::Error;
use crate::session::Config;

verus! {

/// What a configuration holds under one name.
pub enum Field<T> {
    /// The name does not occur.
    Missing,
    /// The name occurs with a value of another kind than the setting has.
    Misplaced,
    /// The name occurs with this value.
    Given(T),
}

/// Whether a text is JSON.
pub uninterp spec fn json_valid(text: Seq<char>) -> bool;

/// What the JSON text `text` holds under `name` as a truth value: `None`
/// if it has no member of that name, `Some(None)` if the member is no
/// truth value.
pub uninterp spec fn json_bool(text: Seq<char>, name: Seq<char>) -> Option<Option<bool>>;

/// What the JSON text `text` holds under `name` as a signed number:
/// `None` if it has no member of that name, `Some(None)` if the member is
/// no integer that `i64` holds.
pub uninterp spec fn json_i64(text: Seq<char>, name: Seq<char>) -> Option<Option<i64>>;

/// What the JSON text `text` holds under `name` as an unsigned number:
/// `None` if it has no member of that name, `Some(None)` if the member is
/// no integer that `u64` holds.
pub uninterp spec fn json_u64(text: Seq<char>, name: Seq<char>) -> Option<Option<u64>>;

/// What the JSON text `text` holds under `name` as a text: `None` if it
/// has no member of that name, `Some(None)` if the member is no string.
pub uninterp spec fn json_str(text: Seq<char>, name: Seq<char>) -> Option<Option<Seq<char>>>;

/// `serde_json::from_str`, read as a `serde_json::Value`: whether the
/// text denotes a JSON value.
#[verifier::external_body]
fn is_json(text: &str) -> (valid: bool)
    ensures
        valid == json_valid(text@),
{
    serde_json::from_str::<Value>(text).is_ok()
}

/// `serde_json::Value::as_bool` of the member that `Value::get` finds
/// under `name` in the value that `serde_json::from_str` reads from the
/// text. A text that is no JSON, and a value that is no object, have no
/// member.
#[verifier::external_body]
fn member_bool(text: &str, name: &str) -> (member: Option<Option<bool>>)
    ensures
        member == json_bool(text@, name@),
{
    let value: Option<Value> = serde_json::from_str(text).ok();
    value.as_ref().and_then(|value| value.get(name)).map(|member| member.as_bool())
}

/// `serde_json::Value::as_i64` of the member that `Value::get` finds
/// under `name` in the value that `serde_json::from_str` reads from the
/// text.
#[verifier::external_body]
fn member_i64(text: &str, name: &str) -> (member: Option<Option<i64>>)
    ensures
        member == json_i64(text@, name@),
{
    let value: Option<Value> = serde_json::from_str(text).ok();
    value.as_ref().and_then(|value| value.get(name)).map(|member| member.as_i64())
}

/// `serde_json::Value::as_u64` of the member that `Value::get` finds
/// under `name` in the value that `serde_json::from_str` reads from the
/// text.
#[verifier::external_body]
fn member_u64(text: &str, name: &str) -> (member: Option<Option<u64>>)
    ensures
        member == json_u64(text@, name@),
{
    let value: Option<Value> = serde_json::from_str(text).ok();
    value.as_ref().and_then(|value| value.get(name)).map(|member| member.as_u64())
}

/// `serde_json::Value::as_str` of the member that `Value::get` finds
/// under `name` in the value that `serde_json::from_str` reads from the
/// text, as a `String` of its own.
#[verifier::external_body]
fn member_str(text: &str, name: &str) -> (member: Option<Option<String>>)
    ensures
        match member {
            None => json_str(text@, name@) is None,
            Some(None) => json_str(text@, name@) == Some(None::<Seq<char>>),
            Some(Some(found)) => json_str(text@, name@) == Some(Some(found@)),
        },
{
    let value: Option<Value> = serde_json::from_str(text).ok();
    value.as_ref().and_then(|value| value.get(name)).map(
        |member| member.as_str().map(|found| found.to_string()),
    )
}

/// A looked-up member as a field of a configuration.
pub open spec fn field_of<T>(member: Option<Option<T>>) -> Field<T> {
    match member {
        None => Field::Missing,
        Some(None) => Field::Misplaced,
        Some(Some(value)) => Field::Given(value),
    }
}

/// A looked-up member as a field of a configuration.
pub fn to_field<T>(member: Option<Option<T>>) -> (field: Field<T>)
    ensures
        field == field_of(member),
{
    match member {
        None => Field::Missing,
        Some(None) => Field::Misplaced,
        Some(Some(value)) => Field::Given(value),
    }
}

impl<T> Field<T> {
    /// The setting as a configuration keeps it.
    pub open spec fn setting(self) -> Option<T> {
        match self {
            Field::Given(value) => Some(value),
            _ => None,
        }
    }

    /// The value, where one is given.
    pub fn into_setting(self) -> (setting: Option<T>)
        ensures
            setting == self.setting(),
    {
        match self {
            Field::Given(value) => Some(value),
            _ => None,
        }
    }

    /// Whether the name occurs with a value of the wrong kind.
    pub fn is_misplaced(&self) -> (misplaced: bool)
        ensures
            misplaced == (self is Misplaced),
    {
        match self {
            Field::Misplaced => true,
            _ => false,
        }
    }
}

/// The text of a setting, where one is given.
pub open spec fn setting_text(setting: Option<String>) -> Option<Seq<char>> {
    match setting {
        Some(text) => Some(text@),
        None => None,
    }
}

/// The text of a looked-up member that is a string.
pub open spec fn given_text(member: Option<Option<Seq<char>>>) -> Option<Seq<char>> {
    match member {
        Some(Some(text)) => Some(text),
        _ => None,
    }
}

/// One of the settings of a JSON text has a value of the wrong kind.
pub open spec fn json_misplaced(text: Seq<char>) -> bool {
    ||| json_bool(text, "random"@) == Some(None::<bool>)
    ||| json_bool(text, "difficult"@) == Some(None::<bool>)
    ||| json_bool(text, "stats"@) == Some(None::<bool>)
    ||| json_i64(text, "day"@) == Some(None::<i64>)
    ||| json_u64(text, "seed"@) == Some(None::<u64>)
    ||| json_str(text, "final_set"@) == Some(None::<Seq<char>>)
    ||| json_str(text, "acceptable_set"@) == Some(None::<Seq<char>>)
    ||| json_str(text, "state"@) == Some(None::<Seq<char>>)
    ||| json_str(text, "word"@) == Some(None::<Seq<char>>)
}

/// `config` holds the settings that a JSON text gives.
pub open spec fn holds_settings(config: Config, text: Seq<char>) -> bool {
    &&& config.random == field_of(json_bool(text, "random"@)).setting()
    &&& config.difficult == field_of(json_bool(text, "difficult"@)).setting()
    &&& config.stats == field_of(json_bool(text, "stats"@)).setting()
    &&& config.day == field_of(json_i64(text, "day"@)).setting()
    &&& config.seed == field_of(json_u64(text, "seed"@)).setting()
    &&& setting_text(config.final_set) == given_text(json_str(text, "final_set"@))
    &&& setting_text(config.acceptable_set) == given_text(json_str(text, "acceptable_set"@))
    &&& setting_text(config.state) == given_text(json_str(text, "state"@))
    &&& setting_text(config.word) == given_text(json_str(text, "word"@))
}

/// The configuration whose members were looked up: an error if one of
/// them is of the wrong kind.
pub fn config_of(
    random: Field<bool>,
    difficult: Field<bool>,
    stats: Field<bool>,
    day: Field<i64>,
    seed: Field<u64>,
    final_set: Field<String>,
    acceptable_set: Field<String>,
    state: Field<String>,
    word: Field<String>,
) -> (config: Result<Config, Error>)
    ensures
        match config {
            Ok(config) => {
                &&& !(random is Misplaced || difficult is Misplaced || stats is Misplaced
                    || day is Misplaced || seed is Misplaced || final_set is Misplaced
                    || acceptable_set is Misplaced || state is Misplaced || word is Misplaced)
                &&& config == (Config {
                    random: random.setting(),
                    difficult: difficult.setting(),
                    stats: stats.setting(),
                    day: day.setting(),
                    seed: seed.setting(),
                    final_set: final_set.setting(),
                    acceptable_set: acceptable_set.setting(),
                    state: state.setting(),
                    word: word.setting(),
                })
            },
            Err(error) => {
                &&& error == Error::InvalidArgs
                &&& random is Misplaced || difficult is Misplaced || stats is Misplaced
                    || day is Misplaced || seed is Misplaced || final_set is Misplaced
                    || acceptable_set is Misplaced || state is Misplaced || word is Misplaced
            },
        },
{
    if random.is_misplaced() || difficult.is_misplaced() || stats.is_misplaced()
        || day.is_misplaced() || seed.is_misplaced() || final_set.is_misplaced()
        || acceptable_set.is_misplaced() || state.is_misplaced() || word.is_misplaced() {
        return Err(Error::InvalidArgs);
    }
    Ok(
        Config {
            random: random.into_setting(),
            difficult: difficult.into_setting(),
            stats: stats.into_setting(),
            day: day.into_setting(),
            seed: seed.into_setting(),
            final_set: final_set.into_setting(),
            acceptable_set: acceptable_set.into_setting(),
            state: state.into_setting(),
            word: word.into_setting(),
        },
    )
}

/// Reads the text of a configuration file: a JSON value whose members
/// `random`, `difficult` and `stats` are truth values, `day` and `seed`
/// numbers, and `final_set`, `acceptable_set`, `state` and `word` texts.
/// A text that is no JSON, or a member of the wrong kind, is an error.
pub fn read_config(text: &String) -> (config: Result<Config, Error>)
    ensures
        match config {
            Ok(config) => json_valid(text@) && !json_misplaced(text@) && holds_settings(
                config,
                text@,
            ),
            Err(error) => error == Error::InvalidArgs && (!json_valid(text@) || json_misplaced(
                text@,
            )),
        },
{
    let source = text.as_str();
    if !is_json(source) {
        return Err(Error::InvalidArgs);
    }
    config_of(
        to_field(member_bool(source, "random")),
        to_field(member_bool(source, "difficult")),
        to_field(member_bool(source, "stats")),
        to_field(member_i64(source, "day")),
        to_field(member_u64(source, "seed")),
        to_field(member_str(source, "final_set")),
        to_field(member_str(source, "acceptable_set")),
        to_field(member_str(source, "state")),
        to_field(member_str(source, "word")),
    )
}

} // verus!
