//! The four feedback values a letter can carry, and their renderings.

use vstd::prelude::*;
use vstd::string::StringExecFns;

verus! {

pub const GREY: u32 = 0xd1d1d1;

pub const RED: u32 = 0x787c7f;

pub const GREEN: u32 = 0x6ca965;

pub const YELLOW: u32 = 0xc8b653;

/// Feedback for one letter: `G` is the right letter in the right place,
/// `Y` the right letter in the wrong place, `R` a letter that is not in
/// the word (or not as often), `X` a letter nothing is known about yet.
#[derive(Debug, Clone, Copy, PartialEq, Eq, Structural)]
pub enum Color {
    R,
    Y,
    G,
    X,
}

impl Color {
    /// How much a colour tells: `G` above `Y` above `R` above `X`.
    pub open spec fn rank(self) -> nat {
        match self {
            Color::G => 4,
            Color::Y => 3,
            Color::R => 2,
            Color::X => 1,
        }
    }

    /// The single character that stands for a colour in text.
    pub open spec fn symbol(self) -> char {
        match self {
            Color::R => 'R',
            Color::Y => 'Y',
            Color::G => 'G',
            Color::X => 'X',
        }
    }

    /// The display colour of a tile, as `0xRRGGBB`.
    pub open spec fn hex(self) -> u32 {
        match self {
            Color::R => RED,
            Color::Y => YELLOW,
            Color::G => GREEN,
            Color::X => GREY,
        }
    }

    /// The rank of the colour.
    pub fn grade(&self) -> (g: u8)
        ensures
            g == self.rank(),
    {
        match self {
            Color::G => 4,
            Color::Y => 3,
            Color::R => 2,
            Color::X => 1,
        }
    }

    /// The character that stands for the colour.
    pub fn to_char(&self) -> (c: char)
        ensures
            c == self.symbol(),
    {
        match self {
            Color::R => 'R',
            Color::Y => 'Y',
            Color::G => 'G',
            Color::X => 'X',
        }
    }

    /// The colour as a text of one character.
    pub fn to_string(&self) -> (s: String)
        ensures
            s@ == seq![self.symbol()],
    {
        proof {
            reveal_strlit("R");
            reveal_strlit("Y");
            reveal_strlit("G");
            reveal_strlit("X");
        }
        match self {
            Color::R => String::from_str("R"),
            Color::Y => String::from_str("Y"),
            Color::G => String::from_str("G"),
            Color::X => String::from_str("X"),
        }
    }

    /// The same colour again.
    pub fn clone(&self) -> (c: Color)
        ensures
            c == *self,
    {
        match self {
            Color::R => Color::R,
            Color::Y => Color::Y,
            Color::G => Color::G,
            Color::X => Color::X,
        }
    }

    /// The display colour of a tile of this colour.
    pub fn to_hex(&self) -> (h: u32)
        ensures
            h == self.hex(),
    {
        match self {
            Color::R => RED,
            Color::Y => YELLOW,
            Color::G => GREEN,
            Color::X => GREY,
        }
    }
}

/// The symbols of a row of colours, in order.
pub open spec fn symbols(colors: Seq<Color>) -> Seq<char> {
    Seq::new(colors.len(), |i: int| colors[i].symbol())
}

/// Writes a row of colours as text, one symbol for each colour.
pub fn color_vec_to_string(vec: &Vec<Color>) -> (text: String)
    ensures
        text@ == symbols(vec@),
{
    let mut text = String::new();
    let mut i: usize = 0;
    while i < vec.len()
        invariant
            i <= vec.len(),
            text@ == symbols(vec@.take(i as int)),
        decreases vec.len() - i,
    {
        let one = vec[i].to_string();
        text.append(one.as_str());
        i += 1;
    }
    text
}

/// Whether two rows of colours are the same.
pub fn same_colors(a: &Vec<Color>, b: &Vec<Color>) -> (same: bool)
    ensures
        same == (a@ == b@),
{
    if a.len() != b.len() {
        return false;
    }
    let mut i: usize = 0;
    while i < a.len()
        invariant
            i <= a.len(),
            a.len() == b.len(),
            forall|j: int| 0 <= j < i ==> a[j] == b[j],
        decreases a.len() - i,
    {
        if a[i] != b[i] {
            return false;
        }
        i += 1;
    }
    assert(a@ =~= b@);
    true
}

/// Rows of colours with the same symbols are the same row.
pub proof fn lemma_symbols_injective(a: Seq<Color>, b: Seq<Color>)
    requires
        symbols(a) == symbols(b),
    ensures
        a == b,
{
    assert(a.len() == symbols(a).len());
    assert(b.len() == symbols(b).len());
    assert forall|i: int| 0 <= i < a.len() implies a[i] == b[i] by {
        assert(a[i].symbol() == symbols(a)[i]);
        assert(b[i].symbol() == symbols(b)[i]);
    }
}

} // verus!
