//! The plain data of the effect engine: colours as text, easing curves,
//! blend modes, generator kinds, where an effect came from, the built-in
//! effects, the scrolling-text font, and the file-name rules for imports.
//!
//! Rendering works in floating point and lives with the front end; what is
//! here is exact.

pub mod font;
pub mod import;
pub mod paths;

use vstd::prelude::*;

use crate::color::{hex_body, hex_digit, hex_pair, spec_from_hex, strip_hashes, Rgb};
use crate::text::{is_white_space, trim_end_index, trim_start_index, trimmed};
use crate::device::hex_char;
use crate::text::string_from_chars;

verus! {

/// A colour stored as `#rrggbb`, so animation files stay readable and
/// hand-editable.
#[derive(Debug)]
pub struct HexColor(pub String);

/// Two lower-case hexadecimal digits for a byte.
pub open spec fn hex2(x: u8) -> Seq<char> {
    seq![hex_char((x / 16) as int), hex_char((x % 16) as int)]
}

/// `#rrggbb` for a colour, lower-case.
pub open spec fn hex_text(c: Rgb) -> Seq<char> {
    seq!['#'] + hex2(c.r) + hex2(c.g) + hex2(c.b)
}

fn hex_digit_char(d: u8) -> (c: char)
    requires
        d < 16,
    ensures
        c == hex_char(d as int),
{
    if d < 10 {
        (d + 48) as char
    } else {
        (d + 87) as char
    }
}

impl HexColor {
    /// The colour written as `#rrggbb`.
    pub fn from_rgb(c: Rgb) -> (h: HexColor)
        ensures
            h.0@ == hex_text(c),
    {
        let mut v: Vec<char> = Vec::new();
        v.push('#');
        v.push(hex_digit_char(c.r / 16));
        v.push(hex_digit_char(c.r % 16));
        v.push(hex_digit_char(c.g / 16));
        v.push(hex_digit_char(c.g % 16));
        v.push(hex_digit_char(c.b / 16));
        v.push(hex_digit_char(c.b % 16));
        assert(v@ =~= hex_text(c));
        HexColor(string_from_chars(&v))
    }

    /// The colour the text spells, or black when it spells none.
    pub fn to_rgb(&self) -> (c: Rgb)
        ensures
            c == (match spec_from_hex(self.0@) {
                Some(x) => x,
                None => Rgb { r: 0, g: 0, b: 0 },
            }),
    {
        match Rgb::from_hex(self.0.as_str()) {
            Some(c) => c,
            None => Rgb { r: 0, g: 0, b: 0 },
        }
    }
}

proof fn lemma_hex_char_digit(d: int)
    requires
        0 <= d < 16,
    ensures
        hex_digit(hex_char(d)) == Some(d as u8),
        hex_char(d) != '#',
        !is_white_space(hex_char(d)),
{
}

proof fn lemma_byte_digits(x: u8)
    ensures
        hex_pair(hex2(x)[0], hex2(x)[1]) == Some(x),
{
    lemma_hex_char_digit((x / 16) as int);
    lemma_hex_char_digit((x % 16) as int);
    assert(16 * ((x / 16) as u8) + ((x % 16) as u8) == x);
}

/// Writing a colour as `#rrggbb` and reading it back gives the colour: the
/// text an animation file stores is never misread.
pub proof fn lemma_hex_text_round_trip(c: Rgb)
    ensures
        spec_from_hex(hex_text(c)) == Some(c),
{
    let s = hex_text(c);
    let t = hex2(c.r) + hex2(c.g) + hex2(c.b);
    lemma_hex_char_digit((c.r / 16) as int);
    lemma_hex_char_digit((c.r % 16) as int);
    lemma_hex_char_digit((c.g / 16) as int);
    lemma_hex_char_digit((c.g % 16) as int);
    lemma_hex_char_digit((c.b / 16) as int);
    lemma_hex_char_digit((c.b % 16) as int);
    assert(s.len() == 7);
    assert(!is_white_space(s[0]));
    assert(s.drop_first() =~= t);
    assert(trim_start_index(s) == 0);
    assert(trim_end_index(s) == 7);
    assert(trimmed(s) =~= s);
    assert(strip_hashes(t) == t);
    assert(strip_hashes(s) == strip_hashes(s.drop_first()));
    assert(hex_body(s) == t);
    lemma_byte_digits(c.r);
    lemma_byte_digits(c.g);
    lemma_byte_digits(c.b);
    assert(t[0] == hex2(c.r)[0] && t[1] == hex2(c.r)[1]);
    assert(t[2] == hex2(c.g)[0] && t[3] == hex2(c.g)[1]);
    assert(t[4] == hex2(c.b)[0] && t[5] == hex2(c.b)[1]);
}

/// The same as `HexColor::from_rgb`, whose contract says what the text is.
/// Nothing is claimed of `from` itself: a `String` is known only by its text,
/// and nothing lets two strings with the same text be proved the same value.
impl From<Rgb> for HexColor {
    fn from(c: Rgb) -> (h: HexColor) {
        HexColor::from_rgb(c)
    }
}

impl vstd::std_specs::convert::FromSpecImpl<Rgb> for HexColor {
    open spec fn obeys_from_spec() -> bool {
        false
    }

    open spec fn from_spec(v: Rgb) -> HexColor {
        vstd::pervasive::arbitrary()
    }
}

/// How the transition out of a keyframe is shaped over time.
#[derive(Clone, Copy, Debug, PartialEq, Eq, Structural)]
pub enum Ease {
    Linear,
    EaseIn,
    EaseOut,
    EaseInOut,
    /// Hold this keyframe until the next, then cut.
    Hold,
}

impl Default for Ease {
    fn default() -> (e: Self)
        ensures
            e == Ease::Linear,
    {
        Ease::Linear
    }
}

pub open spec fn ease_label(e: Ease) -> Seq<char> {
    match e {
        Ease::Linear => "Linear"@,
        Ease::EaseIn => "Ease in"@,
        Ease::EaseOut => "Ease out"@,
        Ease::EaseInOut => "Ease in-out"@,
        Ease::Hold => "Hold (cut)"@,
    }
}

impl Ease {
    /// Short label for the editor's dropdown.
    pub fn label(self) -> (s: &'static str)
        ensures
            s@ == ease_label(self),
    {
        match self {
            Ease::Linear => "Linear",
            Ease::EaseIn => "Ease in",
            Ease::EaseOut => "Ease out",
            Ease::EaseInOut => "Ease in-out",
            Ease::Hold => "Hold (cut)",
        }
    }
}

/// How a layer composites onto the layers below it.
#[derive(Clone, Copy, Debug, PartialEq, Eq, Structural)]
pub enum Blend {
    /// Source over destination, weighted by opacity.
    Normal,
    /// Add the channels, saturating. The natural choice for stacking lights.
    Add,
    /// Inverse-multiply: lightens without clipping as hard as Add.
    Screen,
    /// Multiply channels: darkens, useful as a mask.
    Multiply,
    /// Keep the brighter channel of the two.
    Max,
}

impl Default for Blend {
    fn default() -> (b: Self)
        ensures
            b == Blend::Add,
    {
        Blend::Add
    }
}

/// Which motion a generator bakes.
#[derive(Clone, Copy, Debug, PartialEq, Eq, Structural)]
pub enum Generator {
    /// A bar of colour A sliding across a colour-B background.
    Sweep,
    /// A sinusoidal brightness wash of colour A over colour B.
    Wave,
    /// A colour A to B gradient scrolling across the board.
    GradientScroll,
    /// Concentric rings pulsing out from the board centre.
    Ripple,
    /// A full-spectrum hue that travels across the board.
    Rainbow,
}

pub open spec fn generator_label(g: Generator) -> Seq<char> {
    match g {
        Generator::Sweep => "Sweep"@,
        Generator::Wave => "Wave"@,
        Generator::GradientScroll => "Gradient scroll"@,
        Generator::Ripple => "Ripple"@,
        Generator::Rainbow => "Rainbow"@,
    }
}

impl Generator {
    pub fn label(self) -> (s: &'static str)
        ensures
            s@ == generator_label(self),
    {
        match self {
            Generator::Sweep => "Sweep",
            Generator::Wave => "Wave",
            Generator::GradientScroll => "Gradient scroll",
            Generator::Ripple => "Ripple",
            Generator::Rainbow => "Rainbow",
        }
    }

    /// Does this generator use colour A and colour B? Rainbow ignores them.
    pub fn uses_colors(self) -> (b: bool)
        ensures
            b == (self != Generator::Rainbow),
    {
        !matches!(self, Generator::Rainbow)
    }

    /// Does a direction apply? Ripple is radial, so it ignores it.
    pub fn uses_direction(self) -> (b: bool)
        ensures
            b == (self != Generator::Ripple),
    {
        !matches!(self, Generator::Ripple)
    }
}

/// The axis and sense a linear generator travels along.
#[derive(Clone, Copy, Debug, PartialEq, Eq, Structural)]
pub enum Direction {
    LeftToRight,
    RightToLeft,
    TopToBottom,
    BottomToTop,
}

pub open spec fn direction_label(d: Direction) -> Seq<char> {
    match d {
        Direction::LeftToRight => "\u{2192} Left to right"@,
        Direction::RightToLeft => "\u{2190} Right to left"@,
        Direction::TopToBottom => "\u{2193} Top to bottom"@,
        Direction::BottomToTop => "\u{2191} Bottom to top"@,
    }
}

impl Direction {
    pub fn label(self) -> (s: &'static str)
        ensures
            s@ == direction_label(self),
    {
        match self {
            Direction::LeftToRight => "\u{2192} Left to right",
            Direction::RightToLeft => "\u{2190} Right to left",
            Direction::TopToBottom => "\u{2193} Top to bottom",
            Direction::BottomToTop => "\u{2191} Bottom to top",
        }
    }
}

/// Where an effect came from, for the UI to label it. Files are named by
/// their path.
#[derive(Debug)]
pub enum Source {
    Builtin,
    Script(String),
    /// A keyframe animation: imported artwork, or made in the timeline editor.
    Animation(String),
    /// A stack of layers made in the composition editor.
    Composition(String),
}

/// A single colour across the whole board.
#[derive(Clone, Copy, Debug, Default)]
pub struct Solid;

/// A bright bar sweeping left to right over a dark background.
#[derive(Clone, Copy, Debug, Default)]
pub struct Sweep;

/// A word sweeping across the board, one column per key.
#[derive(Clone, Copy, Debug, Default)]
pub struct Text;

/// A rainbow travelling across the keys.
#[derive(Clone, Copy, Debug, Default)]
pub struct Wave;

/// The device an animation file was authored for, when the file does not
/// say.
pub fn default_device() -> (s: String)
    ensures
        s@ == "aula-f75"@,
{
    let mut v: Vec<char> = Vec::new();
    crate::text::push_str(&mut v, "aula-f75");
    string_from_chars(&v)
}

/// Loops, interpolation and enabled layers are on when a file does not say.
pub fn yes() -> (b: bool)
    ensures
        b,
{
    true
}

} // verus!
