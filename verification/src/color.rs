//! Colour type and helpers.

use vstd::prelude::*;

use crate::text::{chars_of, trim_chars, trimmed, ascii_lower, to_ascii_lower};

verus! {

/// An 8-bit-per-channel colour.
#[derive(Clone, Copy, Debug, PartialEq, Eq, Structural)]
pub struct Rgb {
    pub r: u8,
    pub g: u8,
    pub b: u8,
}

/// Saturating sum of two channels.
pub open spec fn sat_add(a: u8, b: u8) -> u8 {
    if a + b > 255 {
        255
    } else {
        (a + b) as u8
    }
}

impl Rgb {
    pub fn new(r: u8, g: u8, b: u8) -> (c: Self)
        ensures
            c == (Rgb { r, g, b }),
    {
        Rgb { r, g, b }
    }

    /// Additive blend, saturating at 255. Used where effects overlap.
    ///
    /// Named `blend_add` rather than `add` so it is not mistaken for
    /// `std::ops::Add`, which would imply wrapping arithmetic.
    pub fn blend_add(self, o: Rgb) -> (c: Self)
        ensures
            c == self.spec_blend_add(o),
    {
        Rgb { r: self.r.saturating_add(o.r), g: self.g.saturating_add(o.g), b: self.b.saturating_add(o.b) }
    }

    pub open spec fn spec_blend_add(self, o: Rgb) -> Rgb {
        Rgb { r: sat_add(self.r, o.r), g: sat_add(self.g, o.g), b: sat_add(self.b, o.b) }
    }

    pub open spec fn spec_is_black(self) -> bool {
        self.r == 0 && self.g == 0 && self.b == 0
    }

    pub fn is_black(self) -> (b: bool)
        ensures
            b == self.spec_is_black(),
    {
        self.r == 0 && self.g == 0 && self.b == 0
    }
}

/// Overlapping effects can be added in any order and grouping: the
/// saturating sum is commutative and associative, black adds nothing, and the
/// sum is never dimmer than either colour in any channel.
pub proof fn lemma_blend_add_laws(a: Rgb, b: Rgb, c: Rgb)
    ensures
        a.spec_blend_add(b) == b.spec_blend_add(a),
        a.spec_blend_add(b).spec_blend_add(c) == a.spec_blend_add(b.spec_blend_add(c)),
        a.spec_blend_add(Rgb { r: 0, g: 0, b: 0 }) == a,
        a.spec_blend_add(b).r >= a.r && a.spec_blend_add(b).g >= a.g && a.spec_blend_add(b).b >= a.b,
{
}

impl Default for Rgb {
    fn default() -> (c: Self)
        ensures
            c == (Rgb { r: 0, g: 0, b: 0 }),
    {
        Rgb { r: 0, g: 0, b: 0 }
    }
}


/// `s` with every leading `#` removed, as `trim_start_matches('#')` does.
pub open spec fn strip_hashes(s: Seq<char>) -> Seq<char>
    decreases s.len(),
{
    if s.len() > 0 && s[0] == '#' {
        strip_hashes(s.drop_first())
    } else {
        s
    }
}

/// The value of one hexadecimal digit, either case.
pub open spec fn hex_digit(c: char) -> Option<u8> {
    if '0' <= c <= '9' {
        Some((c as u32 - '0' as u32) as u8)
    } else if 'a' <= c <= 'f' {
        Some((c as u32 - 'a' as u32 + 10) as u8)
    } else if 'A' <= c <= 'F' {
        Some((c as u32 - 'A' as u32 + 10) as u8)
    } else {
        None
    }
}

/// The byte two hexadecimal digits spell, the first the high nibble.
pub open spec fn hex_pair(c0: char, c1: char) -> Option<u8> {
    match (hex_digit(c0), hex_digit(c1)) {
        (Some(a), Some(b)) => Some((16 * a + b) as u8),
        _ => None,
    }
}

/// The text `from_hex` actually parses: trimmed, then leading `#`s dropped.
pub open spec fn hex_body(s: Seq<char>) -> Seq<char> {
    strip_hashes(trimmed(s))
}

/// What `Rgb::from_hex` returns: a colour when the body is exactly six
/// hexadecimal digits, read as three pairs; `None` for anything else.
pub open spec fn spec_from_hex(s: Seq<char>) -> Option<Rgb> {
    let t = hex_body(s);
    if t.len() != 6 {
        None
    } else {
        match (hex_pair(t[0], t[1]), hex_pair(t[2], t[3]), hex_pair(t[4], t[5])) {
            (Some(r), Some(g), Some(b)) => Some(Rgb { r, g, b }),
            _ => None,
        }
    }
}

fn hex_digit_of(c: char) -> (v: Option<u8>)
    ensures
        v == hex_digit(c),
{
    if '0' <= c && c <= '9' {
        Some(((c as u32) - ('0' as u32)) as u8)
    } else if 'a' <= c && c <= 'f' {
        Some(((c as u32) - ('a' as u32) + 10) as u8)
    } else if 'A' <= c && c <= 'F' {
        Some(((c as u32) - ('A' as u32) + 10) as u8)
    } else {
        None
    }
}

fn hex_pair_of(c0: char, c1: char) -> (v: Option<u8>)
    ensures
        v == hex_pair(c0, c1),
{
    match (hex_digit_of(c0), hex_digit_of(c1)) {
        (Some(a), Some(b)) => Some(16 * a + b),
        _ => None,
    }
}

impl Rgb {
    /// Parse `#rrggbb` or `rrggbb`.
    ///
    /// Surrounding white space and any number of leading `#` are ignored;
    /// what remains must be exactly six hexadecimal digits, either case.
    /// Anything else is `None`.
    pub fn from_hex(s: &str) -> (c: Option<Self>)
        ensures
            c == spec_from_hex(s@),
    {
        let all = chars_of(s);
        let t = trim_chars(&all);
        let n = t.len();
        let mut a: usize = 0;
        assert(t@.skip(0) =~= t@);
        while a < n && t[a] == '#'
            invariant
                a <= n,
                n == t.len(),
                strip_hashes(t@) == strip_hashes(t@.skip(a as int)),
            decreases n - a,
        {
            proof {
                assert(t@.skip(a as int).drop_first() =~= t@.skip(a + 1));
            }
            a = a + 1;
        }
        let ghost body = t@.skip(a as int);
        proof {
            assert(body == strip_hashes(body)) by {
                if body.len() > 0 {
                    assert(body[0] == t@[a as int]);
                }
            }
            assert(body == hex_body(s@));
        }
        if n - a != 6 {
            return None;
        }
        assert(body[0] == t@[a as int] && body[1] == t@[a + 1] && body[2] == t@[a + 2]);
        assert(body[3] == t@[a + 3] && body[4] == t@[a + 4] && body[5] == t@[a + 5]);
        match (hex_pair_of(t[a], t[a + 1]), hex_pair_of(t[a + 2], t[a + 3]), hex_pair_of(t[a + 4], t[a + 5])) {
            (Some(r), Some(g), Some(b)) => Some(Rgb { r, g, b }),
            _ => None,
        }
    }
}

/// Physical order of the three colour bytes for a device.
///
/// The F75 is plain RGB — proven by decoding the vendor driver's own payload,
/// which yields exact primaries and secondaries at stride 3. Other boards in
/// this family may differ, so it stays configurable.
#[derive(Clone, Copy, Debug, PartialEq, Eq, Structural)]
pub enum ChannelOrder {
    Rgb,
    Grb,
    Brg,
    Rbg,
    Gbr,
    Bgr,
}

impl Default for ChannelOrder {
    fn default() -> (o: Self)
        ensures
            o == ChannelOrder::Rgb,
    {
        ChannelOrder::Rgb
    }
}

impl ChannelOrder {
    /// The wire bytes of `c` in this order.
    pub open spec fn wire(self, c: Rgb) -> Seq<u8> {
        match self {
            ChannelOrder::Rgb => seq![c.r, c.g, c.b],
            ChannelOrder::Grb => seq![c.g, c.r, c.b],
            ChannelOrder::Brg => seq![c.b, c.r, c.g],
            ChannelOrder::Rbg => seq![c.r, c.b, c.g],
            ChannelOrder::Gbr => seq![c.g, c.b, c.r],
            ChannelOrder::Bgr => seq![c.b, c.g, c.r],
        }
    }

    /// Reorder a colour into wire order.
    pub fn apply(self, c: Rgb) -> (w: [u8; 3])
        ensures
            w@ == self.wire(c),
    {
        let w = match self {
            ChannelOrder::Rgb => [c.r, c.g, c.b],
            ChannelOrder::Grb => [c.g, c.r, c.b],
            ChannelOrder::Brg => [c.b, c.r, c.g],
            ChannelOrder::Rbg => [c.r, c.b, c.g],
            ChannelOrder::Gbr => [c.g, c.b, c.r],
            ChannelOrder::Bgr => [c.b, c.g, c.r],
        };
        assert(w@ =~= self.wire(c));
        w
    }

    /// The order a name spells, compared without regard to ASCII case.
    pub open spec fn spec_parse(s: Seq<char>) -> Option<ChannelOrder> {
        let l = s.map_values(|c: char| ascii_lower(c));
        if l =~= seq!['r', 'g', 'b'] {
            Some(ChannelOrder::Rgb)
        } else if l =~= seq!['g', 'r', 'b'] {
            Some(ChannelOrder::Grb)
        } else if l =~= seq!['b', 'r', 'g'] {
            Some(ChannelOrder::Brg)
        } else if l =~= seq!['r', 'b', 'g'] {
            Some(ChannelOrder::Rbg)
        } else if l =~= seq!['g', 'b', 'r'] {
            Some(ChannelOrder::Gbr)
        } else if l =~= seq!['b', 'g', 'r'] {
            Some(ChannelOrder::Bgr)
        } else {
            None
        }
    }

    /// Parse `rgb`, `grb`, `brg`, `rbg`, `gbr` or `bgr`, in any ASCII case.
    pub fn parse(s: &str) -> (o: Option<ChannelOrder>)
        ensures
            o == Self::spec_parse(s@),
    {
        let v = chars_of(s);
        let ghost l = s@.map_values(|c: char| ascii_lower(c));
        if v.len() != 3 {
            assert(l.len() != 3);
            return None;
        }
        let a = to_ascii_lower(v[0]);
        let b = to_ascii_lower(v[1]);
        let c = to_ascii_lower(v[2]);
        assert(l =~= seq![a, b, c]);
        if a == 'r' && b == 'g' && c == 'b' {
            Some(ChannelOrder::Rgb)
        } else if a == 'g' && b == 'r' && c == 'b' {
            Some(ChannelOrder::Grb)
        } else if a == 'b' && b == 'r' && c == 'g' {
            Some(ChannelOrder::Brg)
        } else if a == 'r' && b == 'b' && c == 'g' {
            Some(ChannelOrder::Rbg)
        } else if a == 'g' && b == 'b' && c == 'r' {
            Some(ChannelOrder::Gbr)
        } else if a == 'b' && b == 'g' && c == 'r' {
            Some(ChannelOrder::Bgr)
        } else {
            proof {
                assert(!(l =~= seq!['r', 'g', 'b'])) by {
                    if l =~= seq!['r', 'g', 'b'] {
                        assert(l[0] == 'r' && l[1] == 'g' && l[2] == 'b');
                    }
                }
                assert(!(l =~= seq!['g', 'r', 'b'])) by {
                    if l =~= seq!['g', 'r', 'b'] {
                        assert(l[0] == 'g' && l[1] == 'r' && l[2] == 'b');
                    }
                }
                assert(!(l =~= seq!['b', 'r', 'g'])) by {
                    if l =~= seq!['b', 'r', 'g'] {
                        assert(l[0] == 'b' && l[1] == 'r' && l[2] == 'g');
                    }
                }
                assert(!(l =~= seq!['r', 'b', 'g'])) by {
                    if l =~= seq!['r', 'b', 'g'] {
                        assert(l[0] == 'r' && l[1] == 'b' && l[2] == 'g');
                    }
                }
                assert(!(l =~= seq!['g', 'b', 'r'])) by {
                    if l =~= seq!['g', 'b', 'r'] {
                        assert(l[0] == 'g' && l[1] == 'b' && l[2] == 'r');
                    }
                }
                assert(!(l =~= seq!['b', 'g', 'r'])) by {
                    if l =~= seq!['b', 'g', 'r'] {
                        assert(l[0] == 'b' && l[1] == 'g' && l[2] == 'r');
                    }
                }
            }
            None
        }
    }
}

/// Reordering neither loses, repeats nor alters a channel: the wire bytes are
/// the colour's three channels, each once, in the order's sequence.
pub proof fn lemma_wire_is_a_reordering(o: ChannelOrder, c: Rgb)
    ensures
        o.wire(c).len() == 3,
        o.wire(c).to_multiset() =~= seq![c.r, c.g, c.b].to_multiset(),
{
    broadcast use vstd::seq_lib::group_to_multiset_ensures, vstd::multiset::group_multiset_axioms;

    let e = Seq::<u8>::empty();
    assert(e.to_multiset() =~= vstd::multiset::Multiset::<u8>::empty());
    let w = o.wire(c);
    let (x, y, z) = (w[0], w[1], w[2]);
    assert(w =~= e.push(x).push(y).push(z));
    assert(seq![c.r, c.g, c.b] =~= e.push(c.r).push(c.g).push(c.b));
}

impl std::str::FromStr for ChannelOrder {
    type Err = ();

    fn from_str(s: &str) -> (r: Result<Self, Self::Err>)
        ensures
            r == (match ChannelOrder::spec_parse(s@) {
                Some(o) => Ok::<ChannelOrder, ()>(o),
                None => Err(()),
            }),
    {
        match ChannelOrder::parse(s) {
            Some(o) => Ok(o),
            None => Err(()),
        }
    }
}

} // verus!
