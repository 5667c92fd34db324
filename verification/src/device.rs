//! Device-agnostic types: device ids, links, physical layout, and frames.

use vstd::prelude::*;

use crate::color::Rgb;
use crate::text::{chars_of, string_from_chars};

verus! {

/// A USB vendor/product id pair.
#[derive(Clone, Copy, Debug, PartialEq, Eq, Hash, PartialOrd, Ord, Structural)]
pub struct DeviceId {
    pub vid: u16,
    pub pid: u16,
}

impl DeviceId {
    pub fn new(vid: u16, pid: u16) -> (id: Self)
        ensures
            id == (DeviceId { vid, pid }),
    {
        DeviceId { vid, pid }
    }
}


/// How a board is attached.
#[derive(Clone, Copy, Debug, PartialEq, Eq, Structural)]
pub enum Link {
    /// The USB-C cable: wired feature-report protocol.
    Wired,
    /// The 2.4 GHz receiver: its own output-report protocol.
    Dongle,
    /// Speaks the wired protocol, through hardware nothing recognises.
    Unknown,
}

/// What a link is called after a model name: "AULA F75 (wired)".
pub open spec fn link_suffix(l: Link) -> Seq<char> {
    match l {
        Link::Wired => "wired"@,
        Link::Dongle => "2.4 GHz dongle"@,
        Link::Unknown => "unknown link"@,
    }
}

impl Link {
    /// How this link is named in labels, after the model name.
    pub fn suffix(&self) -> (s: &'static str)
        ensures
            s@ == link_suffix(*self),
    {
        match self {
            Link::Wired => "wired",
            Link::Dongle => "2.4 GHz dongle",
            Link::Unknown => "unknown link",
        }
    }
}

/// The lower-case hexadecimal digit for `d` in `0..16`.
pub open spec fn hex_char(d: int) -> char {
    if d < 10 {
        (('0' as u32) + d) as char
    } else {
        (('a' as u32) + d - 10) as char
    }
}

/// A 16-bit value as four lower-case hexadecimal digits.
pub open spec fn hex4(x: u16) -> Seq<char> {
    seq![
        hex_char((x / 4096) as int % 16),
        hex_char((x / 256) as int % 16),
        hex_char((x / 16) as int % 16),
        hex_char(x as int % 16),
    ]
}

/// `vvvv:pppp`, the way ids are written in labels, settings and on the
/// command line.
pub open spec fn id_text(id: DeviceId) -> Seq<char> {
    hex4(id.vid) + seq![':'] + hex4(id.pid)
}

fn hex_digit_char(d: u16) -> (c: char)
    requires
        d < 16,
    ensures
        c == hex_char(d as int),
{
    if d < 10 {
        ((d as u8) + 48) as char
    } else {
        ((d as u8) + 87) as char
    }
}

fn push_hex4(v: &mut Vec<char>, x: u16)
    ensures
        final(v)@ == old(v)@ + hex4(x),
{
    v.push(hex_digit_char((x / 4096) % 16));
    v.push(hex_digit_char((x / 256) % 16));
    v.push(hex_digit_char((x / 16) % 16));
    v.push(hex_digit_char(x % 16));
    assert(v@ =~= old(v)@ + hex4(x));
}

/// The value of a hexadecimal digit, or -1 for any other character.
pub open spec fn hex_value(c: char) -> int {
    if '0' <= c <= '9' {
        c as int - '0' as int
    } else if 'a' <= c <= 'f' {
        c as int - 'a' as int + 10
    } else if 'A' <= c <= 'F' {
        c as int - 'A' as int + 10
    } else {
        -1
    }
}

pub open spec fn all_hex(s: Seq<char>) -> bool {
    forall|i: int| 0 <= i < s.len() ==> hex_value(#[trigger] s[i]) >= 0
}

/// The number a run of hexadecimal digits spells, most significant first.
pub open spec fn hex_number(s: Seq<char>) -> int
    decreases s.len(),
{
    if s.len() == 0 {
        0
    } else {
        hex_number(s.drop_last()) * 16 + hex_value(s.last())
    }
}

/// A 16-bit field as `u16::from_str_radix(_, 16)` reads it: an optional `+`,
/// then at least one hexadecimal digit, and a value that fits.
pub open spec fn hex_field(s: Seq<char>) -> Option<u16> {
    let d = if s.len() > 0 && s[0] == '+' {
        s.drop_first()
    } else {
        s
    };
    if d.len() > 0 && all_hex(d) && hex_number(d) <= 0xffff {
        Some(hex_number(d) as u16)
    } else {
        None
    }
}

/// Index of the first `:` in `s`, or its length when there is none.
pub open spec fn colon_at(s: Seq<char>) -> int
    decreases s.len(),
{
    if s.len() == 0 {
        0
    } else if s[0] == ':' {
        0
    } else {
        1 + colon_at(s.drop_first())
    }
}

/// What `vid:pid` text means, if anything: split at the first colon, each
/// side a 16-bit hexadecimal number.
pub open spec fn parse_id(s: Seq<char>) -> Option<DeviceId> {
    let k = colon_at(s);
    if k >= s.len() {
        None
    } else {
        match (hex_field(s.take(k)), hex_field(s.skip(k + 1))) {
            (Some(v), Some(p)) => Some(DeviceId { vid: v, pid: p }),
            _ => None,
        }
    }
}

/// Text that is not a `vid:pid` pair of 16-bit hexadecimal numbers.
#[derive(Clone, Copy, Debug, PartialEq, Eq, Structural)]
pub struct ParseDeviceIdError;

proof fn lemma_colon_at(s: Seq<char>)
    ensures
        0 <= colon_at(s) <= s.len(),
        forall|i: int| 0 <= i < colon_at(s) ==> s[i] != ':',
        colon_at(s) < s.len() ==> s[colon_at(s)] == ':',
    decreases s.len(),
{
    if s.len() > 0 && s[0] != ':' {
        let t = s.drop_first();
        lemma_colon_at(t);
        assert forall|i: int| 0 <= i < colon_at(s) implies s[i] != ':' by {
            if i > 0 {
                assert(s[i] == t[i - 1]);
            }
        }
        if colon_at(s) < s.len() {
            assert(s[colon_at(s)] == t[colon_at(t)]);
        }
    }
}

proof fn lemma_hex_number_grows(s: Seq<char>, n: int)
    requires
        0 <= n <= s.len(),
        all_hex(s),
        hex_number(s.take(n)) > 0xffff,
    ensures
        hex_number(s) > 0xffff,
    decreases s.len() - n,
{
    if n < s.len() {
        let t = s.take(n + 1);
        assert(t.drop_last() =~= s.take(n));
        assert(hex_value(t.last()) >= 0);
        lemma_hex_number_grows(s, n + 1);
    } else {
        assert(s.take(n) =~= s);
    }
}

proof fn lemma_hex_number_nonneg(s: Seq<char>)
    requires
        all_hex(s),
    ensures
        hex_number(s) >= 0,
    decreases s.len(),
{
    if s.len() > 0 {
        lemma_hex_number_nonneg(s.drop_last());
        assert(hex_value(s.last()) >= 0);
    }
}

fn hex_digit_value(c: char) -> (d: u32)
    ensures
        d == (if hex_value(c) >= 0 { hex_value(c) } else { 16 }),
{
    if '0' <= c && c <= '9' {
        (c as u32) - 48
    } else if 'a' <= c && c <= 'f' {
        (c as u32) - 87
    } else if 'A' <= c && c <= 'F' {
        (c as u32) - 55
    } else {
        16
    }
}

/// Read `s[lo..hi]` as `u16::from_str_radix(_, 16)` does.
fn parse_hex_field(s: &Vec<char>, lo: usize, hi: usize) -> (r: Option<u16>)
    requires
        lo <= hi <= s@.len(),
    ensures
        r == hex_field(s@.subrange(lo as int, hi as int)),
{
    let ghost f = s@.subrange(lo as int, hi as int);
    let mut start = lo;
    if lo < hi && s[lo] == '+' {
        start = lo + 1;
    }
    let ghost d = s@.subrange(start as int, hi as int);
    proof {
        if lo < hi && s@[lo as int] == '+' {
            assert(d =~= f.drop_first());
        } else {
            assert(d =~= f);
        }
    }
    if start == hi {
        return None;
    }
    let mut acc: u32 = 0;
    let mut i = start;
    while i < hi
        invariant
            start <= i <= hi <= s@.len(),
            d == s@.subrange(start as int, hi as int),
            f == s@.subrange(lo as int, hi as int),
            d == (if f.len() > 0 && f[0] == '+' { f.drop_first() } else { f }),
            d.len() > 0,
            all_hex(d.take(i - start)),
            acc == hex_number(d.take(i - start)),
            acc <= 0xffff,
        decreases hi - i,
    {
        let v = hex_digit_value(s[i]);
        let ghost pre = d.take(i - start);
        let ghost next = d.take(i - start + 1);
        proof {
            assert(next.drop_last() =~= pre);
            assert(next.last() == s@[i as int]);
        }
        if v >= 16 {
            proof {
                assert(d[i - start] == s@[i as int]);
                assert(hex_value(d[i - start]) < 0);
                assert(!all_hex(d));
                assert(hex_field(f) is None);
            }
            return None;
        }
        proof {
            assert forall|j: int| 0 <= j < next.len() implies hex_value(#[trigger] next[j]) >= 0 by {
                if j < pre.len() {
                    assert(next[j] == pre[j]);
                }
            }
        }
        let n = acc * 16 + v;
        if n > 0xffff {
            proof {
                if all_hex(d) {
                    lemma_hex_number_grows(d, i - start + 1);
                }
                assert(hex_field(f) is None);
            }
            return None;
        }
        acc = n;
        i = i + 1;
    }
    proof {
        assert(d.take(hi - start) =~= d);
    }
    Some(acc as u16)
}

/// One physical key: where it sits on the board, and which LED index drives it.
///
/// Geometry is kept exact, in fractions of a key unit: `x_eighths` is the key
/// centre in eighths of 1u from the left edge, `w_quarters` the key width in
/// quarters of 1u (every key on the board is a whole number of quarters wide).
/// `row` counts from the top. Effects sample these so animations travel
/// across the board in real space rather than in wiring order.
#[derive(Clone, Copy, Debug, PartialEq, Eq)]
pub struct KeyPos {
    pub name: &'static str,
    pub row: u8,
    pub x_eighths: u32,
    /// Effects use this to skip oversized keys: a spacebar is a single LED
    /// spanning several columns, and lighting it as one "pixel" swamps
    /// anything drawn around it.
    pub w_quarters: u32,
    pub led: usize,
}

/// A full frame of colours, indexed by LED slot.
#[derive(Debug, PartialEq)]
pub struct Frame {
    leds: Vec<Rgb>,
}

impl View for Frame {
    type V = Seq<Rgb>;

    closed spec fn view(&self) -> Seq<Rgb> {
        self.leds@
    }
}

impl Clone for Frame {
    fn clone(&self) -> (c: Self)
        ensures
            c@ == self@,
    {
        let leds = self.leds.clone();
        assert(leds@ =~= self.leds@);
        Frame { leds }
    }
}

/// The colour a frame shows at `led`: black outside the frame.
pub open spec fn color_at(f: Seq<Rgb>, led: int) -> Rgb {
    if 0 <= led < f.len() {
        f[led]
    } else {
        Rgb { r: 0, g: 0, b: 0 }
    }
}

impl Frame {
    pub fn black(len: usize) -> (f: Self)
        ensures
            f@ == Seq::new(len as nat, |i: int| Rgb { r: 0, g: 0, b: 0 }),
    {
        Self::solid(len, Rgb { r: 0, g: 0, b: 0 })
    }

    pub fn solid(len: usize, c: Rgb) -> (f: Self)
        ensures
            f@ == Seq::new(len as nat, |i: int| c),
    {
        let mut leds: Vec<Rgb> = Vec::new();
        let mut i: usize = 0;
        while i < len
            invariant
                i <= len,
                leds@ == Seq::new(i as nat, |j: int| c),
            decreases len - i,
        {
            leds.push(c);
            i = i + 1;
            assert(leds@ =~= Seq::new(i as nat, |j: int| c));
        }
        Frame { leds }
    }

    pub fn len(&self) -> (n: usize)
        ensures
            n == self@.len(),
    {
        self.leds.len()
    }

    pub fn is_empty(&self) -> (e: bool)
        ensures
            e == (self@.len() == 0),
    {
        self.leds.len() == 0
    }

    pub fn as_slice(&self) -> (s: &[Rgb])
        ensures
            s@ == self@,
    {
        self.leds.as_slice()
    }

    /// Out-of-range writes are ignored rather than panicking: effects are often
    /// user scripts, and a bad index should not take the app down.
    pub fn set(&mut self, led: usize, c: Rgb)
        ensures
            final(self)@ == (if led < old(self)@.len() {
                old(self)@.update(led as int, c)
            } else {
                old(self)@
            }),
    {
        if led < self.leds.len() {
            self.leds.set(led, c);
        }
    }

    pub fn get(&self, led: usize) -> (c: Rgb)
        ensures
            c == color_at(self@, led as int),
    {
        if led < self.leds.len() {
            self.leds[led]
        } else {
            Rgb { r: 0, g: 0, b: 0 }
        }
    }

    /// Additive blend into a slot, for overlapping effects.
    pub fn add(&mut self, led: usize, c: Rgb)
        ensures
            final(self)@ == (if led < old(self)@.len() {
                old(self)@.update(led as int, old(self)@[led as int].spec_blend_add(c))
            } else {
                old(self)@
            }),
    {
        if led < self.leds.len() {
            let cur = self.leds[led];
            self.leds.set(led, cur.blend_add(c));
        }
    }

    pub fn fill(&mut self, c: Rgb)
        ensures
            final(self)@ == Seq::new(old(self)@.len(), |i: int| c),
    {
        let n = self.leds.len();
        let mut i: usize = 0;
        while i < n
            invariant
                i <= n,
                n == self.leds@.len(),
                forall|j: int| 0 <= j < i ==> self.leds@[j] == c,
            decreases n - i,
        {
            self.leds.set(i, c);
            i = i + 1;
        }
        assert(self@ =~= Seq::new(n as nat, |i: int| c));
    }

    /// The colours, in LED order.
    pub fn iter(&self) -> (it: std::slice::Iter<'_, Rgb>)
        ensures
            vstd::std_specs::slice::into_iter_elts(it) == self@,
    {
        self.leds.as_slice().iter()
    }

    /// Whether two frames hold the same colours.
    pub fn same_as(&self, other: &Frame) -> (e: bool)
        ensures
            e == (self@ == other@),
    {
        if self.leds.len() != other.leds.len() {
            return false;
        }
        let mut i: usize = 0;
        while i < self.leds.len()
            invariant
                self.leds.len() == other.leds.len(),
                i <= self.leds.len(),
                forall|j: int| 0 <= j < i ==> self.leds@[j] == other.leds@[j],
            decreases self.leds.len() - i,
        {
            if self.leds[i] != other.leds[i] {
                return false;
            }
            i = i + 1;
        }
        assert(self.leds@ =~= other.leds@);
        true
    }
}

impl DeviceId {
    /// The id as text: `vvvv:pppp`, four lower-case hexadecimal digits each.
    pub fn to_text(&self) -> (t: String)
        ensures
            t@ == id_text(*self),
    {
        let mut v: Vec<char> = Vec::new();
        push_hex4(&mut v, self.vid);
        v.push(':');
        push_hex4(&mut v, self.pid);
        assert(v@ =~= id_text(*self));
        string_from_chars(&v)
    }

    /// Read `vid:pid`, each side hexadecimal as `u16::from_str_radix` reads it.
    pub fn parse(s: &str) -> (r: Result<DeviceId, ParseDeviceIdError>)
        ensures
            r matches Ok(id) ==> parse_id(s@) == Some(id),
            r is Err <==> parse_id(s@) is None,
    {
        let v = chars_of(s);
        let mut k: usize = 0;
        while k < v.len() && v[k] != ':'
            invariant
                k <= v@.len(),
                forall|i: int| 0 <= i < k ==> v@[i] != ':',
            decreases v@.len() - k,
        {
            k = k + 1;
        }
        proof {
            lemma_colon_at(v@);
            assert(colon_at(v@) == k as int);
        }
        if k >= v.len() {
            return Err(ParseDeviceIdError);
        }
        proof {
            assert(v@.take(k as int) =~= v@.subrange(0, k as int));
            assert(v@.skip(k + 1) =~= v@.subrange(k + 1, v@.len() as int));
        }
        let vid = parse_hex_field(&v, 0, k);
        let pid = parse_hex_field(&v, k + 1, v.len());
        match (vid, pid) {
            (Some(a), Some(b)) => Ok(DeviceId { vid: a, pid: b }),
            _ => Err(ParseDeviceIdError),
        }
    }
}

impl std::str::FromStr for DeviceId {
    type Err = ParseDeviceIdError;

    fn from_str(s: &str) -> (r: Result<DeviceId, ParseDeviceIdError>)
        ensures
            r matches Ok(id) ==> parse_id(s@) == Some(id),
            r is Err <==> parse_id(s@) is None,
    {
        DeviceId::parse(s)
    }
}

proof fn lemma_hex4_digits(x: u16)
    ensures
        all_hex(hex4(x)),
        hex_number(hex4(x)) == x,
        forall|i: int| 0 <= i < 4 ==> #[trigger] hex4(x)[i] != ':' && hex4(x)[i] != '+',
{
    let h = hex4(x);
    let a = (x / 4096) as int % 16;
    let b = (x / 256) as int % 16;
    let c = (x / 16) as int % 16;
    let d = x as int % 16;
    assert(hex_value(hex_char(a)) == a);
    assert(hex_value(hex_char(b)) == b);
    assert(hex_value(hex_char(c)) == c);
    assert(hex_value(hex_char(d)) == d);
    let s1 = seq![hex_char(a)];
    let s2 = seq![hex_char(a), hex_char(b)];
    let s3 = seq![hex_char(a), hex_char(b), hex_char(c)];
    assert(hex_number(Seq::<char>::empty()) == 0);
    assert(s1.drop_last() =~= Seq::<char>::empty());
    assert(hex_number(s1) == a);
    assert(s2.drop_last() =~= s1);
    assert(hex_number(s2) == a * 16 + b);
    assert(s3.drop_last() =~= s2);
    assert(hex_number(s3) == (a * 16 + b) * 16 + c);
    assert(h.drop_last() =~= s3);
    assert(hex_number(h) == ((a * 16 + b) * 16 + c) * 16 + d);
    assert(x == (((x / 4096) % 16) * 4096 + ((x / 256) % 16) * 256 + ((x / 16) % 16) * 16 + x % 16) as u16)
        by (bit_vector);
}

/// Writing an id as text and reading it back gives the id: what the picker,
/// the settings and the command line show can always be typed back in.
pub proof fn lemma_id_text_round_trip(id: DeviceId)
    ensures
        parse_id(id_text(id)) == Some(id),
{
    let s = id_text(id);
    lemma_hex4_digits(id.vid);
    lemma_hex4_digits(id.pid);
    assert(s.len() == 9);
    assert(s[4] == ':');
    assert forall|i: int| 0 <= i < 4 implies s[i] != ':' by {
        assert(s[i] == hex4(id.vid)[i]);
    }
    lemma_colon_at(s);
    assert(colon_at(s) == 4);
    assert(s.take(4) =~= hex4(id.vid));
    assert(s.skip(5) =~= hex4(id.pid));
}

/// A write is read back, and touches nothing else: after `set` inside the
/// frame, `get` at that LED gives the colour and every other LED is as it
/// was; a write outside the frame changes nothing.
pub proof fn lemma_set_then_get(f: Seq<Rgb>, led: int, c: Rgb, other: int)
    requires
        0 <= led,
    ensures
        led < f.len() ==> color_at(f.update(led, c), led) == c,
        other != led ==> color_at(if led < f.len() { f.update(led, c) } else { f }, other) == color_at(f, other),
        led >= f.len() ==> color_at(f, led) == (Rgb { r: 0, g: 0, b: 0 }),
{
}

} // verus!
