//! Character-level helpers for the few places the protocol and the front end
//! handle text: trimming, ASCII case folding, and building strings.

use vstd::prelude::*;

verus! {

/// The Unicode `White_Space` property, which is what `char::is_whitespace`
/// and `str::trim` test for.
pub open spec fn is_white_space(c: char) -> bool {
    let u = c as u32;
    ||| 0x09 <= u <= 0x0d
    ||| u == 0x20
    ||| u == 0x85
    ||| u == 0xa0
    ||| u == 0x1680
    ||| 0x2000 <= u <= 0x200a
    ||| u == 0x2028
    ||| u == 0x2029
    ||| u == 0x202f
    ||| u == 0x205f
    ||| u == 0x3000
}

pub fn white_space(c: char) -> (b: bool)
    ensures
        b == is_white_space(c),
{
    let u = c as u32;
    (0x09 <= u && u <= 0x0d) || u == 0x20 || u == 0x85 || u == 0xa0 || u == 0x1680 || (0x2000
        <= u && u <= 0x200a) || u == 0x2028 || u == 0x2029 || u == 0x202f || u == 0x205f || u
        == 0x3000
}

/// Index of the first character that is not white space (or the length).
pub open spec fn trim_start_index(s: Seq<char>) -> int
    decreases s.len(),
{
    if s.len() == 0 {
        0
    } else if is_white_space(s[0]) {
        1 + trim_start_index(s.drop_first())
    } else {
        0
    }
}

/// One past the last character that is not white space (or zero).
pub open spec fn trim_end_index(s: Seq<char>) -> int
    decreases s.len(),
{
    if s.len() == 0 {
        0
    } else if is_white_space(s.last()) {
        trim_end_index(s.drop_last())
    } else {
        s.len() as int
    }
}

/// `s` with leading and trailing white space removed, as `str::trim` does.
pub open spec fn trimmed(s: Seq<char>) -> Seq<char> {
    let a = trim_start_index(s);
    let b = trim_end_index(s);
    if a < b {
        s.subrange(a, b)
    } else {
        Seq::empty()
    }
}

pub proof fn lemma_trim_start_index(s: Seq<char>)
    ensures
        0 <= trim_start_index(s) <= s.len(),
        forall|i: int| 0 <= i < trim_start_index(s) ==> is_white_space(#[trigger] s[i]),
        trim_start_index(s) < s.len() ==> !is_white_space(s[trim_start_index(s)]),
    decreases s.len(),
{
    if s.len() > 0 && is_white_space(s[0]) {
        lemma_trim_start_index(s.drop_first());
        assert forall|i: int| 0 <= i < trim_start_index(s) implies is_white_space(
            #[trigger] s[i],
        ) by {
            if i > 0 {
                assert(s[i] == s.drop_first()[i - 1]);
            }
        }
    }
}

pub proof fn lemma_trim_end_index(s: Seq<char>)
    ensures
        0 <= trim_end_index(s) <= s.len(),
        forall|i: int| trim_end_index(s) <= i < s.len() ==> is_white_space(#[trigger] s[i]),
        trim_end_index(s) > 0 ==> !is_white_space(s[trim_end_index(s) - 1]),
    decreases s.len(),
{
    if s.len() > 0 && is_white_space(s.last()) {
        lemma_trim_end_index(s.drop_last());
        assert forall|i: int| trim_end_index(s) <= i < s.len() implies is_white_space(
            #[trigger] s[i],
        ) by {
            if i < s.len() - 1 {
                assert(s[i] == s.drop_last()[i]);
            }
        }
    }
}

/// The characters of a string slice, in order.
pub fn chars_of(s: &str) -> (v: Vec<char>)
    ensures
        v@ == s@,
{
    let mut v: Vec<char> = Vec::new();
    for c in it: s.chars()
        invariant
            v@ == it.seq().take(it.index() as int),
            it.seq() == s@,
    {
        v.push(c);
    }
    v
}

/// Trim white space from both ends, as `str::trim` does, on characters.
pub fn trim_chars(s: &Vec<char>) -> (t: Vec<char>)
    ensures
        t@ == trimmed(s@),
{
    proof {
        lemma_trim_start_index(s@);
        lemma_trim_end_index(s@);
    }
    let n = s.len();
    let mut a: usize = 0;
    while a < n && white_space(s[a])
        invariant
            a <= n,
            n == s.len(),
            forall|i: int| 0 <= i < a ==> is_white_space(#[trigger] s@[i]),
        decreases n - a,
    {
        a = a + 1;
    }
    let mut b: usize = n;
    while b > a && white_space(s[b - 1])
        invariant
            a <= b <= n,
            n == s.len(),
            forall|i: int| b <= i < n ==> is_white_space(#[trigger] s@[i]),
        decreases b,
    {
        b = b - 1;
    }
    proof {
        let sa = trim_start_index(s@);
        let sb = trim_end_index(s@);
        // a is the first non-white character, or n.
        if a < n {
            assert(!is_white_space(s@[a as int]));
            assert(sa == a) by {
                if sa < a {
                    assert(is_white_space(s@[sa]));
                }
                if sa > a {
                    assert(is_white_space(s@[a as int]));
                }
            }
        } else {
            assert(sa == n) by {
                if sa < n {
                    assert(is_white_space(s@[sa]));
                }
            }
        }
        if b > a {
            assert(!is_white_space(s@[b - 1]));
            assert(sb == b) by {
                if sb < b {
                    assert(is_white_space(s@[b - 1]));
                }
                if sb > b {
                    assert(is_white_space(s@[sb - 1]));
                }
            }
        } else {
            assert(sb <= a) by {
                if sb > a {
                    assert(is_white_space(s@[sb - 1]));
                }
            }
        }
    }
    let mut t: Vec<char> = Vec::new();
    let mut i = a;
    while i < b
        invariant
            a <= i <= b <= n,
            n == s.len(),
            t@ == s@.subrange(a as int, i as int),
        decreases b - i,
    {
        t.push(s[i]);
        i = i + 1;
    }
    t
}

/// ASCII upper-case letters folded to lower case, everything else unchanged.
pub open spec fn ascii_lower(c: char) -> char {
    if 'A' <= c <= 'Z' {
        ((c as u32) + 32) as char
    } else {
        c
    }
}

/// ASCII lower-case letters folded to upper case, everything else unchanged.
pub open spec fn ascii_upper(c: char) -> char {
    if 'a' <= c <= 'z' {
        ((c as u32) - 32) as char
    } else {
        c
    }
}

pub fn to_ascii_lower(c: char) -> (r: char)
    ensures
        r == ascii_lower(c),
{
    if 'A' <= c && c <= 'Z' {
        ((c as u8) + 32) as char
    } else {
        c
    }
}

pub fn to_ascii_upper(c: char) -> (r: char)
    ensures
        r == ascii_upper(c),
{
    if 'a' <= c && c <= 'z' {
        ((c as u8) - 32) as char
    } else {
        c
    }
}

/// Whether two string slices hold the same characters.
pub fn str_eq(a: &str, b: &str) -> (e: bool)
    ensures
        e == (a@ == b@),
{
    let x = chars_of(a);
    let y = chars_of(b);
    if x.len() != y.len() {
        return false;
    }
    let mut i: usize = 0;
    while i < x.len()
        invariant
            x.len() == y.len(),
            x@ == a@,
            y@ == b@,
            i <= x.len(),
            forall|j: int| 0 <= j < i ==> x@[j] == y@[j],
        decreases x.len() - i,
    {
        if x[i] != y[i] {
            assert(x@[i as int] != y@[i as int]);
            assert(a@ != b@);
            return false;
        }
        i = i + 1;
    }
    assert(x@ =~= y@);
    true
}

/// Collect characters into a `String`, through `String::from_iter`: the
/// string holds exactly those characters, in order.
#[verifier::external_body]
pub(crate) fn string_from_chars(v: &Vec<char>) -> (s: String)
    ensures
        s@ == v@,
{
    String::from_iter(v.iter())
}

/// Append the characters of `s`.
pub fn push_str(v: &mut Vec<char>, s: &str)
    ensures
        final(v)@ == old(v)@ + s@,
{
    let ghost start = v@;
    let cs = chars_of(s);
    let mut i: usize = 0;
    while i < cs.len()
        invariant
            i <= cs@.len(),
            v@ == start + cs@.take(i as int),
        decreases cs@.len() - i,
    {
        v.push(cs[i]);
        i = i + 1;
        assert(v@ =~= start + cs@.take(i as int));
    }
    assert(cs@.take(i as int) =~= s@);
}

} // verus!
