//! File-name rules for effects, scripts and imported artwork.
//!
//! Paths are split by the platform's own rules, which differ between systems,
//! but a path whose components are separated by `/` alone, with no drive or
//! network prefix, reads the same everywhere. What a file name's extension
//! and stem are, given the name, is fixed.

use vstd::prelude::*;

use crate::text::{ascii_lower, push_str, str_eq, string_from_chars, to_ascii_lower};

verus! {

/// The path is `..`, or ends in `/..` and holds neither `?` nor `\`: its
/// last component is the parent directory on every platform. (`/` separates
/// components everywhere except in a Windows verbatim path, which starts
/// `\\?\`.)
pub open spec fn ends_in_parent(p: Seq<char>) -> bool {
    ||| p == ".."@
    ||| {
        &&& p.len() >= 3
        &&& p.skip(p.len() - 3) == "/.."@
        &&& forall|i: int| 0 <= i < p.len() ==> p[i] != '?' && p[i] != '\\'
    }
}

/// A name that is its own file name on every platform: not empty, not `.` or
/// `..`, and free of `/`, `\` and `:`, which some platform reads as a
/// separator or a drive prefix.
pub open spec fn is_plain_name(p: Seq<char>) -> bool {
    &&& p.len() > 0
    &&& p != "."@
    &&& p != ".."@
    &&& forall|i: int| 0 <= i < p.len() ==> p[i] != '/' && p[i] != '\\' && p[i] != ':'
}

/// Index of the last `/` in `s`, if any.
pub open spec fn last_slash(s: Seq<char>) -> Option<int>
    decreases s.len(),
{
    if s.len() == 0 {
        None
    } else if s.last() == '/' {
        Some(s.len() - 1)
    } else {
        last_slash(s.drop_last())
    }
}

/// The text after the last `/`, or the whole path without one.
pub open spec fn last_segment(p: Seq<char>) -> Seq<char> {
    match last_slash(p) {
        Some(k) => p.skip(k + 1),
        None => p,
    }
}

/// A path that every platform splits at `/` alone: no `\`, no `:` that
/// could start a drive prefix, no `?`, and no leading `//` that could start a
/// network or device prefix.
pub open spec fn slash_separated(p: Seq<char>) -> bool {
    &&& forall|i: int| 0 <= i < p.len() ==> p[i] != '\\' && p[i] != ':' && p[i] != '?'
    &&& !(p.len() >= 2 && p[0] == '/' && p[1] == '/')
}

/// A `/`-separated path whose last component is a plain name: that name is
/// its file name on every platform.
pub open spec fn names_a_file(p: Seq<char>) -> bool {
    slash_separated(p) && is_plain_name(last_segment(p))
}

/// The last component of a path, as `Path::file_name` finds it, as text.
///
/// Its documentation promises `None` for a path that terminates in `..`, and
/// the final component as the file name; both are claimed for the spellings
/// that read the same on every platform: a path ending in the parent
/// directory, a plain name, which is its own only component, and a
/// `/`-separated path whose last component is a plain name. Which characters
/// separate components otherwise depends on the platform, so nothing more is
/// claimed of the result.
#[verifier::external_body]
fn path_file_name(p: &str) -> (r: Option<String>)
    ensures
        ends_in_parent(p@) ==> r is None,
        is_plain_name(p@) ==> r is Some && r.unwrap()@ == p@,
        names_a_file(p@) ==> r is Some && r.unwrap()@ == last_segment(p@),
{
    std::path::Path::new(p).file_name().map(|s| s.to_string_lossy().into_owned())
}

/// Index of the last `.` in `s`, if any.
pub open spec fn last_dot(s: Seq<char>) -> Option<int>
    decreases s.len(),
{
    if s.len() == 0 {
        None
    } else if s.last() == '.' {
        Some(s.len() - 1)
    } else {
        last_dot(s.drop_last())
    }
}

/// A file name's extension, as `Path::extension` documents it: the text after
/// the final `.`, unless there is no `.` or the only one starts the name.
pub open spec fn spec_extension(name: Seq<char>) -> Option<Seq<char>> {
    match last_dot(name) {
        Some(k) => if k > 0 {
            Some(name.skip(k + 1))
        } else {
            None
        },
        None => None,
    }
}

/// A file name's stem, as `Path::file_stem` documents it: the text before
/// the final `.`, or the whole name if there is no `.` or the only one starts
/// the name.
pub open spec fn spec_stem(name: Seq<char>) -> Seq<char> {
    match last_dot(name) {
        Some(k) => if k > 0 {
            name.take(k)
        } else {
            name
        },
        None => name,
    }
}

proof fn lemma_last_dot(s: Seq<char>)
    ensures
        match last_dot(s) {
            Some(k) => 0 <= k < s.len() && s[k] == '.' && forall|j: int| k < j < s.len() ==> s[j] != '.',
            None => forall|j: int| 0 <= j < s.len() ==> s[j] != '.',
        },
    decreases s.len(),
{
    if s.len() > 0 && s.last() != '.' {
        lemma_last_dot(s.drop_last());
        let t = s.drop_last();
        assert forall|j: int| 0 <= j < t.len() implies t[j] == s[j] by {}
    }
}

fn find_last_dot(v: &Vec<char>) -> (r: Option<usize>)
    ensures
        match r {
            Some(k) => last_dot(v@) == Some(k as int) && k < v@.len(),
            None => last_dot(v@) is None,
        },
{
    let mut k = v.len();
    while k > 0
        invariant
            k <= v@.len(),
            forall|j: int| k <= j < v@.len() ==> v@[j] != '.',
        decreases k,
    {
        if v[k - 1] == '.' {
            proof {
                lemma_last_dot(v@);
                match last_dot(v@) {
                    Some(m) => {
                        assert(m == k - 1);
                    },
                    None => {
                        assert(v@[k - 1] == '.');
                    },
                }
            }
            return Some(k - 1);
        }
        k = k - 1;
    }
    proof {
        lemma_last_dot(v@);
        if let Some(m) = last_dot(v@) {
            assert(v@[m] == '.');
        }
    }
    None
}

/// A file name's extension in ASCII lower case, or nothing.
pub open spec fn lower_extension(name: Seq<char>) -> Seq<char> {
    match spec_extension(name) {
        Some(x) => x.map_values(|c: char| ascii_lower(c)),
        None => Seq::empty(),
    }
}

/// The lower-cased extension of a file name, or nothing.
pub fn ext_of_name(name: &str) -> (e: String)
    ensures
        e@ == lower_extension(name@),
{
    let v = crate::text::chars_of(name);
    let n = v.len();
    let mut out: Vec<char> = Vec::new();
    match find_last_dot(&v) {
        Some(k) => {
            if k > 0 {
                let mut i = k + 1;
                while i < v.len()
                    invariant
                        k + 1 <= i <= v@.len(),
                        out@ == v@.subrange(k + 1, i as int).map_values(|c: char| ascii_lower(c)),
                    decreases v@.len() - i,
                {
                    out.push(to_ascii_lower(v[i]));
                    i = i + 1;
                    assert(out@ =~= v@.subrange(k + 1, i as int).map_values(|c: char| ascii_lower(c)));
                }
                assert(v@.subrange(k + 1, v@.len() as int) =~= v@.skip(k + 1));
            }
        },
        None => {},
    }
    string_from_chars(&out)
}

/// The stem of a file name.
pub fn stem_of_name(name: &str) -> (s: String)
    ensures
        s@ == spec_stem(name@),
{
    let v = crate::text::chars_of(name);
    let mut out: Vec<char> = Vec::new();
    let end = match find_last_dot(&v) {
        Some(k) => if k > 0 {
            k
        } else {
            v.len()
        },
        None => v.len(),
    };
    let mut i: usize = 0;
    while i < end
        invariant
            i <= end <= v@.len(),
            out@ == v@.take(i as int),
        decreases end - i,
    {
        out.push(v[i]);
        i = i + 1;
        assert(out@ =~= v@.take(i as int));
    }
    assert(v@.take(v@.len() as int) =~= v@);
    string_from_chars(&out)
}

/// Still-image formats the importer reads, by lower-case extension.
pub open spec fn spec_is_still_ext(e: Seq<char>) -> bool {
    e == "png"@ || e == "jpg"@ || e == "jpeg"@ || e == "bmp"@ || e == "webp"@ || e == "tga"@
}

pub fn is_still_ext(e: &str) -> (b: bool)
    ensures
        b == spec_is_still_ext(e@),
{
    str_eq(e, "png") || str_eq(e, "jpg") || str_eq(e, "jpeg") || str_eq(e, "bmp") || str_eq(e, "webp")
        || str_eq(e, "tga")
}

/// The lower-cased extension of a path's file name, or nothing.
///
/// Which part of a path with other separators or a prefix is its file name
/// is the platform's to say; the result is always the lower-cased extension
/// of some name.
pub fn ext(p: &str) -> (e: String)
    ensures
        exists|n: Seq<char>| e@ == lower_extension(n),
        is_plain_name(p@) ==> e@ == lower_extension(p@),
        names_a_file(p@) ==> e@ == lower_extension(last_segment(p@)),
        ends_in_parent(p@) ==> e@.len() == 0,
{
    match path_file_name(p) {
        Some(n) => ext_of_name(n.as_str()),
        None => {
            let e = string_from_chars(&Vec::new());
            assert(e@ =~= lower_extension(Seq::empty()));
            e
        },
    }
}

/// The stem of a path's file name, or `imported` for a path with none.
///
/// Which part of a path with other separators or a prefix is its file name
/// is the platform's to say; a path that ends in the parent directory has
/// none.
pub fn stem(p: &str) -> (s: String)
    ensures
        s@ == "imported"@ || exists|n: Seq<char>| s@ == spec_stem(n),
        is_plain_name(p@) ==> s@ == spec_stem(p@),
        names_a_file(p@) ==> s@ == spec_stem(last_segment(p@)),
        ends_in_parent(p@) ==> s@ == "imported"@,
{
    match path_file_name(p) {
        Some(n) => stem_of_name(n.as_str()),
        None => {
            let mut v: Vec<char> = Vec::new();
            push_str(&mut v, "imported");
            string_from_chars(&v)
        },
    }
}

/// A path's file name, or the whole path if it has none: how imported files
/// are named in messages.
///
/// Which part of a path with other separators or a prefix is its file name
/// is the platform's to say; a path that ends in the parent directory has
/// none, and is named as it is.
pub fn file_name(p: &str) -> (s: String)
    ensures
        is_plain_name(p@) || ends_in_parent(p@) ==> s@ == p@,
        names_a_file(p@) ==> s@ == last_segment(p@),
{
    match path_file_name(p) {
        Some(n) => n,
        None => {
            let mut v: Vec<char> = Vec::new();
            push_str(&mut v, p);
            string_from_chars(&v)
        },
    }
}

} // verus!
