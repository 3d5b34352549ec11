//! Describing a file chosen by the user: its name, extension and a
//! human-readable size.

use crate::codec::FileSpec;
use vstd::prelude::*;

verus! {

/// The text that byte_unit renders for a byte count, in decimal units.
pub uninterp spec fn size_text(n: u64) -> Seq<char>;

/// The upper-case form of a string, as `str::to_uppercase` gives it.
pub uninterp spec fn upper_of(s: Seq<char>) -> Seq<char>;

/// Relies on byte_unit's `Byte::get_appropriate_unit(false)` and its
/// `Display`: the text depends on the count alone.
#[verifier::external_body]
fn get_size_str(size: u64) -> (r: String)
    ensures
        r@ == size_text(size),
{
    byte_unit::Byte::from_bytes(size as u128).get_appropriate_unit(false).to_string()
}

/// Relies on `str::to_uppercase`: the result depends on the characters
/// alone, and the empty string stays empty.
#[verifier::external_body]
fn uppercase(s: &str) -> (r: String)
    ensures
        r@ == upper_of(s@),
        s@.len() == 0 ==> r@.len() == 0,
{
    s.to_uppercase()
}

/// A path that is one plain file name on every platform: non-empty, with
/// no slash, backslash or colon, and neither `.` nor `..`.
pub open spec fn is_plain_name(s: Seq<char>) -> bool {
    &&& s.len() > 0
    &&& !s.contains('/')
    &&& !s.contains('\\')
    &&& !s.contains(':')
    &&& s != seq!['.']
    &&& s != seq!['.', '.']
}

/// Relies on `Path::file_name`: the final component of `path`, if it has
/// one. A component is never empty and never holds `/`; a path that is one
/// plain name is its own final component. Beyond that, what counts as a
/// separator depends on the platform.
#[verifier::external_body]
fn final_component(path: &str) -> (r: Option<String>)
    ensures
        r matches Some(n) ==> n@.len() > 0 && !n@.contains('/'),
        is_plain_name(path@) ==> r is Some && r->Some_0@ == path@,
{
    match std::path::Path::new(path).file_name() {
        Some(n) => match n.to_str() {
            Some(t) => Some(t.to_string()),
            None => None,
        },
        None => None,
    }
}

/// Splits a chosen path into its file name and the path itself; `None`
/// when no path was chosen or the path has no final component.
pub fn get_file_name(file: Option<String>) -> (r: Option<(String, String)>)
    ensures
        file is None ==> r is None,
        r matches Some((_, p)) ==> file matches Some(f) && p@ == f@,
        r matches Some((n, _)) ==> n@.len() > 0 && !n@.contains('/'),
        file matches Some(f) ==> (is_plain_name(f@) ==> (r matches Some((n, p)) && n@ == f@ && p@
            == f@)),
{
    match file {
        None => None,
        Some(path) => match final_component(path.as_str()) {
            None => None,
            Some(name) => Some((name, path)),
        },
    }
}

/// The position of the last `.` in `s`, if there is one.
pub open spec fn last_dot(s: Seq<char>) -> Option<int>
    decreases s.len(),
{
    if s.len() == 0 {
        None
    } else if s.last() == '.' {
        Some(s.len() - 1)
    } else {
        last_dot(s.drop_last())
    }
}

/// What follows the last `.` of a file name; empty when there is no `.`.
pub open spec fn extension_part(name: Seq<char>) -> Seq<char> {
    match last_dot(name) {
        None => Seq::empty(),
        Some(i) => name.subrange(i + 1, name.len() as int),
    }
}

/// The extension of a file name, upper-cased, without its dot.
pub open spec fn extension_of(name: Seq<char>) -> Seq<char> {
    match last_dot(name) {
        None => Seq::empty(),
        Some(_) => upper_of(extension_part(name)),
    }
}

proof fn lemma_last_dot_prefix(s: Seq<char>, i: int)
    requires
        0 <= i <= s.len(),
        forall|j: int| i <= j < s.len() ==> s[j] != '.',
    ensures
        last_dot(s) == last_dot(s.subrange(0, i)),
    decreases s.len() - i,
{
    if i < s.len() {
        assert(s.drop_last() =~= s.subrange(0, s.len() - 1));
        lemma_last_dot_prefix(s.drop_last(), i);
        assert(s.drop_last().subrange(0, i) =~= s.subrange(0, i));
    } else {
        assert(s.subrange(0, i) =~= s);
    }
}

/// Describes the file at `path`, named `name`, of `size` bytes.
pub fn describe_file(path: String, name: String, size: u64) -> (r: FileSpec)
    ensures
        r.path@ == path@,
        r.name@ == name@,
        r.size == size,
        r.sizemb@ == size_text(size),
        r.extension@ == extension_of(name@),
{
    let n = name.as_str().unicode_len();
    let mut i: usize = n;
    let mut dot: Option<usize> = None;
    while i > 0
        invariant_except_break
            dot is None,
        invariant
            n == name@.len(),
            i <= n,
            forall|j: int| i <= j < n ==> name@[j] != '.',
        ensures
            dot matches Some(d) ==> d + 1 == i && name@[d as int] == '.',
            dot is None ==> i == 0,
        decreases i,
    {
        if name.as_str().get_char(i - 1) == '.' {
            dot = Some(i - 1);
            break;
        }
        i = i - 1;
    }
    let extension = match dot {
        None => {
            proof {
                lemma_last_dot_prefix(name@, 0);
            }
            String::new()
        },
        Some(d) => {
            proof {
                lemma_last_dot_prefix(name@, (d + 1) as int);
                assert(name@.subrange(0, d + 1).drop_last() =~= name@.subrange(0, d as int));
            }
            uppercase(name.as_str().substring_char(d + 1, n))
        },
    };
    FileSpec { path, name, size, sizemb: get_size_str(size), extension }
}

} // verus!
