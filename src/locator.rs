//! Finds the trailer at the end of a combined file and reads its descriptor.
//!
//! The caller hands over the file's size and its last bytes (at most
//! `TAIL_WINDOW` of them: nothing before that can belong to a trailer that
//! the scan accepts). The scan goes backward from just before the start
//! marker and gives up after `SCAN_CAP` bytes.

use crate::codec::{
    decode_descriptor, decode_descriptor_bytes, end_marker, end_marker_bytes, start_marker,
    start_marker_bytes, FileSpec, SpecView, MARKER_LEN,
};
use vstd::prelude::*;
use vstd::slice::slice_subrange;

verus! {

/// The most bytes the backward scan accumulates, end marker included.
pub const SCAN_CAP: usize = 4096;

/// The most bytes at the end of a file that the locator looks at.
pub const TAIL_WINDOW: usize = MARKER_LEN + SCAN_CAP;

/// Why a trailer whose markers matched could not be read.
#[derive(Clone, Copy, Debug, PartialEq, Eq)]
pub enum TrailerError {
    /// The bytes between the markers are not one well-formed descriptor.
    Undecodable,
    /// The descriptor claims a payload longer than what precedes it.
    SizeExceedsOffset,
}

/// `t` ends with the start marker.
pub open spec fn ends_with_start(t: Seq<u8>) -> bool {
    t.len() >= MARKER_LEN && t.subrange(t.len() - MARKER_LEN, t.len() as int) == start_marker()
}

/// The end marker stands at `p` in `t`, wholly before the start marker.
pub open spec fn end_marker_at(t: Seq<u8>, p: int) -> bool {
    0 <= p && p + 2 * MARKER_LEN <= t.len() && t.subrange(p, p + MARKER_LEN) == end_marker()
}

/// The lowest position at which the scan still looks for the end marker.
pub open spec fn scan_floor(t: Seq<u8>) -> int {
    if t.len() > MARKER_LEN + SCAN_CAP {
        t.len() - MARKER_LEN - SCAN_CAP
    } else {
        0
    }
}

/// The highest position in `lo..=q` at which the end marker stands.
pub open spec fn scan_down(t: Seq<u8>, q: int, lo: int) -> Option<int>
    decreases q - lo + 1,
{
    if q < lo {
        None
    } else if end_marker_at(t, q) {
        Some(q)
    } else {
        scan_down(t, q - 1, lo)
    }
}

/// Where the end marker of the trailer at the end of `t` starts, if any.
pub open spec fn trailer_end(t: Seq<u8>) -> Option<int> {
    if ends_with_start(t) && t.len() >= 2 * MARKER_LEN {
        scan_down(t, t.len() - 2 * MARKER_LEN, scan_floor(t))
    } else {
        None
    }
}

/// What the locator finds in a file of `size` bytes that ends with `t`:
/// nothing, a corrupt trailer, or a descriptor with the start and end
/// offsets of the payload.
pub open spec fn locate_model(size: u64, t: Seq<u8>) -> Result<
    Option<(SpecView, u64, u64)>,
    TrailerError,
> {
    match trailer_end(t) {
        None => Ok(None),
        Some(p) => {
            let desc = t.subrange(p + MARKER_LEN, t.len() - MARKER_LEN);
            let end = size - t.len() + p;
            match decode_descriptor(desc) {
                None => Err(TrailerError::Undecodable),
                Some(v) => if v.2 <= end {
                    Ok(Some((v, (end - v.2) as u64, end as u64)))
                } else {
                    Err(TrailerError::SizeExceedsOffset)
                },
            }
        },
    }
}

/// The mathematical value of what `check_file` returns.
pub open spec fn located_view(r: Result<Option<(FileSpec, u64, u64)>, TrailerError>) -> Result<
    Option<(SpecView, u64, u64)>,
    TrailerError,
> {
    match r {
        Ok(Some((f, s, e))) => Ok(Some((f@, s, e))),
        Ok(None) => Ok(None),
        Err(e) => Err(e),
    }
}

/// `t[pos..pos + m.len()]` equals `m`.
fn bytes_match_at(t: &[u8], pos: usize, m: &Vec<u8>) -> (r: bool)
    requires
        pos + m@.len() <= t@.len(),
    ensures
        r == (t@.subrange(pos as int, pos + m@.len()) == m@),
{
    let tl = t.len();
    let mut i: usize = 0;
    while i < m.len()
        invariant
            i <= m@.len(),
            tl == t@.len(),
            pos + m@.len() <= tl,
            forall|j: int| 0 <= j < i ==> t@[pos + j] == m@[j],
        decreases m@.len() - i,
    {
        if t[pos + i] != m[i] {
            assert(t@.subrange(pos as int, pos + m@.len())[i as int] != m@[i as int]);
            return false;
        }
        i = i + 1;
    }
    assert(t@.subrange(pos as int, pos + m@.len()) =~= m@);
    true
}

/// Looks for a trailer at the end of a file of `file_size` bytes whose last
/// bytes are `tail`, and decodes its descriptor.
///
/// `Ok(None)` means that no trailer is there; an error means that the
/// markers matched but what stands between them is not a valid descriptor.
/// On success the offsets delimit the payload in the file.
pub fn check_file(file_size: u64, tail: &[u8]) -> (r: Result<
    Option<(FileSpec, u64, u64)>,
    TrailerError,
>)
    requires
        tail@.len() <= file_size,
    ensures
        located_view(r) == locate_model(file_size, tail@),
{
    let ghost t = tail@;
    let n = tail.len();
    if n < 2 * MARKER_LEN {
        return Ok(None);
    }
    let start = start_marker_bytes();
    if !bytes_match_at(tail, n - MARKER_LEN, &start) {
        return Ok(None);
    }
    let lo: usize = if n > MARKER_LEN + SCAN_CAP {
        n - MARKER_LEN - SCAN_CAP
    } else {
        0
    };
    let end = end_marker_bytes();
    let mut q: usize = n - 2 * MARKER_LEN;
    loop
        invariant
            n == t.len(),
            t == tail@,
            end@ == end_marker(),
            lo == scan_floor(t),
            lo <= q + 1,
            q + 2 * MARKER_LEN <= n,
            lo <= q,
            trailer_end(t) == scan_down(t, q as int, lo as int),
        ensures
            q + 2 * MARKER_LEN <= n,
            trailer_end(t) == Some(q as int),
        decreases q,
    {
        if bytes_match_at(tail, q, &end) {
            break;
        }
        if q == lo {
            assert(scan_down(t, q - 1, lo as int) is None);
            return Ok(None);
        }
        q = q - 1;
    }
    let p = q;
    let desc = slice_subrange(tail, p + MARKER_LEN, n - MARKER_LEN);
    let end_offset: u64 = file_size - n as u64 + p as u64;
    match decode_descriptor_bytes(desc) {
        None => Err(TrailerError::Undecodable),
        Some(f) => {
            if f.size <= end_offset {
                let start_offset = end_offset - f.size;
                Ok(Some((f, start_offset, end_offset)))
            } else {
                Err(TrailerError::SizeExceedsOffset)
            }
        },
    }
}

} // verus!
