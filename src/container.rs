//! Building the trailer of a combined file, and what holds of combined files.

use crate::codec::{
    decode_descriptor, descriptor_bytes, encodable, encode_descriptor, end_marker,
    end_marker_bytes, lemma_descriptor_round_trip, start_marker, start_marker_bytes, FileSpec,
    SpecView, MARKER_LEN,
};
use crate::locator::{
    end_marker_at, ends_with_start, locate_model, scan_down, scan_floor, trailer_end,
    TrailerError, SCAN_CAP, TAIL_WINDOW,
};
use vstd::prelude::*;

verus! {

/// `v` with its size replaced by `n`.
pub open spec fn with_size(v: SpecView, n: u64) -> SpecView {
    (v.0, v.1, n, v.3, v.4)
}

/// The bytes that follow the payload: end marker, descriptor, start marker.
pub open spec fn trailer_bytes(v: SpecView) -> Seq<u8> {
    end_marker() + descriptor_bytes(v) + start_marker()
}

/// The file that appending `payload` (described by `v`) to `carrier` produces.
pub open spec fn combined_file(carrier: Seq<u8>, payload: Seq<u8>, v: SpecView) -> Seq<u8> {
    carrier + payload + trailer_bytes(with_size(v, payload.len() as u64))
}

/// The last bytes of `f` that the locator needs.
pub open spec fn tail_window(f: Seq<u8>) -> Seq<u8> {
    if f.len() > TAIL_WINDOW {
        f.subrange(f.len() - TAIL_WINDOW, f.len() as int)
    } else {
        f
    }
}

/// What the locator finds in the whole file `f`.
pub open spec fn locate_file(f: Seq<u8>) -> Result<Option<(SpecView, u64, u64)>, TrailerError> {
    locate_model(f.len() as u64, tail_window(f))
}

/// No end marker stands wholly inside `d`.
pub open spec fn free_of_end_marker(d: Seq<u8>) -> bool {
    forall|i: int| 0 <= i && i + MARKER_LEN <= d.len() ==> #[trigger] d.subrange(i, i + MARKER_LEN) != end_marker()
}

/// The bytes to write after the payload: the payload's descriptor with its
/// size set to `written`, the number of payload bytes actually copied.
pub fn build_trailer(payload: &FileSpec, written: u64) -> (r: Vec<u8>)
    ensures
        r@ == trailer_bytes(with_size(payload@, written)),
{
    let d = FileSpec {
        path: payload.path.clone(),
        name: payload.name.clone(),
        size: written,
        sizemb: payload.sizemb.clone(),
        extension: payload.extension.clone(),
    };
    let mut r = end_marker_bytes();
    let mut enc = encode_descriptor(&d);
    let mut start = start_marker_bytes();
    r.append(&mut enc);
    r.append(&mut start);
    assert(r@ =~= trailer_bytes(with_size(payload@, written)));
    r
}

proof fn lemma_scan_finds(t: Seq<u8>, q: int, lo: int, e: int)
    requires
        lo <= e <= q,
        end_marker_at(t, e),
        forall|k: int| e < k <= q ==> !end_marker_at(t, k),
    ensures
        scan_down(t, q, lo) == Some(e),
    decreases q - lo,
{
    if q > e {
        lemma_scan_finds(t, q - 1, lo, e);
    }
}

proof fn lemma_window_subrange(f: Seq<u8>, a: int, b: int)
    requires
        0 <= a <= b <= tail_window(f).len(),
    ensures
        tail_window(f).subrange(a, b) == f.subrange(
            f.len() - tail_window(f).len() + a,
            f.len() - tail_window(f).len() + b,
        ),
{
    let off = f.len() - tail_window(f).len();
    assert(tail_window(f).subrange(a, b) =~= f.subrange(off + a, off + b));
}

proof fn lemma_end_marker_head(j: int)
    requires
        1 <= j < MARKER_LEN,
    ensures
        end_marker()[j] != end_marker()[0],
{
}

proof fn lemma_no_marker_after(t: Seq<u8>, e: int, d: Seq<u8>, k: int)
    requires
        0 <= e,
        e + 2 * MARKER_LEN + d.len() == t.len(),
        t.subrange(e, e + MARKER_LEN) == end_marker(),
        t.subrange(e + MARKER_LEN, t.len() - MARKER_LEN) == d,
        free_of_end_marker(d),
        e < k <= t.len() - 2 * MARKER_LEN,
    ensures
        !end_marker_at(t, k),
{
    let m = MARKER_LEN as int;
    if k < e + m {
        assert(t.subrange(k, k + m)[0] == t[k]);
        assert(t.subrange(e, e + m)[k - e] == t[k]);
        lemma_end_marker_head(k - e);
    } else {
        let i = k - e - m;
        assert(t.subrange(k, k + m) =~= d.subrange(i, i + m));
    }
}

/// Locating in any file that ends with an end marker, descriptor bytes `d`
/// and a start marker reads `d`, provided no end marker stands inside `d`
/// and the scan reaches it.
pub proof fn lemma_locate_trailer(prefix: Seq<u8>, d: Seq<u8>)
    requires
        free_of_end_marker(d),
        d.len() + MARKER_LEN <= SCAN_CAP,
        prefix.len() + d.len() + 2 * MARKER_LEN <= u64::MAX,
    ensures
        ({
            let f = prefix + end_marker() + d + start_marker();
            locate_file(f) == match decode_descriptor(d) {
                None => Err(TrailerError::Undecodable),
                Some(v) => if v.2 <= prefix.len() {
                    Ok(Some((v, (prefix.len() - v.2) as u64, prefix.len() as u64)))
                } else {
                    Err(TrailerError::SizeExceedsOffset)
                },
            }
        }),
{
    let f = prefix + end_marker() + d + start_marker();
    let t = tail_window(f);
    let len = t.len() as int;
    let off = f.len() - len;
    let m = MARKER_LEN as int;
    let p = prefix.len() as int;
    let e = p - off;
    assert(len >= d.len() + 2 * m);
    assert(f.subrange(f.len() - m, f.len() as int) =~= start_marker());
    assert(f.subrange(p, p + m) =~= end_marker());
    assert(f.subrange(p + m, f.len() - m) =~= d);
    lemma_window_subrange(f, len - m, len);
    lemma_window_subrange(f, e, e + m);
    lemma_window_subrange(f, e + m, len - m);
    assert(ends_with_start(t));
    assert(end_marker_at(t, e));
    assert forall|k: int| e < k <= len - 2 * m implies !end_marker_at(t, k) by {
        lemma_no_marker_after(t, e, d, k);
    }
    assert(scan_floor(t) <= e);
    lemma_scan_finds(t, len - 2 * m, scan_floor(t), e);
    assert(trailer_end(t) == Some(e));
}

/// Appending a payload and then locating the trailer gives back the
/// payload's descriptor, with its size set to the payload's length, and
/// offsets that delimit exactly the payload's bytes.
pub proof fn lemma_append_then_locate(carrier: Seq<u8>, payload: Seq<u8>, v: SpecView)
    requires
        encodable(v),
        carrier.len() + payload.len() + descriptor_bytes(with_size(v, payload.len() as u64)).len()
            + 2 * MARKER_LEN <= u64::MAX,
        free_of_end_marker(descriptor_bytes(with_size(v, payload.len() as u64))),
        descriptor_bytes(with_size(v, payload.len() as u64)).len() + MARKER_LEN <= SCAN_CAP,
    ensures
        ({
            let f = combined_file(carrier, payload, v);
            let start = carrier.len();
            let end = carrier.len() + payload.len();
            &&& locate_file(f) == Ok::<Option<(SpecView, u64, u64)>, TrailerError>(
                Some((with_size(v, payload.len() as u64), start as u64, end as u64)),
            )
            &&& f.subrange(start as int, end as int) == payload
        }),
{
    let w = with_size(v, payload.len() as u64);
    let d = descriptor_bytes(w);
    let prefix = carrier + payload;
    lemma_descriptor_round_trip(w);
    lemma_locate_trailer(prefix, d);
    let f = combined_file(carrier, payload, v);
    assert(f =~= prefix + end_marker() + d + start_marker());
    assert(f.subrange(carrier.len() as int, prefix.len() as int) =~= payload);
}

/// The first bytes of a combined file are the carrier, unchanged.
pub proof fn lemma_carrier_preserved(carrier: Seq<u8>, payload: Seq<u8>, v: SpecView)
    ensures
        combined_file(carrier, payload, v).subrange(0, carrier.len() as int) == carrier,
{
    assert(combined_file(carrier, payload, v).subrange(0, carrier.len() as int) =~= carrier);
}

/// A file that does not end with the start marker holds no payload.
pub proof fn lemma_no_start_marker(f: Seq<u8>)
    requires
        f.len() <= u64::MAX,
        !ends_with_start(f),
    ensures
        locate_file(f) == Ok::<Option<(SpecView, u64, u64)>, TrailerError>(None),
{
    let t = tail_window(f);
    if t.len() >= MARKER_LEN {
        let m = MARKER_LEN as int;
        assert(t.subrange(t.len() - m, t.len() as int) =~= f.subrange(f.len() - m, f.len() as int));
    }
}

/// Flipping a byte of an embedded descriptor so that it no longer decodes
/// makes the locator report a corrupt trailer, not offsets. The new byte
/// must not form an end marker inside the descriptor.
pub proof fn lemma_corrupt_descriptor(
    carrier: Seq<u8>,
    payload: Seq<u8>,
    v: SpecView,
    i: int,
    b: u8,
)
    requires
        carrier.len() + payload.len() + descriptor_bytes(with_size(v, payload.len() as u64)).len()
            + 2 * MARKER_LEN <= u64::MAX,
        descriptor_bytes(with_size(v, payload.len() as u64)).len() + MARKER_LEN <= SCAN_CAP,
        0 <= i < descriptor_bytes(with_size(v, payload.len() as u64)).len(),
        free_of_end_marker(descriptor_bytes(with_size(v, payload.len() as u64)).update(i, b)),
        decode_descriptor(descriptor_bytes(with_size(v, payload.len() as u64)).update(i, b))
            is None,
    ensures
        ({
            let f = combined_file(carrier, payload, v);
            let pos = carrier.len() + payload.len() + MARKER_LEN + i;
            locate_file(f.update(pos, b)) == Err::<Option<(SpecView, u64, u64)>, TrailerError>(
                TrailerError::Undecodable,
            )
        }),
{
    let d = descriptor_bytes(with_size(v, payload.len() as u64)).update(i, b);
    let prefix = carrier + payload;
    lemma_locate_trailer(prefix, d);
    let f = combined_file(carrier, payload, v);
    let pos = carrier.len() + payload.len() + MARKER_LEN + i;
    assert(f.update(pos, b) =~= prefix + end_marker() + d + start_marker());
}

/// Two results that meet the locator's contract on the same input agree.
pub proof fn lemma_locate_deterministic(
    size: u64,
    tail: Seq<u8>,
    r1: Result<Option<(FileSpec, u64, u64)>, TrailerError>,
    r2: Result<Option<(FileSpec, u64, u64)>, TrailerError>,
)
    requires
        crate::locator::located_view(r1) == locate_model(size, tail),
        crate::locator::located_view(r2) == locate_model(size, tail),
    ensures
        crate::locator::located_view(r1) == crate::locator::located_view(r2),
{
}

/// Appending an empty payload gives a trailer whose payload range is
/// empty: its start and end offsets are both the carrier's length.
pub proof fn lemma_empty_payload(carrier: Seq<u8>, v: SpecView)
    requires
        encodable(v),
        carrier.len() + descriptor_bytes(with_size(v, 0)).len() + 2 * MARKER_LEN <= u64::MAX,
        free_of_end_marker(descriptor_bytes(with_size(v, 0))),
        descriptor_bytes(with_size(v, 0)).len() + MARKER_LEN <= SCAN_CAP,
    ensures
        locate_file(combined_file(carrier, Seq::empty(), v)) == Ok::<
            Option<(SpecView, u64, u64)>,
            TrailerError,
        >(Some((with_size(v, 0), carrier.len() as u64, carrier.len() as u64))),
{
    lemma_append_then_locate(carrier, Seq::empty(), v);
}

} // verus!
