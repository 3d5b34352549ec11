//! The descriptor of an embedded payload, its binary encoding and the two
//! markers that frame it.
//!
//! The descriptor is written with bincode's standard configuration: each
//! string as a variable-length integer holding its UTF-8 length followed by
//! its bytes, the size as a variable-length integer.

use vstd::prelude::*;
use vstd::utf8::*;

verus! {

/// Describes one file taking part in an append or an extraction.
#[derive(Clone, Debug, Default)]
pub struct FileSpec {
    pub path: String,
    pub name: String,
    pub size: u64,
    pub sizemb: String,
    pub extension: String,
}

/// The fields of a `FileSpec`, as mathematical values:
/// path, name, size, size text, extension.
pub type SpecView = (Seq<char>, Seq<char>, u64, Seq<char>, Seq<char>);

impl View for FileSpec {
    type V = SpecView;

    open spec fn view(&self) -> SpecView {
        (self.path@, self.name@, self.size, self.sizemb@, self.extension@)
    }
}

pub const MARKER_LEN: usize = 14;

/// The marker that closes a combined file: `RUSTAPPEND666S`.
pub open spec fn start_marker() -> Seq<u8> {
    seq![82u8, 85, 83, 84, 65, 80, 80, 69, 78, 68, 54, 54, 54, 83]
}

/// The marker between the payload and the descriptor: `RUSTAPPEND666E`.
pub open spec fn end_marker() -> Seq<u8> {
    seq![82u8, 85, 83, 84, 65, 80, 80, 69, 78, 68, 54, 54, 54, 69]
}

pub fn start_marker_bytes() -> (r: Vec<u8>)
    ensures
        r@ == start_marker(),
{
    let r = vec![82u8, 85, 83, 84, 65, 80, 80, 69, 78, 68, 54, 54, 54, 83];
    assert(r@ =~= start_marker());
    r
}

pub fn end_marker_bytes() -> (r: Vec<u8>)
    ensures
        r@ == end_marker(),
{
    let r = vec![82u8, 85, 83, 84, 65, 80, 80, 69, 78, 68, 54, 54, 54, 69];
    assert(r@ =~= end_marker());
    r
}

pub open spec fn pow256(n: nat) -> nat
    decreases n,
{
    if n == 0 {
        1
    } else {
        256 * pow256((n - 1) as nat)
    }
}

/// The `n` low bytes of `v`, least significant first.
pub open spec fn le_bytes(v: nat, n: nat) -> Seq<u8>
    decreases n,
{
    if n == 0 {
        seq![]
    } else {
        seq![(v % 256) as u8] + le_bytes(v / 256, (n - 1) as nat)
    }
}

/// The number whose bytes, least significant first, are `b`.
pub open spec fn le_value(b: Seq<u8>) -> nat
    decreases b.len(),
{
    if b.len() == 0 {
        0
    } else {
        b[0] as nat + 256 * le_value(b.drop_first())
    }
}

/// Variable-length encoding of an unsigned integer.
pub open spec fn varint_bytes(v: u64) -> Seq<u8> {
    if v <= 250 {
        seq![v as u8]
    } else if v <= 0xffff {
        seq![251u8] + le_bytes(v as nat, 2)
    } else if v <= 0xffff_ffff {
        seq![252u8] + le_bytes(v as nat, 4)
    } else {
        seq![253u8] + le_bytes(v as nat, 8)
    }
}

/// Reads a variable-length integer at the head of `b`: its value and the
/// number of bytes it takes. Wider forms are read even when the value
/// would have fit a narrower one.
pub open spec fn read_varint(b: Seq<u8>) -> Option<(u64, nat)> {
    if b.len() == 0 {
        None
    } else if b[0] <= 250 {
        Some((b[0] as u64, 1))
    } else {
        let w: nat = if b[0] == 251 {
            2
        } else if b[0] == 252 {
            4
        } else {
            8
        };
        if b[0] > 253 || b.len() < 1 + w {
            None
        } else {
            Some((le_value(b.subrange(1, (1 + w) as int)) as u64, (1 + w) as nat))
        }
    }
}

/// Encoding of one string field.
pub open spec fn field_bytes(s: Seq<char>) -> Seq<u8> {
    varint_bytes(encode_utf8(s).len() as u64) + encode_utf8(s)
}

/// Reads one length-prefixed field at the head of `b`: its bytes and the
/// number of bytes it takes in all.
pub open spec fn read_field(b: Seq<u8>) -> Option<(Seq<u8>, nat)> {
    match read_varint(b) {
        None => None,
        Some((n, k)) => if k + n <= b.len() {
            Some((b.subrange(k as int, (k + n) as int), (k + n) as nat))
        } else {
            None
        },
    }
}

/// The encoding of a descriptor.
pub open spec fn descriptor_bytes(v: SpecView) -> Seq<u8> {
    field_bytes(v.0) + field_bytes(v.1) + varint_bytes(v.2) + field_bytes(v.3) + field_bytes(v.4)
}

/// Splits the head of `b` into the five fields of a descriptor, the strings
/// as raw bytes, and says how many bytes they take.
pub open spec fn frame(b: Seq<u8>) -> Option<(Seq<u8>, Seq<u8>, u64, Seq<u8>, Seq<u8>, nat)> {
    match read_field(b) {
        None => None,
        Some((p, k1)) => match read_field(b.subrange(k1 as int, b.len() as int)) {
            None => None,
            Some((n, k2)) => match read_varint(b.subrange((k1 + k2) as int, b.len() as int)) {
                None => None,
                Some((s, k3)) => match read_field(b.subrange((k1 + k2 + k3) as int, b.len() as int)) {
                    None => None,
                    Some((t, k4)) => match read_field(
                        b.subrange((k1 + k2 + k3 + k4) as int, b.len() as int),
                    ) {
                        None => None,
                        Some((e, k5)) => Some((p, n, s, t, e, k1 + k2 + k3 + k4 + k5)),
                    },
                },
            },
        },
    }
}

/// The descriptor that `b` encodes, when `b` is exactly one well-formed
/// encoding with valid UTF-8 strings.
pub open spec fn decode_descriptor(b: Seq<u8>) -> Option<SpecView> {
    match frame(b) {
        None => None,
        Some((p, n, s, t, e, used)) => if used == b.len() && valid_utf8(p) && valid_utf8(n)
            && valid_utf8(t) && valid_utf8(e) {
            Some((decode_utf8(p), decode_utf8(n), s, decode_utf8(t), decode_utf8(e)))
        } else {
            None
        },
    }
}


proof fn lemma_le_round_trip(v: nat, n: nat)
    requires
        v < pow256(n),
    ensures
        le_bytes(v, n).len() == n,
        le_value(le_bytes(v, n)) == v,
    decreases n,
{
    if n > 0 {
        let m = (n - 1) as nat;
        assert(v / 256 < pow256(m)) by (nonlinear_arith)
            requires
                v < 256 * pow256(m),
        ;
        lemma_le_round_trip(v / 256, m);
        let b = le_bytes(v, n);
        assert(b.drop_first() =~= le_bytes(v / 256, m));
        assert(v == v % 256 + 256 * (v / 256)) by (nonlinear_arith);
    }
}

/// Reading back the encoding of `v` gives `v` and the length of its encoding.
pub proof fn lemma_varint_round_trip(v: u64, rest: Seq<u8>)
    ensures
        read_varint(varint_bytes(v) + rest) == Some((v, varint_bytes(v).len())),
{
    reveal_with_fuel(pow256, 9);
    let b = varint_bytes(v) + rest;
    if v > 250 {
        let w: nat = if v <= 0xffff {
            2
        } else if v <= 0xffff_ffff {
            4
        } else {
            8
        };
        lemma_le_round_trip(v as nat, w);
        assert(b.subrange(1, (1 + w) as int) =~= le_bytes(v as nat, w));
    }
}

/// Reading back the encoding of a string field gives its UTF-8 bytes.
pub proof fn lemma_field_round_trip(s: Seq<char>, rest: Seq<u8>)
    requires
        encode_utf8(s).len() <= u64::MAX,
    ensures
        read_field(field_bytes(s) + rest) == Some((encode_utf8(s), field_bytes(s).len())),
{
    let u = encode_utf8(s);
    let n = u.len() as u64;
    lemma_varint_round_trip(n, u + rest);
    let b = field_bytes(s) + rest;
    assert(b =~= varint_bytes(n) + (u + rest));
    let k = varint_bytes(n).len();
    assert(b.subrange(k as int, (k + n) as int) =~= u);
}

/// Every string of a descriptor fits the encoding's length prefix.
pub open spec fn encodable(v: SpecView) -> bool {
    &&& encode_utf8(v.0).len() <= u64::MAX
    &&& encode_utf8(v.1).len() <= u64::MAX
    &&& encode_utf8(v.3).len() <= u64::MAX
    &&& encode_utf8(v.4).len() <= u64::MAX
}

/// Decoding the encoding of a descriptor gives that descriptor back.
pub proof fn lemma_descriptor_round_trip(v: SpecView)
    requires
        encodable(v),
    ensures
        decode_descriptor(descriptor_bytes(v)) == Some(v),
        frame(descriptor_bytes(v)) matches Some(f) && f.5 == descriptor_bytes(v).len(),
{
    broadcast use encode_utf8_valid_utf8, encode_utf8_decode_utf8;

    let f0 = field_bytes(v.0);
    let f1 = field_bytes(v.1);
    let f2 = varint_bytes(v.2);
    let f3 = field_bytes(v.3);
    let f4 = field_bytes(v.4);
    let b = descriptor_bytes(v);
    let len = b.len() as int;
    let (k1, k2, k3, k4) = (f0.len(), f1.len(), f2.len(), f3.len());
    lemma_field_round_trip(v.0, f1 + f2 + f3 + f4);
    assert(b =~= f0 + (f1 + f2 + f3 + f4));
    lemma_field_round_trip(v.1, f2 + f3 + f4);
    assert(b.subrange(k1 as int, len) =~= f1 + (f2 + f3 + f4));
    lemma_varint_round_trip(v.2, f3 + f4);
    assert(b.subrange((k1 + k2) as int, len) =~= f2 + (f3 + f4));
    lemma_field_round_trip(v.3, f4);
    assert(b.subrange((k1 + k2 + k3) as int, len) =~= f3 + f4);
    lemma_field_round_trip(v.4, Seq::<u8>::empty());
    assert(b.subrange((k1 + k2 + k3 + k4) as int, len) =~= f4 + Seq::<u8>::empty());
}


proof fn lemma_pow256_small(k: nat)
    requires
        k <= 8,
    ensures
        pow256(k) <= pow256(8),
        pow256(8) == 0x1_0000_0000_0000_0000,
{
    reveal_with_fuel(pow256, 9);
}

/// The number held in `b[start..start + n]`, least significant byte first.
fn le_read(b: &[u8], start: usize, n: usize) -> (r: u64)
    requires
        n <= 8,
        start + n <= b@.len(),
    ensures
        r as nat == le_value(b@.subrange(start as int, (start + n) as int)),
{
    let len = b.len();
    let mut v: u64 = 0;
    let mut i: usize = n;
    assert(b@.subrange((start + n) as int, (start + n) as int).len() == 0);
    while i > 0
        invariant
            i <= n <= 8,
            len == b@.len(),
            start + n <= len,
            v as nat == le_value(b@.subrange((start + i) as int, (start + n) as int)),
            v < pow256((n - i) as nat),
        decreases i,
    {
        i = i - 1;
        let ghost s = b@.subrange((start + i) as int, (start + n) as int);
        assert(s.drop_first() =~= b@.subrange((start + i + 1) as int, (start + n) as int));
        let byte = b[start + i];
        proof {
            let k = (n - i) as nat;
            lemma_pow256_small(k);
            assert(pow256(k) == 256 * pow256((k - 1) as nat));
            assert(256 * v + byte < pow256(k)) by (nonlinear_arith)
                requires
                    v < pow256((k - 1) as nat),
                    byte < 256,
                    pow256(k) == 256 * pow256((k - 1) as nat),
            ;
        }
        v = v * 256 + byte as u64;
    }
    v
}

/// Reads a variable-length integer at `pos`: its value and its length.
fn read_varint_at(b: &[u8], pos: usize) -> (r: Option<(u64, usize)>)
    requires
        pos <= b@.len(),
    ensures
        match read_varint(b@.subrange(pos as int, b@.len() as int)) {
            None => r is None,
            Some((v, k)) => r == Some((v, k as usize)),
        },
        r matches Some((_, k)) ==> pos + k <= b@.len(),
{
    let ghost s = b@.subrange(pos as int, b@.len() as int);
    if pos >= b.len() {
        return None;
    }
    let tag = b[pos];
    if tag <= 250 {
        Some((tag as u64, 1))
    } else if tag > 253 {
        None
    } else {
        let w: usize = if tag == 251 {
            2
        } else if tag == 252 {
            4
        } else {
            8
        };
        if b.len() - pos < 1 + w {
            None
        } else {
            let v = le_read(b, pos + 1, w);
            assert(s.subrange(1, (1 + w) as int) =~= b@.subrange(
                (pos + 1) as int,
                (pos + 1 + w) as int,
            ));
            Some((v, 1 + w))
        }
    }
}

/// Reads a length-prefixed field at `pos`: the number of bytes it takes.
fn read_field_at(b: &[u8], pos: usize) -> (r: Option<usize>)
    requires
        pos <= b@.len(),
    ensures
        match read_field(b@.subrange(pos as int, b@.len() as int)) {
            None => r is None,
            Some((_, k)) => r == Some(k as usize),
        },
        r matches Some(k) ==> pos + k <= b@.len(),
{
    match read_varint_at(b, pos) {
        None => None,
        Some((n, k)) => {
            if n <= (b.len() - pos - k) as u64 {
                Some(k + n as usize)
            } else {
                None
            }
        },
    }
}

/// The number of bytes that the five fields of a descriptor take at the
/// head of `b`, when they are all there.
pub fn frame_len(b: &[u8]) -> (r: Option<usize>)
    ensures
        match frame(b@) {
            None => r is None,
            Some(f) => r == Some(f.5 as usize),
        },
{
    let len = b.len();
    let ghost bs = b@;
    assert(bs.subrange(0, len as int) =~= bs);
    let k1 = match read_field_at(b, 0) {
        None => return None,
        Some(k) => k,
    };
    let k2 = match read_field_at(b, k1) {
        None => return None,
        Some(k) => k,
    };
    let k3 = match read_varint_at(b, k1 + k2) {
        None => return None,
        Some((_, k)) => k,
    };
    let k4 = match read_field_at(b, k1 + k2 + k3) {
        None => return None,
        Some(k) => k,
    };
    let k5 = match read_field_at(b, k1 + k2 + k3 + k4) {
        None => return None,
        Some(k) => k,
    };
    Some(k1 + k2 + k3 + k4 + k5)
}

/// Every string that `frame` finds in `b` is valid UTF-8.
pub open spec fn frame_is_utf8(b: Seq<u8>) -> bool {
    match frame(b) {
        Some((p, n, _, t, e, _)) => valid_utf8(p) && valid_utf8(n) && valid_utf8(t) && valid_utf8(e),
        None => false,
    }
}

/// `f` holds the fields that `frame` finds in `b`, decoded, and `k` their length.
pub open spec fn frame_decodes_to(
    b: Seq<u8>,
    f: (String, String, u64, String, String),
    k: usize,
) -> bool {
    match frame(b) {
        Some((p, n, s, t, e, used)) => f.0@ == decode_utf8(p) && f.1@ == decode_utf8(n) && f.2
            == s && f.3@ == decode_utf8(t) && f.4@ == decode_utf8(e) && k == used,
        None => false,
    }
}

#[verifier::external_type_specification]
#[verifier::external_body]
pub struct ExDecodeError(bincode::error::DecodeError);

#[verifier::external_type_specification]
#[verifier::external_body]
pub struct ExEncodeError(bincode::error::EncodeError);

/// Relies on `bincode::encode_to_vec` with `config::standard()` on the
/// tuple of the five fields: variable-length integers, each string as its
/// length and its UTF-8 bytes, fields in order; writing into a `Vec` does
/// not fail.
#[verifier::external_body]
fn bincode_encode(d: &FileSpec) -> (r: Result<Vec<u8>, bincode::error::EncodeError>)
    ensures
        r is Ok,
        r matches Ok(v) ==> v@ == descriptor_bytes(d@),
{
    bincode::encode_to_vec(
        (&d.path, &d.name, d.size, &d.sizemb, &d.extension),
        bincode::config::standard(),
    )
}

/// Relies on `bincode::decode_from_slice` with `config::standard()` for the
/// tuple of the five fields: it reads the fields as `frame` splits them and
/// fails exactly when one of the strings is not valid UTF-8. The framing is
/// checked first, so that no length prefix asks for more than the slice
/// holds (bincode would allocate it before reading).
#[verifier::external_body]
fn bincode_decode(bytes: &[u8]) -> (r: Result<
    ((String, String, u64, String, String), usize),
    bincode::error::DecodeError,
>)
    requires
        frame(bytes@) is Some,
    ensures
        r is Ok <==> frame_is_utf8(bytes@),
        r matches Ok((f, k)) ==> frame_decodes_to(bytes@, f, k),
{
    bincode::decode_from_slice(bytes, bincode::config::standard())
}

/// The encoded form of a descriptor, as it is stored in a trailer.
pub fn encode_descriptor(d: &FileSpec) -> (r: Vec<u8>)
    ensures
        r@ == descriptor_bytes(d@),
{
    match bincode_encode(d) {
        Ok(v) => v,
        Err(_) => Vec::new(),
    }
}

/// The descriptor that `b` encodes; `None` where `b` is truncated, holds
/// trailing bytes, or holds a string that is not valid UTF-8.
pub fn decode_descriptor_bytes(b: &[u8]) -> (r: Option<FileSpec>)
    ensures
        match decode_descriptor(b@) {
            None => r is None,
            Some(v) => r matches Some(f) && f@ == v,
        },
{
    match frame_len(b) {
        None => None,
        Some(used) => {
            if used != b.len() {
                return None;
            }
            match bincode_decode(b) {
                Ok((f, _)) => Some(
                    FileSpec { path: f.0, name: f.1, size: f.2, sizemb: f.3, extension: f.4 },
                ),
                Err(_) => None,
            }
        },
    }
}

} // verus!
