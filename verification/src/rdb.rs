//! The snapshot file format: length encodings, integer string encodings,
//! whole-file save and load, and the CRC-64 tail. The encoder and decoder
//! are specified as mathematical functions and the round trip between them
//! is proved.

use vstd::prelude::*;
use crate::num::dec_rep;
use crate::store::{Object, ObjV, Str, StrV, str_encode_spec, str_decode_spec, obj_wf};

verus! {

pub const OPCODE_AUX: u8 = 0xfa;
pub const OPCODE_RESIZEDB: u8 = 0xfb;
pub const OPCODE_EXPIRETIME_MS: u8 = 0xfc;
pub const OPCODE_EXPIRETIME: u8 = 0xfd;
pub const OPCODE_SELECTDB: u8 = 0xfe;
pub const OPCODE_EOF: u8 = 0xff;

pub const TYPE_STRING: u8 = 0;

pub const FORMAT_INT8: u8 = 0;
pub const FORMAT_INT16: u8 = 1;
pub const FORMAT_INT32: u8 = 2;
pub const FORMAT_LZF: u8 = 3;

/// A decoded length marker: either a plain length or one of the special
/// string formats.
#[derive(Debug, PartialEq, Eq, Structural, Clone, Copy)]
pub enum Length {
    Len(usize),
    Int8,
    Int16,
    Int32,
    Lzf,
}

/// The 64-bit checksum that the crc crate computes with the Redis
/// polynomial; a function of the bytes alone.
pub uninterp spec fn crc64_of(s: Seq<u8>) -> u64;

/// Relies on crc::Crc::<u64>::new with crc::CRC_64_REDIS and its checksum
/// method: together they compute a checksum that depends only on the bytes.
#[verifier::external_body]
fn crc64(data: &[u8]) -> (r: u64)
    ensures
        r == crc64_of(data@),
{
    crc::Crc::<u64>::new(&crc::CRC_64_REDIS).checksum(data)
}

/// The four big-endian bytes of a 32-bit value.
pub open spec fn u32_be(v: u32) -> Seq<u8> {
    seq![
        (v / 0x1000000 % 256) as u8,
        (v / 0x10000 % 256) as u8,
        (v / 0x100 % 256) as u8,
        (v % 256) as u8,
    ]
}

/// The eight big-endian bytes of a 64-bit value.
pub open spec fn u64_be(v: u64) -> Seq<u8> {
    seq![
        (v / 0x100000000000000 % 256) as u8,
        (v / 0x1000000000000 % 256) as u8,
        (v / 0x10000000000 % 256) as u8,
        (v / 0x100000000 % 256) as u8,
        (v / 0x1000000 % 256) as u8,
        (v / 0x10000 % 256) as u8,
        (v / 0x100 % 256) as u8,
        (v % 256) as u8,
    ]
}

/// The eight little-endian bytes of a 64-bit value.
pub open spec fn u64_le(v: u64) -> Seq<u8> {
    seq![
        (v % 256) as u8,
        (v / 0x100 % 256) as u8,
        (v / 0x10000 % 256) as u8,
        (v / 0x1000000 % 256) as u8,
        (v / 0x100000000 % 256) as u8,
        (v / 0x10000000000 % 256) as u8,
        (v / 0x1000000000000 % 256) as u8,
        (v / 0x100000000000000 % 256) as u8,
    ]
}

/// The value eight little-endian bytes denote.
pub open spec fn u64_le_val(s: Seq<u8>, pos: int) -> int {
    s[pos] + s[pos + 1] * 0x100 + s[pos + 2] * 0x10000 + s[pos + 3] * 0x1000000 + s[pos + 4]
        * 0x100000000 + s[pos + 5] * 0x10000000000 + s[pos + 6] * 0x1000000000000 + s[pos + 7]
        * 0x100000000000000
}

/// The value four big-endian bytes denote.
pub open spec fn u32_be_val(s: Seq<u8>, pos: int) -> int {
    s[pos] * 0x1000000 + s[pos + 1] * 0x10000 + s[pos + 2] * 0x100 + s[pos + 3]
}

/// The value eight big-endian bytes denote.
pub open spec fn u64_be_val(s: Seq<u8>, pos: int) -> int {
    s[pos] * 0x100000000000000 + s[pos + 1] * 0x1000000000000 + s[pos + 2] * 0x10000000000 + s[pos
        + 3] * 0x100000000 + s[pos + 4] * 0x1000000 + s[pos + 5] * 0x10000 + s[pos + 6] * 0x100
        + s[pos + 7]
}

pub proof fn lemma_u64_le_roundtrip(v: u64)
    ensures
        u64_le_val(u64_le(v), 0) == v,
{
    let s = u64_le(v);
    assert((v % 256) + (v / 0x100 % 256) * 0x100 + (v / 0x10000 % 256) * 0x10000 + (v / 0x1000000
        % 256) * 0x1000000 + (v / 0x100000000 % 256) * 0x100000000 + (v / 0x10000000000 % 256)
        * 0x10000000000 + (v / 0x1000000000000 % 256) * 0x1000000000000 + (v / 0x100000000000000
        % 256) * 0x100000000000000 == v) by (bit_vector);
}

pub proof fn lemma_u64_be_roundtrip(v: u64)
    ensures
        u64_be_val(u64_be(v), 0) == v,
{
    assert((v / 0x100000000000000 % 256) * 0x100000000000000 + (v / 0x1000000000000 % 256)
        * 0x1000000000000 + (v / 0x10000000000 % 256) * 0x10000000000 + (v / 0x100000000 % 256)
        * 0x100000000 + (v / 0x1000000 % 256) * 0x1000000 + (v / 0x10000 % 256) * 0x10000 + (v
        / 0x100 % 256) * 0x100 + (v % 256) == v) by (bit_vector);
}

pub proof fn lemma_u32_be_roundtrip(v: u32)
    ensures
        u32_be_val(u32_be(v), 0) == v,
{
    assert((v / 0x1000000 % 256) * 0x1000000 + (v / 0x10000 % 256) * 0x10000 + (v / 0x100 % 256)
        * 0x100 + (v % 256) == v) by (bit_vector);
}

/// Appends the four big-endian bytes of `v`.
pub fn push_u32_be(buf: &mut Vec<u8>, v: u32)
    ensures
        final(buf)@ == old(buf)@ + u32_be(v),
{
    let ghost start = buf@;
    buf.push((v / 0x1000000 % 256) as u8);
    buf.push((v / 0x10000 % 256) as u8);
    buf.push((v / 0x100 % 256) as u8);
    buf.push((v % 256) as u8);
    proof {
        assert(buf@ =~= start + u32_be(v));
    }
}

/// Appends the eight big-endian bytes of `v`.
pub fn push_u64_be(buf: &mut Vec<u8>, v: u64)
    ensures
        final(buf)@ == old(buf)@ + u64_be(v),
{
    let ghost start = buf@;
    buf.push((v / 0x100000000000000 % 256) as u8);
    buf.push((v / 0x1000000000000 % 256) as u8);
    buf.push((v / 0x10000000000 % 256) as u8);
    buf.push((v / 0x100000000 % 256) as u8);
    buf.push((v / 0x1000000 % 256) as u8);
    buf.push((v / 0x10000 % 256) as u8);
    buf.push((v / 0x100 % 256) as u8);
    buf.push((v % 256) as u8);
    proof {
        assert(buf@ =~= start + u64_be(v));
    }
}

/// Appends the eight little-endian bytes of `v`.
pub fn push_u64_le(buf: &mut Vec<u8>, v: u64)
    ensures
        final(buf)@ == old(buf)@ + u64_le(v),
{
    let ghost start = buf@;
    buf.push((v % 256) as u8);
    buf.push((v / 0x100 % 256) as u8);
    buf.push((v / 0x10000 % 256) as u8);
    buf.push((v / 0x1000000 % 256) as u8);
    buf.push((v / 0x100000000 % 256) as u8);
    buf.push((v / 0x10000000000 % 256) as u8);
    buf.push((v / 0x1000000000000 % 256) as u8);
    buf.push((v / 0x100000000000000 % 256) as u8);
    proof {
        assert(buf@ =~= start + u64_le(v));
    }
}

/// The length encoding: six bits in one byte, fourteen bits in two, or a
/// marker byte followed by four big-endian bytes; the special formats use
/// the two high bits set.
pub open spec fn length_enc(len: u32, special: Option<u8>) -> Seq<u8> {
    match special {
        Option::Some(s) => seq![(192 + s) as u8],
        Option::None => {
            if len < 64 {
                seq![len as u8]
            } else if len < 16384 {
                seq![(64 + len / 256) as u8, (len % 256) as u8]
            } else {
                seq![128u8] + u32_be(len)
            }
        }
    }
}

/// Appends the length encoding of `len`, or of the special format `s`.
pub fn encode_length(buf: &mut Vec<u8>, len: u32, special_format: Option<u8>)
    requires
        special_format matches Some(s) ==> s < 64,
    ensures
        final(buf)@ == old(buf)@ + length_enc(len, special_format),
{
    let ghost start = buf@;
    match special_format {
        Some(s) => {
            buf.push(192 + s);
            proof {
                assert(buf@ =~= start + length_enc(len, special_format));
            }
        }
        None => {
            if len < 64 {
                buf.push(len as u8);
                proof {
                    assert(buf@ =~= start + length_enc(len, special_format));
                }
            } else if len < 16384 {
                buf.push((64 + len / 256) as u8);
                buf.push((len % 256) as u8);
                proof {
                    assert(buf@ =~= start + length_enc(len, special_format));
                }
            } else {
                buf.push(128);
                push_u32_be(buf, len);
                proof {
                    assert(buf@ =~= start + length_enc(len, special_format));
                }
            }
        }
    }
}

/// What a length marker at `pos` decodes to, and the position just past it.
pub open spec fn spec_decode_length(s: Seq<u8>, pos: int) -> Option<(Length, int)> {
    if !(0 <= pos < s.len()) {
        None
    } else {
        let b = s[pos] as int;
        if b < 64 {
            Some((Length::Len(b as usize), pos + 1))
        } else if b < 128 {
            if pos + 1 < s.len() {
                Some((Length::Len(((b - 64) * 256 + s[pos + 1]) as usize), pos + 2))
            } else {
                None
            }
        } else if b < 192 {
            if pos + 5 <= s.len() && u32_be_val(s, pos + 1) <= usize::MAX {
                Some((Length::Len(u32_be_val(s, pos + 1) as usize), pos + 5))
            } else {
                None
            }
        } else {
            let f = b - 192;
            if f == 0 {
                Some((Length::Int8, pos + 1))
            } else if f == 1 {
                Some((Length::Int16, pos + 1))
            } else if f == 2 {
                Some((Length::Int32, pos + 1))
            } else if f == 3 {
                Some((Length::Lzf, pos + 1))
            } else {
                None
            }
        }
    }
}

/// Reads one length marker; agrees exactly with `spec_decode_length`.
pub fn decode_length(buf: &[u8], pos: usize) -> (r: Option<(Length, usize)>)
    ensures
        match r {
            Some((l, n)) => pos < n <= buf@.len() && spec_decode_length(buf@, pos as int) == Some(
                (l, n as int),
            ),
            None => spec_decode_length(buf@, pos as int) is None,
        },
{
    if pos >= buf.len() {
        return None;
    }
    let b = buf[pos];
    if b < 64 {
        Some((Length::Len(b as usize), pos + 1))
    } else if b < 128 {
        if pos + 1 < buf.len() {
            let v: usize = (b as usize - 64) * 256 + buf[pos + 1] as usize;
            Some((Length::Len(v), pos + 2))
        } else {
            None
        }
    } else if b < 192 {
        if buf.len() - pos >= 5 {
            let v0 = buf[pos + 1] as u64;
            let v1 = buf[pos + 2] as u64;
            let v2 = buf[pos + 3] as u64;
            let v3 = buf[pos + 4] as u64;
            let v: u64 = v0 * 0x1000000 + v1 * 0x10000 + v2 * 0x100 + v3;
            if v <= usize::MAX as u64 {
                Some((Length::Len(v as usize), pos + 5))
            } else {
                None
            }
        } else {
            None
        }
    } else {
        let f = b - 192;
        if f == 0 {
            Some((Length::Int8, pos + 1))
        } else if f == 1 {
            Some((Length::Int16, pos + 1))
        } else if f == 2 {
            Some((Length::Int32, pos + 1))
        } else if f == 3 {
            Some((Length::Lzf, pos + 1))
        } else {
            None
        }
    }
}

/// Decoding a plain length encoding yields the length back, wherever it
/// stands.
pub proof fn lemma_length_roundtrip(len: u32, s: Seq<u8>, pos: int)
    requires
        0 <= pos,
        len <= usize::MAX,
        pos + length_enc(len, Option::None).len() <= s.len(),
        s.subrange(pos, pos + length_enc(len, Option::None).len() as int) == length_enc(
            len,
            Option::None,
        ),
    ensures
        spec_decode_length(s, pos) == Some(
            (Length::Len(len as usize), pos + length_enc(len, Option::None).len()),
        ),
{
    let enc = length_enc(len, Option::None);
    assert forall|j: int| pos <= j < pos + enc.len() implies #[trigger] s[j] == enc[j - pos] by {
        assert(enc[j - pos] == s.subrange(pos, pos + enc.len() as int)[j - pos]);
    }
    if len < 64 {
        assert(s[pos] == len as u8);
    } else if len < 16384 {
        assert(s[pos] == (64 + len / 256) as u8);
        assert(s[pos + 1] == (len % 256) as u8);
        assert((s[pos] as int) < 128);
        assert((s[pos] - 64) * 256 + s[pos + 1] == len) by {
            vstd::arithmetic::div_mod::lemma_fundamental_div_mod(len as int, 256);
        }
    } else {
        assert(s[pos] == 128u8);
        assert(s[pos + 1] == (len / 0x1000000 % 256) as u8);
        assert(s[pos + 2] == (len / 0x10000 % 256) as u8);
        assert(s[pos + 3] == (len / 0x100 % 256) as u8);
        assert(s[pos + 4] == (len % 256) as u8);
        lemma_u32_be_roundtrip(len);
        assert(u32_be_val(s, pos + 1) == u32_be_val(u32_be(len), 0));
    }
}



/// The little-endian encoding of a small integer value with its format
/// marker, by width.
pub open spec fn int_enc(v: i32) -> Seq<u8> {
    if -128 <= v < 128 {
        seq![192u8, (v as u8)]
    } else if -32768 <= v < 32768 {
        seq![193u8, (((v as u16) % 256) as u8), (((v as u16) / 256) as u8)]
    } else {
        seq![194u8] + seq![
            (((v as u32) % 256) as u8),
            (((v as u32) / 0x100 % 256) as u8),
            (((v as u32) / 0x10000 % 256) as u8),
            (((v as u32) / 0x1000000 % 256) as u8),
        ]
    }
}

/// A byte blob: its length encoding followed by the bytes themselves.
pub open spec fn blob_enc(b: Seq<u8>) -> Seq<u8> {
    length_enc(b.len() as u32, Option::None) + b
}

/// The encoding of one string value: integers that fit 32 bits use a
/// compact form, everything else is stored as its canonical bytes.
pub open spec fn strval_enc(v: StrV) -> Seq<u8> {
    match v {
        StrV::Int(i) => if i32::MIN <= i <= i32::MAX {
            int_enc(i as i32)
        } else {
            blob_enc(crate::num::dec_rep_i64(i as int))
        },
        StrV::Raw(b) => blob_enc(b),
    }
}

/// The encoding of one keyspace entry; an entry already dead at `now` is
/// skipped entirely.
pub open spec fn entry_enc(k: Seq<u8>, o: ObjV, now: u64) -> Seq<u8> {
    match o.expire {
        Option::Some(e) => if e < now {
            Seq::empty()
        } else {
            seq![252u8] + u64_le(e) + seq![0u8] + blob_enc(k) + strval_enc(o.value)
        },
        Option::None => seq![0u8] + blob_enc(k) + strval_enc(o.value),
    }
}

pub open spec fn entries_enc(entries: Seq<(Seq<u8>, ObjV)>, now: u64) -> Seq<u8>
    decreases entries.len(),
{
    if entries.len() == 0 {
        Seq::empty()
    } else {
        entry_enc(entries[0].0, entries[0].1, now) + entries_enc(entries.drop_first(), now)
    }
}

/// The magic bytes `REDIS`.
pub open spec fn magic() -> Seq<u8> {
    seq![82u8, 69u8, 68u8, 73u8, 83u8]
}

/// The body of a snapshot: magic, version, database selector, entries, and
/// the end marker.
pub open spec fn snapshot_body(entries: Seq<(Seq<u8>, ObjV)>, version: u32, now: u64) -> Seq<u8> {
    magic() + u32_be(version) + seq![254u8, 0u8] + entries_enc(entries, now) + seq![255u8]
}

/// A whole snapshot: the body followed by its checksum, or by zero when
/// checksums are disabled.
pub open spec fn snapshot_enc(
    entries: Seq<(Seq<u8>, ObjV)>,
    version: u32,
    enable_checksum: bool,
    now: u64,
) -> Seq<u8> {
    let body = snapshot_body(entries, version, now);
    body + u64_be(if enable_checksum { crc64_of(body) } else { 0u64 })
}

/// A decoded byte blob and the position just past it.
pub open spec fn spec_dec_blob(s: Seq<u8>, pos: int) -> Option<(Seq<u8>, int)> {
    match spec_decode_length(s, pos) {
        Some((Length::Len(n), p)) => if p + n <= s.len() {
            Some((s.subrange(p, p + n), p + n))
        } else {
            None
        },
        _ => None,
    }
}

/// A decoded string value and the position just past it. Raw and
/// LZF-compressed bytes are re-encoded by the store's rule on arrival.
pub open spec fn spec_dec_strval(s: Seq<u8>, pos: int) -> Option<(StrV, int)> {
    match spec_decode_length(s, pos) {
        Some((Length::Len(n), p)) => if p + n <= s.len() {
            Some((str_encode_spec(s.subrange(p, p + n)), p + n))
        } else {
            None
        },
        Some((Length::Int8, p)) => if p + 1 <= s.len() {
            Some((StrV::Int((s[p] as i8) as i64), p + 1))
        } else {
            None
        },
        Some((Length::Int16, p)) => if p + 2 <= s.len() {
            Some((StrV::Int((((s[p] + s[p + 1] * 0x100) as u16) as i16) as i64), p + 2))
        } else {
            None
        },
        Some((Length::Int32, p)) => if p + 4 <= s.len() {
            Some(
                (
                    StrV::Int(
                        (((s[p] + s[p + 1] * 0x100 + s[p + 2] * 0x10000 + s[p + 3]
                            * 0x1000000) as u32) as i32) as i64,
                    ),
                    p + 4,
                ),
            )
        } else {
            None
        },
        Some((Length::Lzf, p)) => match spec_decode_length(s, p) {
            Some((Length::Len(clen), p2)) => match spec_decode_length(s, p2) {
                Some((Length::Len(_ulen), p3)) => if p3 + clen <= s.len() {
                    match crate::lzf::lzf_decode(s.subrange(p3, p3 + clen)) {
                        Some(b) => Some((str_encode_spec(b), p3 + clen)),
                        None => None,
                    }
                } else {
                    None
                },
                _ => None,
            },
            _ => None,
        },
        None => None,
    }
}

/// A decoded entry: an optional expiration, the string type byte, the key,
/// and the value.
pub open spec fn spec_dec_entry(s: Seq<u8>, pos: int) -> Option<((Seq<u8>, ObjV), int)> {
    if !(0 <= pos < s.len()) {
        None
    } else if s[pos] == 252 {
        if pos + 10 <= s.len() && s[pos + 9] == 0 {
            let e = u64_le_val(s, pos + 1) as u64;
            match spec_dec_blob(s, pos + 10) {
                Some((k, p)) => match spec_dec_strval(s, p) {
                    Some((v, p2)) => Some(((k, ObjV { value: v, expire: Some(e) }), p2)),
                    None => None,
                },
                None => None,
            }
        } else {
            None
        }
    } else if s[pos] == 253 {
        if pos + 6 <= s.len() && s[pos + 5] == 0 {
            let secs = s[pos + 1] + s[pos + 2] * 0x100 + s[pos + 3] * 0x10000 + s[pos + 4]
                * 0x1000000;
            match spec_dec_blob(s, pos + 6) {
                Some((k, p)) => match spec_dec_strval(s, p) {
                    Some((v, p2)) => Some(
                        ((k, ObjV { value: v, expire: Some((secs * 1000) as u64) }), p2),
                    ),
                    None => None,
                },
                None => None,
            }
        } else {
            None
        }
    } else if s[pos] == 0 {
        match spec_dec_blob(s, pos + 1) {
            Some((k, p)) => match spec_dec_strval(s, p) {
                Some((v, p2)) => Some(((k, ObjV { value: v, expire: None }), p2)),
                None => None,
            },
            None => None,
        }
    } else {
        None
    }
}

/// The run of entries up to, but not consuming, the end-of-file marker.
pub open spec fn spec_dec_entries(s: Seq<u8>, pos: int) -> Option<(Seq<(Seq<u8>, ObjV)>, int)>
    decreases s.len() - pos,
{
    if !(0 <= pos < s.len()) {
        None
    } else if s[pos] == 255 {
        Some((Seq::empty(), pos))
    } else {
        match spec_dec_entry(s, pos) {
            Some((kv, p)) => if pos < p <= s.len() {
                match spec_dec_entries(s, p) {
                    Some((rest, e)) => Some((seq![kv] + rest, e)),
                    None => None,
                }
            } else {
                None
            },
            None => None,
        }
    }
}

/// The position just past any auxiliary fields.
pub open spec fn spec_skip_aux(s: Seq<u8>, pos: int) -> Option<int>
    decreases s.len() - pos,
{
    if !(0 <= pos < s.len()) {
        None
    } else if s[pos] != 250 {
        Some(pos)
    } else {
        match spec_dec_blob(s, pos + 1) {
            Some((_k, p)) => match spec_dec_strval(s, p) {
                Some((_v, p2)) => if pos < p2 <= s.len() {
                    spec_skip_aux(s, p2)
                } else {
                    None
                },
                None => None,
            },
            None => None,
        }
    }
}

/// The position just past the optional database selector.
pub open spec fn spec_skip_selectdb(s: Seq<u8>, pos: int) -> Option<int> {
    if !(0 <= pos < s.len()) {
        None
    } else if s[pos] == 254 {
        match spec_decode_length(s, pos + 1) {
            Some((Length::Len(_), p)) => Some(p),
            _ => None,
        }
    } else {
        Some(pos)
    }
}

/// The position just past the optional resize hint.
pub open spec fn spec_skip_resizedb(s: Seq<u8>, pos: int) -> Option<int> {
    if !(0 <= pos < s.len()) {
        None
    } else if s[pos] == 251 {
        match spec_decode_length(s, pos + 1) {
            Some((Length::Len(_), p)) => match spec_decode_length(s, p) {
                Some((Length::Len(_), p2)) => Some(p2),
                _ => None,
            },
            _ => None,
        }
    } else {
        Some(pos)
    }
}

/// What a whole snapshot file denotes. The checksum tail must be present;
/// when checksums are enabled and the stored value is nonzero it must match
/// the checksum of everything before it.
pub open spec fn spec_dec_snapshot(s: Seq<u8>, enable_checksum: bool) -> Option<
    Seq<(Seq<u8>, ObjV)>,
> {
    if s.len() < 9 || s.subrange(0, 5) != magic() {
        None
    } else {
        match spec_skip_aux(s, 9) {
            Some(p1) => match spec_skip_selectdb(s, p1) {
                Some(p2) => match spec_skip_resizedb(s, p2) {
                    Some(p3) => match spec_dec_entries(s, p3) {
                        Some((es, p4)) => if p4 + 9 == s.len() {
                            let c = u64_be_val(s, p4 + 1) as u64;
                            if enable_checksum && c != 0 && c != crc64_of(
                                s.subrange(0, p4 + 1),
                            ) {
                                None
                            } else {
                                Some(es)
                            }
                        } else {
                            None
                        },
                        None => None,
                    },
                    None => None,
                },
                None => None,
            },
            None => None,
        }
    }
}


/// The shapes of a list of key/object pairs.
pub open spec fn kvs_view(s: Seq<(Vec<u8>, Object)>) -> Seq<(Seq<u8>, ObjV)>
    decreases s,
{
    if s.len() == 0 {
        Seq::empty()
    } else {
        kvs_view(s.drop_last()).push((s.last().0@, s.last().1@))
    }
}

pub proof fn lemma_kvs_view(s: Seq<(Vec<u8>, Object)>)
    ensures
        kvs_view(s).len() == s.len(),
        forall|i: int|
            0 <= i < s.len() ==> #[trigger] kvs_view(s)[i] == (s[i].0@, s[i].1@),
    decreases s,
{
    if s.len() > 0 {
        lemma_kvs_view(s.drop_last());
        assert(kvs_view(s) == kvs_view(s.drop_last()).push((s.last().0@, s.last().1@)));
        assert forall|i: int|
            0 <= i < s.len() implies #[trigger] kvs_view(s)[i] == (s[i].0@, s[i].1@) by {
            if i < s.len() - 1 {
                assert(kvs_view(s)[i] == kvs_view(s.drop_last())[i]);
                assert(s.drop_last()[i] == s[i]);
            }
        }
    }
}

pub proof fn lemma_entries_enc_push(es: Seq<(Seq<u8>, ObjV)>, e: (Seq<u8>, ObjV), now: u64)
    ensures
        entries_enc(es.push(e), now) == entries_enc(es, now) + entry_enc(e.0, e.1, now),
    decreases es,
{
    if es.len() == 0 {
        let p = es.push(e);
        assert(p[0] == e);
        assert(p.drop_first() =~= Seq::<(Seq<u8>, ObjV)>::empty());
        assert(entries_enc(p.drop_first(), now) == Seq::<u8>::empty());
        assert(entry_enc(e.0, e.1, now) + Seq::<u8>::empty() =~= entry_enc(e.0, e.1, now));
        assert(Seq::<u8>::empty() + entry_enc(e.0, e.1, now) =~= entry_enc(e.0, e.1, now));
    } else {
        assert(es.push(e).drop_first() =~= es.drop_first().push(e));
        lemma_entries_enc_push(es.drop_first(), e, now);
        assert(es.push(e)[0] == es[0]);
        assert(entry_enc(es[0].0, es[0].1, now) + (entries_enc(es.drop_first(), now) + entry_enc(
            e.0,
            e.1,
            now,
        )) =~= (entry_enc(es[0].0, es[0].1, now) + entries_enc(es.drop_first(), now)) + entry_enc(
            e.0,
            e.1,
            now,
        ));
    }
}

/// Why a snapshot could not be produced or read.
#[derive(Debug, PartialEq, Eq, Structural, Clone, Copy)]
pub enum RdbError {
    /// The file does not begin with the magic bytes.
    BadMagic,
    /// An entry uses a value type the decoder does not support.
    UnsupportedRdbType,
    /// The stored checksum does not match the bytes.
    ChecksumMismatch,
    /// The file ends early or an encoding inside it is malformed.
    Corrupt,
    /// A key or value is too long for the length encoding.
    TooLong,
}

/// A key or raw value must fit the four-byte length encoding.
pub open spec fn entry_fits(k: Seq<u8>, o: ObjV) -> bool {
    &&& k.len() <= u32::MAX
    &&& (o.value matches StrV::Raw(b) ==> b.len() <= u32::MAX)
}

/// Appends a length-prefixed byte blob.
pub fn encode_key(buf: &mut Vec<u8>, key: &[u8])
    requires
        key@.len() <= u32::MAX,
    ensures
        final(buf)@ == old(buf)@ + blob_enc(key@),
{
    let ghost start = buf@;
    encode_length(buf, key.len() as u32, None);
    crate::frame::append_all(buf, key);
    proof {
        assert(buf@ =~= start + blob_enc(key@));
    }
}

/// Appends a length-prefixed byte blob holding a value.
pub fn encode_raw(buf: &mut Vec<u8>, value: &[u8])
    requires
        value@.len() <= u32::MAX,
    ensures
        final(buf)@ == old(buf)@ + blob_enc(value@),
{
    encode_key(buf, value);
}

/// Appends the compact integer encoding of `value`.
pub fn encode_int(buf: &mut Vec<u8>, value: i32)
    ensures
        final(buf)@ == old(buf)@ + int_enc(value),
{
    let ghost start = buf@;
    if value >= -128 && value < 128 {
        buf.push(192);
        #[verifier::truncate]
        let b = value as u8;
        buf.push(b);
        proof {
            assert(buf@ =~= start + int_enc(value));
        }
    } else if value >= -32768 && value < 32768 {
        buf.push(193);
        #[verifier::truncate]
        let w = (value as i16) as u16;
        buf.push((w % 256) as u8);
        buf.push((w / 256) as u8);
        proof {
            assert(buf@ =~= start + int_enc(value));
        }
    } else {
        buf.push(194);
        #[verifier::truncate]
        let w = value as u32;
        buf.push((w % 256) as u8);
        buf.push((w / 0x100 % 256) as u8);
        buf.push((w / 0x10000 % 256) as u8);
        buf.push((w / 0x1000000 % 256) as u8);
        proof {
            assert(buf@ =~= start + int_enc(value));
        }
    }
}

/// Appends the encoding of one entry, skipping it when already expired.
pub fn encode_string_kv(buf: &mut Vec<u8>, key: &[u8], obj: &Object, now_ms: u64)
    requires
        entry_fits(key@, obj@),
    ensures
        final(buf)@ == old(buf)@ + entry_enc(key@, obj@, now_ms),
{
    let ghost start = buf@;
    match obj.expire {
        Some(e) => {
            if e < now_ms {
                proof {
                    assert(buf@ =~= start + entry_enc(key@, obj@, now_ms));
                }
                return;
            }
            buf.push(OPCODE_EXPIRETIME_MS);
            push_u64_le(buf, e);
        }
        None => {}
    }
    buf.push(TYPE_STRING);
    encode_key(buf, key);
    match &obj.value {
        Str::Int(i) => {
            let iv = *i;
            if iv >= i32::MIN as i64 && iv <= i32::MAX as i64 {
                encode_int(buf, iv as i32);
            } else {
                let d = crate::num::i64_to_dec(iv);
                proof {
                    crate::num::lemma_dec_rep_i64_len(iv as int);
                }
                encode_raw(buf, d.as_slice());
            }
        }
        Str::Raw(b) => {
            encode_raw(buf, b.as_slice());
        }
    }
    proof {
        assert(buf@ =~= start + entry_enc(key@, obj@, now_ms));
    }
}

/// Serializes a whole keyspace to snapshot bytes. Fails only when a key or
/// value is too long for the format.
pub fn rdb_save(
    entries: &Vec<(Vec<u8>, Object)>,
    version: u32,
    enable_checksum: bool,
    now_ms: u64,
) -> (r: Result<Vec<u8>, RdbError>)
    ensures
        (forall|i: int|
            0 <= i < entries@.len() ==> entry_fits(
                (#[trigger] entries@[i]).0@,
                entries@[i].1@,
            )) ==> r is Ok,
        r matches Ok(b) ==> b@ == snapshot_enc(kvs_view(entries@), version, enable_checksum, now_ms),
{
    let mut buf: Vec<u8> = Vec::new();
    buf.push(82);
    buf.push(69);
    buf.push(68);
    buf.push(73);
    buf.push(83);
    push_u32_be(&mut buf, version);
    buf.push(OPCODE_SELECTDB);
    buf.push(0);
    let ghost header = magic() + u32_be(version) + seq![254u8, 0u8];
    proof {
        lemma_kvs_view(entries@);
        assert(buf@ =~= header + entries_enc(kvs_view(entries@).take(0), now_ms));
    }
    let mut i: usize = 0;
    while i < entries.len()
        invariant
            i <= entries@.len(),
            kvs_view(entries@).len() == entries@.len(),
            forall|j: int|
                0 <= j < entries@.len() ==> #[trigger] kvs_view(entries@)[j] == (
                    entries@[j].0@,
                    entries@[j].1@,
                ),
            forall|j: int|
                0 <= j < i ==> entry_fits((#[trigger] entries@[j]).0@, entries@[j].1@),
            buf@ == header + entries_enc(kvs_view(entries@).take(i as int), now_ms),
        decreases entries@.len() - i,
    {
        let fits_key = entries[i].0.len() <= u32::MAX as usize;
        let fits_val = match &entries[i].1.value {
            Str::Raw(b) => b.len() <= u32::MAX as usize,
            Str::Int(_) => true,
        };
        if !fits_key || !fits_val {
            return Err(RdbError::TooLong);
        }
        let (k, o) = (&entries[i].0, &entries[i].1);
        encode_string_kv(&mut buf, k.as_slice(), o, now_ms);
        proof {
            let es = kvs_view(entries@);
            assert(es.take(i + 1) =~= es.take(i as int).push(es[i as int]));
            lemma_entries_enc_push(es.take(i as int), es[i as int], now_ms);
            assert(buf@ =~= header + entries_enc(es.take(i + 1), now_ms));
        }
        i += 1;
    }
    proof {
        assert(kvs_view(entries@).take(entries@.len() as int) =~= kvs_view(entries@));
    }
    buf.push(OPCODE_EOF);
    proof {
        assert(buf@ =~= snapshot_body(kvs_view(entries@), version, now_ms));
    }
    let checksum: u64 = if enable_checksum {
        crc64(buf.as_slice())
    } else {
        0
    };
    push_u64_be(&mut buf, checksum);
    Ok(buf)
}


/// Reads a length-prefixed byte blob.
fn decode_blob(buf: &[u8], pos: usize) -> (r: Option<(Vec<u8>, usize)>)
    ensures
        match r {
            Some((b, n)) => pos < n <= buf@.len() && spec_dec_blob(buf@, pos as int) == Some(
                (b@, n as int),
            ),
            None => spec_dec_blob(buf@, pos as int) is None,
        },
{
    match decode_length(buf, pos) {
        Some((Length::Len(n), p)) => {
            if buf.len() - p >= n {
                let b = crate::parse::copy_range(buf, p, p + n);
                Some((b, p + n))
            } else {
                None
            }
        }
        Some(_) => None,
        None => None,
    }
}

/// Reads the key of an entry. Fails on any special string format.
pub fn decode_key(buf: &[u8], pos: usize) -> (r: Option<(Vec<u8>, usize)>)
    ensures
        match r {
            Some((b, n)) => pos < n <= buf@.len() && spec_dec_blob(buf@, pos as int) == Some(
                (b@, n as int),
            ),
            None => spec_dec_blob(buf@, pos as int) is None,
        },
{
    decode_blob(buf, pos)
}

/// Reads one string value, inflating a compressed one and re-encoding the
/// bytes by the store's rule.
fn decode_strval(buf: &[u8], pos: usize) -> (r: Option<(Str, usize)>)
    ensures
        match r {
            Some((v, n)) => pos < n <= buf@.len() && spec_dec_strval(buf@, pos as int) == Some(
                (v@, n as int),
            ) && crate::store::str_wf(v@),
            None => spec_dec_strval(buf@, pos as int) is None,
        },
{
    match decode_length(buf, pos) {
        Some((Length::Len(n), p)) => {
            if buf.len() - p >= n {
                let b = crate::parse::copy_range(buf, p, p + n);
                proof {
                    crate::store::lemma_str_codec_roundtrip(b@);
                }
                Some((Str::encode_value(b), p + n))
            } else {
                None
            }
        }
        Some((Length::Int8, p)) => {
            if buf.len() - p >= 1 {
                #[verifier::truncate]
                let v = buf[p] as i8;
                Some((Str::Int(v as i64), p + 1))
            } else {
                None
            }
        }
        Some((Length::Int16, p)) => {
            if buf.len() - p >= 2 {
                let w: u16 = buf[p] as u16 + (buf[p + 1] as u16) * 256;
                #[verifier::truncate]
                let v = w as i16;
                Some((Str::Int(v as i64), p + 2))
            } else {
                None
            }
        }
        Some((Length::Int32, p)) => {
            if buf.len() - p >= 4 {
                let w: u32 = buf[p] as u32 + (buf[p + 1] as u32) * 0x100 + (buf[p + 2] as u32)
                    * 0x10000 + (buf[p + 3] as u32) * 0x1000000;
                #[verifier::truncate]
                let v = w as i32;
                Some((Str::Int(v as i64), p + 4))
            } else {
                None
            }
        }
        Some((Length::Lzf, p)) => {
            match decode_length(buf, p) {
                Some((Length::Len(clen), p2)) => {
                    match decode_length(buf, p2) {
                        Some((Length::Len(_ulen), p3)) => {
                            if buf.len() - p3 >= clen {
                                let comp = crate::num::slice_range(buf, p3, p3 + clen);
                                match crate::lzf::lzf_decompress(comp) {
                                    Ok(b) => {
                                        proof {
                                            crate::store::lemma_str_codec_roundtrip(b@);
                                        }
                                        Some((Str::encode_value(b), p3 + clen))
                                    }
                                    Err(_) => None,
                                }
                            } else {
                                None
                            }
                        }
                        Some(_) => None,
                        None => None,
                    }
                }
                Some(_) => None,
                None => None,
            }
        }
        None => None,
    }
}

/// Reads one entry: optional expiration, type byte, key and value.
pub fn decode_kv(buf: &[u8], pos: usize) -> (r: Result<((Vec<u8>, Object), usize), RdbError>)
    requires
        pos < buf@.len(),
    ensures
        match r {
            Ok(((k, o), n)) => pos < n <= buf@.len() && spec_dec_entry(buf@, pos as int) == Some(
                ((k@, o@), n as int),
            ) && obj_wf(o@),
            Err(_) => spec_dec_entry(buf@, pos as int) is None,
        },
{
    let op = buf[pos];
    if op == OPCODE_EXPIRETIME_MS {
        if buf.len() - pos < 10 {
            return Err(RdbError::Corrupt);
        }
        if buf[pos + 9] != TYPE_STRING {
            return Err(RdbError::UnsupportedRdbType);
        }
        let e: u64 = buf[pos + 1] as u64 + (buf[pos + 2] as u64) * 0x100 + (buf[pos + 3] as u64)
            * 0x10000 + (buf[pos + 4] as u64) * 0x1000000 + (buf[pos + 5] as u64) * 0x100000000 + (
        buf[pos + 6] as u64) * 0x10000000000 + (buf[pos + 7] as u64) * 0x1000000000000 + (buf[pos
            + 8] as u64) * 0x100000000000000;
        proof {
            assert(e == u64_le_val(buf@, pos + 1));
        }
        match decode_key(buf, pos + 10) {
            Some((k, p)) => match decode_strval(buf, p) {
                Some((v, p2)) => Ok(((k, Object { value: v, expire: Some(e) }), p2)),
                None => Err(RdbError::Corrupt),
            },
            None => Err(RdbError::Corrupt),
        }
    } else if op == OPCODE_EXPIRETIME {
        if buf.len() - pos < 6 {
            return Err(RdbError::Corrupt);
        }
        if buf[pos + 5] != TYPE_STRING {
            return Err(RdbError::UnsupportedRdbType);
        }
        let secs: u64 = buf[pos + 1] as u64 + (buf[pos + 2] as u64) * 0x100 + (buf[pos + 3] as u64)
            * 0x10000 + (buf[pos + 4] as u64) * 0x1000000;
        let e: u64 = secs * 1000;
        match decode_key(buf, pos + 6) {
            Some((k, p)) => match decode_strval(buf, p) {
                Some((v, p2)) => Ok(((k, Object { value: v, expire: Some(e) }), p2)),
                None => Err(RdbError::Corrupt),
            },
            None => Err(RdbError::Corrupt),
        }
    } else if op == TYPE_STRING {
        match decode_key(buf, pos + 1) {
            Some((k, p)) => match decode_strval(buf, p) {
                Some((v, p2)) => Ok(((k, Object { value: v, expire: None }), p2)),
                None => Err(RdbError::Corrupt),
            },
            None => Err(RdbError::Corrupt),
        }
    } else if op >= 1 && op <= 14 {
        Err(RdbError::UnsupportedRdbType)
    } else {
        Err(RdbError::Corrupt)
    }
}

proof fn lemma_prepend_kvs_assoc(
    d: Seq<(Seq<u8>, ObjV)>,
    e1: Seq<(Seq<u8>, ObjV)>,
    o2: Option<(Seq<(Seq<u8>, ObjV)>, int)>,
)
    ensures
        prepend_kvs(d, prepend_kvs(e1, o2)) == prepend_kvs(d + e1, o2),
{
    match o2 {
        Some((es, e)) => {
            assert(d + (e1 + es) =~= (d + e1) + es);
        }
        None => {}
    }
}

/// Prefixes decoded entries onto the rest of a run.
pub open spec fn prepend_kvs(
    d: Seq<(Seq<u8>, ObjV)>,
    o: Option<(Seq<(Seq<u8>, ObjV)>, int)>,
) -> Option<(Seq<(Seq<u8>, ObjV)>, int)> {
    match o {
        Some((es, e)) => Some((d + es, e)),
        None => None,
    }
}


/// Skips the auxiliary fields that follow the header.
fn skip_aux_fields(buf: &[u8], start: usize) -> (r: Result<usize, RdbError>)
    requires
        start <= buf@.len(),
    ensures
        match r {
            Ok(p) => start <= p < buf@.len() && spec_skip_aux(buf@, start as int) == Some(p as int)
                && buf@[p as int] != 250,
            Err(_) => spec_skip_aux(buf@, start as int) is None,
        },
{
    let ghost s = buf@;
    let mut pos: usize = start;
    loop
        invariant
            s == buf@,
            start <= pos <= s.len(),
            spec_skip_aux(s, start as int) == spec_skip_aux(s, pos as int),
        ensures
            s == buf@,
            start <= pos <= s.len(),
            spec_skip_aux(s, start as int) == (if pos < s.len() {
                spec_skip_aux(s, pos as int)
            } else {
                None::<int>
            }),
            pos < s.len() ==> s[pos as int] != 250,
        decreases s.len() - pos,
    {
        if pos >= buf.len() {
            break;
        }
        if buf[pos] != OPCODE_AUX {
            break;
        }
        match decode_blob(buf, pos + 1) {
            Some((_k, p)) => {
                match decode_strval(buf, p) {
                    Some((_v, p2)) => {
                        pos = p2;
                    }
                    None => {
                        return Err(RdbError::Corrupt);
                    }
                }
            }
            None => {
                return Err(RdbError::Corrupt);
            }
        }
    }
    if pos >= buf.len() {
        return Err(RdbError::Corrupt);
    }
    Ok(pos)
}

/// Reads entries until the end-of-file marker, which is left unconsumed.
#[verifier::rlimit(100)]
fn load_entries(buf: &[u8], start: usize) -> (r: Result<(Vec<(Vec<u8>, Object)>, usize), RdbError>)
    requires
        start <= buf@.len(),
    ensures
        match r {
            Ok((v, p)) => {
                &&& start <= p < buf@.len()
                &&& buf@[p as int] == 255
                &&& spec_dec_entries(buf@, start as int) == Some((kvs_view(v@), p as int))
                &&& forall|i: int| 0 <= i < v@.len() ==> obj_wf((#[trigger] v@[i]).1@)
            },
            Err(_) => spec_dec_entries(buf@, start as int) is None,
        },
{
    let ghost s = buf@;
    let mut out: Vec<(Vec<u8>, Object)> = Vec::new();
    let mut pos: usize = start;
    loop
        invariant
            s == buf@,
            start <= pos <= s.len(),
            kvs_view(out@).len() == out@.len(),
            forall|i: int| 0 <= i < out@.len() ==> obj_wf((#[trigger] out@[i]).1@),
            spec_dec_entries(s, start as int) == prepend_kvs(
                kvs_view(out@),
                spec_dec_entries(s, pos as int),
            ),
        ensures
            s == buf@,
            start <= pos < s.len(),
            s[pos as int] == 255,
            spec_dec_entries(s, start as int) == Some((kvs_view(out@), pos as int)),
            forall|i: int| 0 <= i < out@.len() ==> obj_wf((#[trigger] out@[i]).1@),
        decreases s.len() - pos,
    {
        if pos >= buf.len() {
            return Err(RdbError::Corrupt);
        }
        if buf[pos] == OPCODE_EOF {
            proof {
                assert(kvs_view(out@) + Seq::<(Seq<u8>, ObjV)>::empty() =~= kvs_view(out@));
            }
            break;
        }
        match decode_kv(buf, pos) {
            Ok(((k, o), n)) => {
                let ghost prev = out@;
                out.push((k, o));
                proof {
                    assert(out@.drop_last() =~= prev);
                    assert(kvs_view(out@) == kvs_view(prev).push((k@, o@)));
                    assert(kvs_view(prev).push((k@, o@)) =~= kvs_view(prev) + seq![(k@, o@)]);
                    assert(spec_dec_entries(s, pos as int) == prepend_kvs(
                        seq![(k@, o@)],
                        spec_dec_entries(s, n as int),
                    ));
                    lemma_prepend_kvs_assoc(
                        kvs_view(prev),
                        seq![(k@, o@)],
                        spec_dec_entries(s, n as int),
                    );
                }
                pos = n;
            }
            Err(e) => {
                return Err(e);
            }
        }
    }
    Ok((out, pos))
}

/// Deserializes a whole snapshot. Succeeds exactly on the byte strings the
/// snapshot grammar accepts, with a checksum that is absent, zero, or
/// matching; every loaded object is well formed.
#[verifier::rlimit(100)]
#[verifier::spinoff_prover]
pub fn rdb_load(buf: &[u8], enable_checksum: bool) -> (r: Result<
    Vec<(Vec<u8>, Object)>,
    RdbError,
>)
    ensures
        match r {
            Ok(v) => spec_dec_snapshot(buf@, enable_checksum) == Some(kvs_view(v@)) && forall|
                i: int,
            |
                0 <= i < v@.len() ==> obj_wf((#[trigger] v@[i]).1@),
            Err(_) => spec_dec_snapshot(buf@, enable_checksum) is None,
        },
{
    let ghost s = buf@;
    if buf.len() < 9 {
        return Err(RdbError::BadMagic);
    }
    let magic_ok = buf[0] == 82 && buf[1] == 69 && buf[2] == 68 && buf[3] == 73 && buf[4] == 83;
    proof {
        if magic_ok {
            assert(s.subrange(0, 5) =~= magic());
        } else {
            assert(s.subrange(0, 5) != magic()) by {
                if s.subrange(0, 5) == magic() {
                    assert(s[0] == 82 && s[1] == 69 && s[2] == 68 && s[3] == 73 && s[4] == 83) by {
                        assert(s.subrange(0, 5)[0] == 82 && s.subrange(0, 5)[1] == 69
                            && s.subrange(0, 5)[2] == 68 && s.subrange(0, 5)[3] == 73
                            && s.subrange(0, 5)[4] == 83);
                    }
                }
            }
        }
    }
    if !magic_ok {
        return Err(RdbError::BadMagic);
    }
    // Version (four bytes, unchecked), then any auxiliary fields.
    let mut pos: usize;
    match skip_aux_fields(buf, 9) {
        Ok(p) => {
            pos = p;
        }
        Err(e) => {
            proof {
                assert(spec_dec_snapshot(s, enable_checksum) is None);
            }
            return Err(e);
        }
    }
    let ghost p1 = pos as int;
    proof {
        assert(spec_skip_aux(s, 9) == Some(p1));
    }
    // Optional database selector.
    if buf[pos] == OPCODE_SELECTDB {
        match decode_length(buf, pos + 1) {
            Some((Length::Len(_), p)) => {
                pos = p;
            }
            _ => {
                return Err(RdbError::Corrupt);
            }
        }
    }
    if pos >= buf.len() {
        proof {
            assert(spec_skip_selectdb(s, p1) matches Some(q) ==> q == pos);
            assert(spec_dec_snapshot(s, enable_checksum) is None);
        }
        return Err(RdbError::Corrupt);
    }
    let ghost p2 = pos as int;
    proof {
        assert(spec_skip_selectdb(s, p1) == Some(p2));
    }
    // Optional resize hint.
    if buf[pos] == OPCODE_RESIZEDB {
        match decode_length(buf, pos + 1) {
            Some((Length::Len(_), p)) => {
                match decode_length(buf, p) {
                    Some((Length::Len(_), pb)) => {
                        pos = pb;
                    }
                    _ => {
                        return Err(RdbError::Corrupt);
                    }
                }
            }
            _ => {
                return Err(RdbError::Corrupt);
            }
        }
    }
    let ghost p3 = pos as int;
    proof {
        assert(spec_skip_resizedb(s, p2) == Some(p3));
    }
    // The entries, up to the end-of-file marker.
    let out: Vec<(Vec<u8>, Object)>;
    match load_entries(buf, pos) {
        Ok((v, p)) => {
            out = v;
            pos = p;
        }
        Err(e) => {
            proof {
                assert(spec_dec_snapshot(s, enable_checksum) is None);
            }
            return Err(e);
        }
    }
    proof {
        assert(spec_dec_entries(s, p3) == Some((kvs_view(out@), pos as int)));
    }
    // The checksum tail must close the file exactly.
    if buf.len() - pos != 9 {
        return Err(RdbError::Corrupt);
    }
    let c: u64 = (buf[pos + 1] as u64) * 0x100000000000000 + (buf[pos + 2] as u64)
        * 0x1000000000000 + (buf[pos + 3] as u64) * 0x10000000000 + (buf[pos + 4] as u64)
        * 0x100000000 + (buf[pos + 5] as u64) * 0x1000000 + (buf[pos + 6] as u64) * 0x10000 + (buf[
    pos + 7] as u64) * 0x100 + (buf[pos + 8] as u64);
    proof {
        assert(c == u64_be_val(s, pos + 1));
    }
    if enable_checksum && c != 0 {
        let body = crate::num::slice_range(buf, 0, pos + 1);
        let actual = crc64(body);
        if c != actual {
            return Err(RdbError::ChecksumMismatch);
        }
    }
    Ok(out)
}


/// Every byte of an encoded region, read off the encoding, triggered on the
/// absolute index.
proof fn lemma_region(s: Seq<u8>, pos: int, enc: Seq<u8>)
    requires
        0 <= pos,
        pos + enc.len() <= s.len(),
        s.subrange(pos, pos + enc.len() as int) == enc,
    ensures
        forall|j: int| pos <= j < pos + enc.len() ==> #[trigger] s[j] == enc[j - pos],
{
    assert forall|j: int| pos <= j < pos + enc.len() implies #[trigger] s[j] == enc[j - pos] by {
        assert(enc[j - pos] == s.subrange(pos, pos + enc.len() as int)[j - pos]);
    }
}

/// A sub-piece of an encoded region is itself an encoded region.
proof fn lemma_region_piece(s: Seq<u8>, pos: int, enc: Seq<u8>, a: int, b: int)
    requires
        0 <= pos,
        pos + enc.len() <= s.len(),
        s.subrange(pos, pos + enc.len() as int) == enc,
        0 <= a <= b <= enc.len(),
    ensures
        s.subrange(pos + a, pos + b) == enc.subrange(a, b),
{
    lemma_region(s, pos, enc);
    assert(s.subrange(pos + a, pos + b) =~= enc.subrange(a, b));
}

/// A compact integer encoding decodes to its value.
proof fn lemma_int_roundtrip(v: i32, s: Seq<u8>, pos: int)
    requires
        0 <= pos,
        pos + int_enc(v).len() <= s.len(),
        s.subrange(pos, pos + int_enc(v).len() as int) == int_enc(v),
    ensures
        spec_dec_strval(s, pos) == Some((StrV::Int(v as i64), pos + int_enc(v).len())),
{
    let enc = int_enc(v);
    lemma_region(s, pos, enc);
    if -128 <= v < 128 {
        assert(s[pos] == 192);
        assert(s[pos + 1] == (v as u8));
        assert((((v as u8) as i8) as i64) == v as i64) by (bit_vector)
            requires -128 <= v < 128;
    } else if -32768 <= v < 32768 {
        assert(s[pos] == 193);
        let w = v as u16;
        assert(s[pos + 1] == ((w % 256) as u8) && s[pos + 2] == ((w / 256) as u8));
        assert(((((w % 256) as u8) + (((w / 256) as u8)) * 0x100) as u16) == w) by (bit_vector);
        assert((((w as i16)) as i64) == v as i64) by (bit_vector)
            requires w == v as u16 && -32768 <= v < 32768;
    } else {
        assert(s[pos] == 194);
        let w = v as u32;
        assert(s[pos + 1] == ((w % 256) as u8));
        assert(s[pos + 2] == ((w / 0x100 % 256) as u8));
        assert(s[pos + 3] == ((w / 0x10000 % 256) as u8));
        assert(s[pos + 4] == ((w / 0x1000000 % 256) as u8));
        assert(((((w % 256) as u8) + (((w / 0x100 % 256) as u8)) * 0x100 + (((w / 0x10000
            % 256) as u8)) * 0x10000 + (((w / 0x1000000 % 256) as u8)) * 0x1000000) as u32) == w)
            by (bit_vector);
        assert((((w as i32)) as i64) == v as i64) by (bit_vector)
            requires w == v as u32;
    }
}

/// A length-prefixed blob decodes to its bytes.
proof fn lemma_blob_roundtrip(b: Seq<u8>, s: Seq<u8>, pos: int)
    requires
        0 <= pos,
        b.len() <= u32::MAX,
        pos + blob_enc(b).len() <= s.len(),
        s.subrange(pos, pos + blob_enc(b).len() as int) == blob_enc(b),
    ensures
        spec_dec_blob(s, pos) == Some((b, pos + blob_enc(b).len())),
        spec_dec_strval(s, pos) == Some((str_encode_spec(b), pos + blob_enc(b).len())),
{
    let lenc = length_enc(b.len() as u32, Option::None);
    let enc = blob_enc(b);
    assert(enc == lenc + b);
    lemma_region(s, pos, enc);
    lemma_region_piece(s, pos, enc, 0, lenc.len() as int);
    assert(lenc.subrange(0, lenc.len() as int) =~= lenc);
    assert(enc.subrange(0, lenc.len() as int) =~= lenc);
    lemma_length_roundtrip(b.len() as u32, s, pos);
    let p = pos + lenc.len();
    assert(s.subrange(p, p + b.len() as int) =~= b) by {
        assert(forall|j: int| p <= j < p + b.len() ==> #[trigger] s[j] == enc[j - pos]);
    }
    assert((b.len() as u32) as usize == b.len());
}

/// A string value encoding decodes back to the same well-formed value.
proof fn lemma_strval_roundtrip(v: StrV, s: Seq<u8>, pos: int)
    requires
        0 <= pos,
        crate::store::str_wf(v),
        (v matches StrV::Raw(b) ==> b.len() <= u32::MAX),
        pos + strval_enc(v).len() <= s.len(),
        s.subrange(pos, pos + strval_enc(v).len() as int) == strval_enc(v),
    ensures
        spec_dec_strval(s, pos) == Some((v, pos + strval_enc(v).len())),
{
    match v {
        StrV::Int(i) => {
            if i32::MIN <= i <= i32::MAX {
                lemma_int_roundtrip(i as i32, s, pos);
                assert(((i as i32) as i64) == i);
            } else {
                let d = crate::num::dec_rep_i64(i as int);
                crate::num::lemma_dec_rep_i64_len(i as int);
                lemma_blob_roundtrip(d, s, pos);
                crate::store::lemma_str_codec_canonical(v);
            }
        }
        StrV::Raw(b) => {
            lemma_blob_roundtrip(b, s, pos);
            crate::store::lemma_str_codec_canonical(v);
        }
    }
}

/// The entry encoding of a live entry that carries an expiration decodes
/// back to the entry.
#[verifier::rlimit(100)]
#[verifier::spinoff_prover]
proof fn lemma_entry_roundtrip_expire(k: Seq<u8>, o: ObjV, now: u64, s: Seq<u8>, pos: int, e: u64)
    requires
        0 <= pos,
        obj_wf(o),
        entry_fits(k, o),
        o.expire == Some(e),
        e >= now,
        pos + entry_enc(k, o, now).len() <= s.len(),
        s.subrange(pos, pos + entry_enc(k, o, now).len() as int) == entry_enc(k, o, now),
    ensures
        spec_dec_entry(s, pos) == Some(((k, o), pos + entry_enc(k, o, now).len())),
{
    let enc = entry_enc(k, o, now);
    let kenc = blob_enc(k);
    let venc = strval_enc(o.value);
    let hdr = seq![252u8] + u64_le(e) + seq![0u8];
    assert(enc == seq![252u8] + u64_le(e) + seq![0u8] + kenc + venc);
    assert(enc =~= hdr + kenc + venc);
    assert(forall|j: int| 0 <= j < 10 ==> #[trigger] enc[j] == hdr[j]);
    assert(s[pos] == 252 && s[pos + 9] == 0 && s[pos + 1] == u64_le(e)[0] && s[pos + 2] == u64_le(
        e,
    )[1] && s[pos + 3] == u64_le(e)[2] && s[pos + 4] == u64_le(e)[3] && s[pos + 5] == u64_le(e)[4]
        && s[pos + 6] == u64_le(e)[5] && s[pos + 7] == u64_le(e)[6] && s[pos + 8] == u64_le(
        e,
    )[7]) by {
        let w = s.subrange(pos, pos + enc.len() as int);
        assert(s[pos] == w[0] && s[pos + 1] == w[1] && s[pos + 2] == w[2] && s[pos + 3] == w[3]
            && s[pos + 4] == w[4] && s[pos + 5] == w[5] && s[pos + 6] == w[6] && s[pos + 7] == w[7]
            && s[pos + 8] == w[8] && s[pos + 9] == w[9]);
    }
    assert(u64_le_val(s, pos + 1) == e) by {
        lemma_u64_le_roundtrip(e);
    }
    let kpos = pos + 10;
    assert(s.subrange(kpos, kpos + kenc.len() as int) == kenc) by {
        lemma_region_piece(s, pos, enc, 10, 10 + kenc.len() as int);
        assert(enc.subrange(10, 10 + kenc.len() as int) =~= kenc);
    }
    lemma_blob_roundtrip(k, s, kpos);
    let vpos = kpos + kenc.len();
    assert(s.subrange(vpos, vpos + venc.len() as int) == venc) by {
        lemma_region_piece(s, pos, enc, 10 + kenc.len() as int, enc.len() as int);
        assert(enc.subrange(10 + kenc.len() as int, enc.len() as int) =~= venc);
    }
    lemma_strval_roundtrip(o.value, s, vpos);
    assert(spec_dec_blob(s, kpos) == Some((k, vpos)));
    assert(spec_dec_strval(s, vpos) == Some((o.value, pos + enc.len())));
    assert(spec_dec_entry(s, pos) == Some(((k, o), pos + enc.len())));
}

/// The entry encoding of a persistent entry decodes back to the entry.
#[verifier::rlimit(100)]
#[verifier::spinoff_prover]
proof fn lemma_entry_roundtrip_plain(k: Seq<u8>, o: ObjV, now: u64, s: Seq<u8>, pos: int)
    requires
        0 <= pos,
        obj_wf(o),
        entry_fits(k, o),
        o.expire is None,
        pos + entry_enc(k, o, now).len() <= s.len(),
        s.subrange(pos, pos + entry_enc(k, o, now).len() as int) == entry_enc(k, o, now),
    ensures
        spec_dec_entry(s, pos) == Some(((k, o), pos + entry_enc(k, o, now).len())),
{
    let enc = entry_enc(k, o, now);
    let kenc = blob_enc(k);
    let venc = strval_enc(o.value);
    assert(enc == seq![0u8] + kenc + venc);
    assert(s[pos] == 0) by {
        assert(s[pos] == s.subrange(pos, pos + enc.len() as int)[0]);
    }
    let kpos = pos + 1;
    assert(s.subrange(kpos, kpos + kenc.len() as int) == kenc) by {
        lemma_region_piece(s, pos, enc, 1, 1 + kenc.len() as int);
        assert(enc.subrange(1, 1 + kenc.len() as int) =~= kenc);
    }
    lemma_blob_roundtrip(k, s, kpos);
    let vpos = kpos + kenc.len();
    assert(s.subrange(vpos, vpos + venc.len() as int) == venc) by {
        lemma_region_piece(s, pos, enc, 1 + kenc.len() as int, enc.len() as int);
        assert(enc.subrange(1 + kenc.len() as int, enc.len() as int) =~= venc);
    }
    lemma_strval_roundtrip(o.value, s, vpos);
    assert(spec_dec_blob(s, kpos) == Some((k, vpos)));
    assert(spec_dec_strval(s, vpos) == Some((o.value, pos + enc.len())));
    assert(spec_dec_entry(s, pos) == Some(((k, o), pos + enc.len())));
}

/// An entry encoding of a live entry decodes back to the entry.
proof fn lemma_entry_roundtrip(k: Seq<u8>, o: ObjV, now: u64, s: Seq<u8>, pos: int)
    requires
        0 <= pos,
        obj_wf(o),
        entry_fits(k, o),
        (o.expire matches Some(e) ==> e >= now),
        pos + entry_enc(k, o, now).len() <= s.len(),
        s.subrange(pos, pos + entry_enc(k, o, now).len() as int) == entry_enc(k, o, now),
    ensures
        entry_enc(k, o, now).len() > 0,
        spec_dec_entry(s, pos) == Some(((k, o), pos + entry_enc(k, o, now).len())),
{
    match o.expire {
        Some(e) => {
            lemma_entry_roundtrip_expire(k, o, now, s, pos, e);
        }
        None => {
            lemma_entry_roundtrip_plain(k, o, now, s, pos);
        }
    }
}

/// Entries that are all live and well formed decode back from their
/// concatenated encodings, up to the end marker that follows them.
#[verifier::rlimit(100)]
#[verifier::spinoff_prover]
proof fn lemma_entries_roundtrip(entries: Seq<(Seq<u8>, ObjV)>, now: u64, s: Seq<u8>, pos: int)
    requires
        0 <= pos,
        forall|i: int| 0 <= i < entries.len() ==> obj_wf((#[trigger] entries[i]).1),
        forall|i: int|
            0 <= i < entries.len() ==> entry_fits((#[trigger] entries[i]).0, entries[i].1),
        forall|i: int|
            0 <= i < entries.len() ==> ((#[trigger] entries[i]).1.expire matches Some(e) ==> e
                >= now),
        pos + entries_enc(entries, now).len() < s.len(),
        s.subrange(pos, pos + entries_enc(entries, now).len() as int) == entries_enc(entries, now),
        s[pos + entries_enc(entries, now).len()] == 255,
    ensures
        spec_dec_entries(s, pos) == Some((entries, pos + entries_enc(entries, now).len())),
    decreases entries.len(),
{
    let enc = entries_enc(entries, now);
    if entries.len() == 0 {
        assert(s[pos] == 255);
        assert(entries =~= Seq::<(Seq<u8>, ObjV)>::empty());
    } else {
        let head = entries[0];
        let rest = entries.drop_first();
        let henc = entry_enc(head.0, head.1, now);
        let renc = entries_enc(rest, now);
        assert(enc == henc + renc);
        lemma_region_piece(s, pos, enc, 0, henc.len() as int);
        assert(enc.subrange(0, henc.len() as int) =~= henc);
        lemma_entry_roundtrip(head.0, head.1, now, s, pos);
        let mid = pos + henc.len();
        lemma_region_piece(s, pos, enc, henc.len() as int, enc.len() as int);
        assert(enc.subrange(henc.len() as int, enc.len() as int) =~= renc);
        assert(forall|i: int| 0 <= i < rest.len() ==> rest[i] == #[trigger] entries[i + 1]);
        lemma_entries_roundtrip(rest, now, s, mid);
        assert(s[pos] == henc[0]) by {
            assert(s[pos] == s.subrange(pos, pos + enc.len() as int)[0]);
        }
        assert(henc[0] != 255) by {
            match head.1.expire {
                Some(_) => {
                    assert(henc[0] == 252);
                }
                None => {
                    assert(henc[0] == 0);
                }
            }
        }
        assert(seq![head] + rest =~= entries);
    }
}

/// The snapshot round-trip law: a saved keyspace, in which nothing has yet
/// expired, loads back to exactly the same entries, whether or not
/// checksums are enabled.
#[verifier::rlimit(100)]
#[verifier::spinoff_prover]
pub proof fn lemma_snapshot_roundtrip(
    entries: Seq<(Seq<u8>, ObjV)>,
    version: u32,
    enable_checksum: bool,
    now: u64,
)
    requires
        forall|i: int| 0 <= i < entries.len() ==> obj_wf((#[trigger] entries[i]).1),
        forall|i: int|
            0 <= i < entries.len() ==> entry_fits((#[trigger] entries[i]).0, entries[i].1),
        forall|i: int|
            0 <= i < entries.len() ==> ((#[trigger] entries[i]).1.expire matches Some(e) ==> e
                >= now),
    ensures
        spec_dec_snapshot(snapshot_enc(entries, version, enable_checksum, now), enable_checksum)
            == Some(entries),
{
    let body = snapshot_body(entries, version, now);
    let s = snapshot_enc(entries, version, enable_checksum, now);
    let eenc = entries_enc(entries, now);
    let c: u64 = if enable_checksum { crc64_of(body) } else { 0u64 };
    assert(s == body + u64_be(c));
    assert(body == magic() + u32_be(version) + seq![254u8, 0u8] + eenc + seq![255u8]);
    assert(body.len() == 12 + eenc.len());
    assert(s.len() == body.len() + 8);
    assert(forall|j: int| 0 <= j < body.len() ==> #[trigger] s[j] == body[j]);
    assert(forall|j: int| 0 <= j < 8 ==> #[trigger] u64_be(c)[j] == s[body.len() + j]);
    assert(s.subrange(0, 5) =~= magic());
    assert(s[9] == 254 && s[10] == 0);
    assert(spec_skip_aux(s, 9) == Some(9int));
    assert(spec_decode_length(s, 10) == Some((Length::Len(0usize), 11int)));
    assert(spec_skip_selectdb(s, 9) == Some(11int));
    let p3 = 11int;
    assert(s.subrange(p3, p3 + eenc.len() as int) =~= eenc) by {
        assert(forall|j: int| 0 <= j < eenc.len() ==> s[p3 + j] == body[11 + j] && body[11 + j]
            == eenc[j]);
    }
    assert(s[p3 + eenc.len()] == 255);
    if entries.len() > 0 {
        assert(entry_enc(entries[0].0, entries[0].1, now).len() > 0) by {
            lemma_region(s, p3, eenc);
            assert(s.subrange(p3, p3 + entry_enc(entries[0].0, entries[0].1, now).len() as int)
                =~= entry_enc(entries[0].0, entries[0].1, now)) by {
                assert(eenc == entry_enc(entries[0].0, entries[0].1, now) + entries_enc(
                    entries.drop_first(),
                    now,
                ));
                assert(forall|j: int| 0 <= j < entry_enc(entries[0].0, entries[0].1, now).len()
                    ==> s[p3 + j] == eenc[j] && eenc[j] == entry_enc(
                    entries[0].0,
                    entries[0].1,
                    now,
                )[j]);
            }
            lemma_entry_roundtrip(entries[0].0, entries[0].1, now, s, p3);
        }
        assert(s[p3] != 251) by {
            match entries[0].1.expire {
                Some(_) => {
                    assert(eenc[0] == 252);
                }
                None => {
                    assert(eenc[0] == 0);
                }
            }
        }
    } else {
        assert(s[p3] == 255);
    }
    assert(spec_skip_resizedb(s, p3) == Some(p3));
    lemma_entries_roundtrip(entries, now, s, p3);
    let p4 = p3 + eenc.len() as int;
    assert(p4 + 9 == s.len());
    assert(u64_be_val(s, p4 + 1) == u64_be_val(u64_be(c), 0)) by {
        assert(s[p4 + 1] == u64_be(c)[0] && s[p4 + 2] == u64_be(c)[1] && s[p4 + 3] == u64_be(c)[2]
            && s[p4 + 4] == u64_be(c)[3] && s[p4 + 5] == u64_be(c)[4] && s[p4 + 6] == u64_be(c)[5]
            && s[p4 + 7] == u64_be(c)[6] && s[p4 + 8] == u64_be(c)[7]);
    }
    lemma_u64_be_roundtrip(c);
    assert(s.subrange(0, p4 + 1) =~= body);
}

} // verus!
