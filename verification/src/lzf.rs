//! LZF compression as used inside snapshot string values: literal runs and
//! back-references into the output already produced. The decoder is written
//! once as a mathematical function; the executable decompressor is proved to
//! agree with it, and the compressor is proved to produce bytes that decode
//! to exactly its input — the round-trip law.

use vstd::prelude::*;
use std::collections::HashMap;

verus! {

broadcast use vstd::std_specs::hash::group_hash_axioms;

/// Longest literal run a single control byte can start.
pub const MAX_LIT_RUN: usize = 31;

/// Longest back-reference a match token can describe.
pub const MAX_MATCH: usize = 264;

/// Largest encodable back-offset.
pub const MAX_OFF: usize = 8191;

/// Appends `len` bytes read from position `p` onward; reads may touch bytes
/// appended by this very copy, which is how runs shorter than the match
/// length repeat.
pub open spec fn lzf_copy(acc: Seq<u8>, p: int, len: nat) -> Seq<u8>
    decreases len,
{
    if len == 0 {
        acc
    } else {
        lzf_copy(acc.push(acc[p]), p + 1, (len - 1) as nat)
    }
}

/// Decodes the token stream `s` on top of the already-produced bytes `acc`;
/// `None` when the stream is malformed (a truncated token, or an offset
/// reaching before the start of the output).
pub open spec fn lzf_decode_rec(s: Seq<u8>, acc: Seq<u8>) -> Option<Seq<u8>>
    decreases s.len(),
{
    if s.len() == 0 {
        Some(acc)
    } else {
        let ctrl = s[0] as int;
        if ctrl < 32 {
            let l = ctrl + 1;
            if s.len() >= 1 + l {
                lzf_decode_rec(s.skip(1 + l), acc + s.subrange(1, 1 + l))
            } else {
                None
            }
        } else {
            let run = ctrl / 32;
            if run < 7 {
                if s.len() < 2 {
                    None
                } else {
                    let len = (run + 2) as nat;
                    let off = (ctrl % 32) * 256 + s[1];
                    if off < acc.len() {
                        lzf_decode_rec(s.skip(2), lzf_copy(acc, acc.len() - off - 1, len))
                    } else {
                        None
                    }
                }
            } else {
                if s.len() < 3 {
                    None
                } else {
                    let len = (9 + s[1]) as nat;
                    let off = (ctrl % 32) * 256 + s[2];
                    if off < acc.len() {
                        lzf_decode_rec(s.skip(3), lzf_copy(acc, acc.len() - off - 1, len))
                    } else {
                        None
                    }
                }
            }
        }
    }
}

/// What a compressed byte string denotes.
pub open spec fn lzf_decode(s: Seq<u8>) -> Option<Seq<u8>> {
    lzf_decode_rec(s, Seq::empty())
}

/// Decoding distributes over splitting the token stream: once `s1` decodes,
/// the bytes that follow continue from its output.
pub proof fn lemma_decode_append(s1: Seq<u8>, s2: Seq<u8>, acc: Seq<u8>)
    requires
        lzf_decode_rec(s1, acc) is Some,
    ensures
        lzf_decode_rec(s1 + s2, acc) == lzf_decode_rec(s2, lzf_decode_rec(s1, acc)->0),
    decreases s1.len(),
{
    if s1.len() == 0 {
        assert(s1 + s2 =~= s2);
    } else {
        let t = s1 + s2;
        assert(t[0] == s1[0]);
        let ctrl = s1[0] as int;
        if ctrl < 32 {
            let l = ctrl + 1;
            assert(s1.len() >= 1 + l);
            assert(t.subrange(1, 1 + l) =~= s1.subrange(1, 1 + l));
            assert(t.skip(1 + l) =~= s1.skip(1 + l) + s2);
            lemma_decode_append(s1.skip(1 + l), s2, acc + s1.subrange(1, 1 + l));
        } else {
            let run = ctrl / 32;
            if run < 7 {
                assert(s1.len() >= 2);
                assert(t[1] == s1[1]);
                let off = (ctrl % 32) * 256 + s1[1];
                assert(off < acc.len());
                assert(t.skip(2) =~= s1.skip(2) + s2);
                lemma_decode_append(
                    s1.skip(2),
                    s2,
                    lzf_copy(acc, acc.len() - off - 1, (run + 2) as nat),
                );
            } else {
                assert(s1.len() >= 3);
                assert(t[1] == s1[1] && t[2] == s1[2]);
                let off = (ctrl % 32) * 256 + s1[2];
                assert(off < acc.len());
                assert(t.skip(3) =~= s1.skip(3) + s2);
                lemma_decode_append(
                    s1.skip(3),
                    s2,
                    lzf_copy(acc, acc.len() - off - 1, (9 + s1[1]) as nat),
                );
            }
        }
    }
}

/// When the output so far is a prefix of `full` and the match property holds
/// (`len` bytes at `p` repeat at the frontier), the overlapping copy extends
/// the output to the longer prefix of `full`.
pub proof fn lemma_copy_extends(full: Seq<u8>, acc: Seq<u8>, p: int, len: nat)
    requires
        0 <= p < acc.len(),
        acc.len() + len <= full.len(),
        acc == full.take(acc.len() as int),
        forall|j: int| 0 <= j < len ==> #[trigger] full[p + j] == full[acc.len() + j],
    ensures
        lzf_copy(acc, p, len) == full.take((acc.len() + len) as int),
    decreases len,
{
    if len == 0 {
        assert(full.take(acc.len() as int) == acc);
    } else {
        let acc2 = acc.push(acc[p]);
        assert(acc[p] == full.take(acc.len() as int)[p]);
        assert(acc[p] == full[p]);
        assert(full[p] == full[acc.len() as int]);
        assert(acc2 =~= full.take(acc.len() as int + 1));
        assert forall|j: int| 0 <= j < len - 1 implies #[trigger] full[p + 1 + j] == full[acc2.len() + j] by {
            assert(full[p + (j + 1)] == full[acc.len() + (j + 1)]);
        }
        lemma_copy_extends(full, acc2, p + 1, (len - 1) as nat);
    }
}

/// Why a compressed byte string was rejected.
#[derive(Debug, PartialEq, Eq, Structural, Clone, Copy)]
pub enum LzfError {
    /// A token promised more bytes than the stream holds.
    Truncated,
    /// A back-reference reaches before the start of the output.
    BadOffset,
}

/// Decompresses an LZF token stream. Succeeds exactly on the streams that
/// `lzf_decode` accepts, and then returns exactly what it denotes.
#[verifier::loop_isolation(false)]
pub fn lzf_decompress(input: &[u8]) -> (r: Result<Vec<u8>, LzfError>)
    ensures
        match r {
            Ok(v) => lzf_decode(input@) == Some(v@),
            Err(_) => lzf_decode(input@) is None,
        },
{
    let mut out: Vec<u8> = Vec::new();
    let mut i: usize = 0;
    proof {
        assert(input@.skip(0) =~= input@);
    }
    while i < input.len()
        invariant
            i <= input.len(),
            lzf_decode(input@) == lzf_decode_rec(input@.skip(i as int), out@),
        decreases input.len() - i,
    {
        let ghost rest = input@.skip(i as int);
        let ctrl = input[i];
        proof {
            assert(rest[0] == input@[i as int]);
        }
        if ctrl < 32 {
            let l = ctrl as usize + 1;
            if input.len() - i < 1 + l {
                proof {
                    assert(rest.len() < 1 + l);
                }
                return Err(LzfError::Truncated);
            }
            let src = crate::num::slice_range(input, i + 1, i + 1 + l);
            crate::frame::append_all(&mut out, src);
            proof {
                assert(src@ =~= rest.subrange(1, 1 + l as int));
                assert(input@.skip(i + 1 + l) =~= rest.skip(1 + l as int));
            }
            i = i + 1 + l;
        } else {
            let run = (ctrl / 32) as usize;
            let hdr: usize = if run < 7 { 2 } else { 3 };
            if input.len() - i < hdr {
                return Err(LzfError::Truncated);
            }
            let len: usize = if run < 7 { run + 2 } else { 9 + input[i + 1] as usize };
            let off_byte: u8 = if run < 7 { input[i + 1] } else { input[i + 2] };
            let off: usize = (ctrl % 32) as usize * 256 + off_byte as usize;
            proof {
                if run < 7 {
                    assert(rest[1] == input@[i + 1]);
                } else {
                    assert(rest[1] == input@[i + 1] && rest[2] == input@[i + 2]);
                }
            }
            if off >= out.len() {
                return Err(LzfError::BadOffset);
            }
            let base = out.len() - off - 1;
            let ghost acc0 = out@;
            let mut j: usize = 0;
            while j < len
                invariant
                    j <= len,
                    out@.len() == acc0.len() + j,
                    base + j < out@.len(),
                    lzf_copy(acc0, base as int, len as nat) == lzf_copy(
                        out@,
                        base + j,
                        (len - j) as nat,
                    ),
                decreases len - j,
            {
                let cur = out.len();
                proof {
                    assert(base + j < cur);
                }
                let b = out[base + j];
                out.push(b);
                j += 1;
            }
            proof {
                assert(input@.skip(i + hdr) =~= rest.skip(hdr as int));
            }
            i = i + hdr;
        }
    }
    proof {
        assert(input@.skip(input@.len() as int) =~= Seq::<u8>::empty());
    }
    Ok(out)
}

/// The three bytes at `p` packed into one number; equal packings mean equal
/// bytes.
pub open spec fn pack3(s: Seq<u8>, p: int) -> int {
    (s[p] as int) * 65536 + (s[p + 1] as int) * 256 + (s[p + 2] as int)
}

proof fn lemma_pack3_inj(s: Seq<u8>, a: int, b: int)
    requires
        0 <= a, a + 3 <= s.len(),
        0 <= b, b + 3 <= s.len(),
        pack3(s, a) == pack3(s, b),
    ensures
        s[a] == s[b],
        s[a + 1] == s[b + 1],
        s[a + 2] == s[b + 2],
{
    let x1 = s[a + 1] as int * 256 + s[a + 2];
    let y1 = s[b + 1] as int * 256 + s[b + 2];
    assert(0 <= x1 < 65536 && 0 <= y1 < 65536);
    assert(s[a] == s[b] && x1 == y1) by (nonlinear_arith)
        requires
            (s[a] as int) * 65536 + x1 == (s[b] as int) * 65536 + y1,
            0 <= x1 < 65536,
            0 <= y1 < 65536,
    ;
}

/// Writes one pending literal run to the output.
fn flush_literals(out: &mut Vec<u8>, input: &[u8], iidx: usize, lit: usize)
    requires
        1 <= lit <= 32,
        lit <= iidx <= input@.len(),
        lzf_decode_rec(old(out)@, Seq::empty()) == Some(input@.take(iidx - lit)),
    ensures
        lzf_decode_rec(final(out)@, Seq::empty()) == Some(input@.take(iidx as int)),
{
    let ghost before = out@;
    out.push((lit - 1) as u8);
    let src = crate::num::slice_range(input, iidx - lit, iidx);
    crate::frame::append_all(out, src);
    proof {
        let token = seq![(lit - 1) as u8] + src@;
        assert(out@ =~= before + token);
        lemma_decode_append(before, token, Seq::empty());
        let dec = input@.take((iidx - lit) as int);
        assert(token[0] == (lit - 1) as u8);
        assert((token[0] as int) < 32);
        assert(token.len() == 1 + lit);
        assert(token.skip(1 + lit as int) =~= Seq::<u8>::empty());
        assert(token.subrange(1, 1 + lit as int) =~= src@);
        assert(lzf_decode_rec(Seq::<u8>::empty(), dec + src@) == Some(dec + src@));
        assert(lzf_decode_rec(token, dec) == Some(dec + src@));
        assert(dec + src@ =~= input@.take(iidx as int));
    }
}

/// Writes one match token to the output.
fn emit_match(out: &mut Vec<u8>, off: usize, len: usize, Ghost(dec): Ghost<Seq<u8>>)
    requires
        3 <= len <= MAX_MATCH,
        off <= MAX_OFF,
        off < dec.len(),
        lzf_decode_rec(old(out)@, Seq::empty()) == Some(dec),
    ensures
        lzf_decode_rec(final(out)@, Seq::empty()) == Some(
            lzf_copy(dec, dec.len() - off - 1, len as nat),
        ),
{
    let ghost before = out@;
    let repeat = len - 2;
    let high = off / 256;
    let low = (off % 256) as u8;
    if repeat < 7 {
        let h1 = (high + repeat * 32) as u8;
        out.push(h1);
        out.push(low);
        proof {
            let token = seq![h1, low];
            assert(out@ =~= before + token);
            lemma_decode_append(before, token, Seq::empty());
            assert(h1 as int == high + repeat * 32);
            assert((h1 as int) / 32 == repeat && (h1 as int) % 32 == high) by (nonlinear_arith)
                requires
                    h1 as int == high + repeat * 32,
                    0 <= high < 32,
                    1 <= repeat < 7,
            ;
            assert((h1 as int) >= 32);
            assert(high * 256 + (low as int) == off) by {
                vstd::arithmetic::div_mod::lemma_fundamental_div_mod(off as int, 256);
            }
            assert(token.skip(2) =~= Seq::<u8>::empty());
            assert(lzf_decode_rec(
                Seq::<u8>::empty(),
                lzf_copy(dec, dec.len() - off - 1, (repeat + 2) as nat),
            ) == Some(lzf_copy(dec, dec.len() - off - 1, (repeat + 2) as nat)));
            assert(lzf_decode_rec(token, dec) == Some(
                lzf_copy(dec, dec.len() - off - 1, (repeat + 2) as nat),
            ));
        }
    } else {
        let h1 = (high + 224) as u8;
        out.push(h1);
        out.push((repeat - 7) as u8);
        out.push(low);
        proof {
            let token = seq![h1, (repeat - 7) as u8, low];
            assert(out@ =~= before + token);
            lemma_decode_append(before, token, Seq::empty());
            assert(h1 as int == high + 7 * 32);
            assert((h1 as int) / 32 == 7 && (h1 as int) % 32 == high) by (nonlinear_arith)
                requires
                    h1 as int == high + 7 * 32,
                    0 <= high < 32,
            ;
            assert(high * 256 + (low as int) == off) by {
                vstd::arithmetic::div_mod::lemma_fundamental_div_mod(off as int, 256);
            }
            assert(9 + (token[1] as int) == len);
            assert(token.skip(3) =~= Seq::<u8>::empty());
            assert(lzf_decode_rec(
                Seq::<u8>::empty(),
                lzf_copy(dec, dec.len() - off - 1, len as nat),
            ) == Some(lzf_copy(dec, dec.len() - off - 1, len as nat)));
            assert(lzf_decode_rec(token, dec) == Some(
                lzf_copy(dec, dec.len() - off - 1, len as nat),
            ));
        }
    }
}

/// Compresses `input` into an LZF token stream. The contract is the
/// round-trip law itself: decoding the result yields exactly `input`.
#[verifier::loop_isolation(false)]
#[verifier::rlimit(100)]
pub fn lzf_compress(input: &[u8]) -> (out: Vec<u8>)
    ensures
        lzf_decode(out@) == Some(input@),
{
    let mut out: Vec<u8> = Vec::new();
    let mut tbl: HashMap<u32, usize> = HashMap::new();
    let mut iidx: usize = 0;
    let mut lit: usize = 0;
    proof {
        assert(input@.take(0) =~= Seq::<u8>::empty());
    }
    while input.len() - iidx >= 3
        invariant
            lit <= iidx <= input@.len(),
            lit <= 30,
            lzf_decode_rec(out@, Seq::empty()) == Some(input@.take((iidx - lit) as int)),
            forall|k: u32| #[trigger]
                tbl@.contains_key(k) ==> tbl@[k] + 3 <= input@.len() && tbl@[k] < iidx && pack3(
                    input@,
                    tbl@[k] as int,
                ) == k,
        decreases input.len() - iidx,
    {
        let key: u32 = (input[iidx] as u32) * 65536 + (input[iidx + 1] as u32) * 256 + (input[iidx
            + 2] as u32);
        proof {
            assert(key == pack3(input@, iidx as int));
        }
        let reference = match tbl.get(&key) {
            Some(r) => Some(*r),
            None => None,
        };
        tbl.insert(key, iidx);
        let mut matched = false;
        if let Some(r) = reference {
            let off = iidx - r - 1;
            if off <= MAX_OFF {
                matched = true;
                proof {
                    lemma_pack3_inj(input@, r as int, iidx as int);
                }
                // Extend the three-byte match as far as it goes.
                let mut len: usize = 3;
                while iidx + len < input.len() && len < MAX_MATCH && input[r + len] == input[iidx
                    + len]
                    invariant
                        3 <= len <= MAX_MATCH,
                        iidx + len <= input@.len(),
                        forall|j: int| 0 <= j < len ==> #[trigger] input@[r + j] == input@[iidx + j],
                    decreases input.len() - iidx - len,
                {
                    len += 1;
                }
                if lit > 0 {
                    flush_literals(&mut out, input, iidx, lit);
                    lit = 0;
                }
                let ghost dec = input@.take(iidx as int);
                emit_match(&mut out, off, len, Ghost(dec));
                proof {
                    assert(dec.len() - off - 1 == r);
                    lemma_copy_extends(input@, dec, r as int, len as nat);
                }
                // Register the windows the match skipped over, while they
                // still fit.
                let new_iidx = iidx + len;
                if input.len() - new_iidx < 3 {
                    iidx = new_iidx;
                    proof {
                        assert(input@.take(iidx as int) == input@.take((iidx - lit) as int));
                    }
                    break;
                }
                let mut w = iidx + 1;
                while w < new_iidx
                    invariant
                        iidx < w <= new_iidx,
                        new_iidx + 3 <= input@.len(),
                        forall|k: u32| #[trigger]
                            tbl@.contains_key(k) ==> tbl@[k] + 3 <= input@.len() && tbl@[k]
                                < new_iidx && pack3(input@, tbl@[k] as int) == k,
                    decreases new_iidx - w,
                {
                    let wkey: u32 = (input[w] as u32) * 65536 + (input[w + 1] as u32) * 256 + (
                    input[w + 2] as u32);
                    proof {
                        assert(wkey == pack3(input@, w as int));
                    }
                    tbl.insert(wkey, w);
                    w += 1;
                }
                iidx = new_iidx;
            }
        }
        if !matched {
            lit += 1;
            iidx += 1;
            if lit >= MAX_LIT_RUN {
                flush_literals(&mut out, input, iidx, lit);
                lit = 0;
            }
        }
    }
    // Whatever is left is one final literal run.
    lit = lit + (input.len() - iidx);
    iidx = input.len();
    if lit > 0 {
        flush_literals(&mut out, input, iidx, lit);
    }
    proof {
        assert(input@.take(input@.len() as int) =~= input@);
    }
    out
}

} // verus!
