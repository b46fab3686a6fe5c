//! The RESP parser: a mathematical parse function over byte sequences and an
//! executable parser proved to agree with it. A parse either yields a frame
//! and the position just past it, reports that more bytes are needed, or
//! rejects the input as malformed.

use vstd::prelude::*;
use crate::frame::{Frame, FrameV, frames_view, lemma_frames_view};
use crate::num::{dec_val, is_digit, all_digits, parse_u64};

verus! {

/// Outcome of parsing one frame at a position.
pub enum ParseOut {
    /// A frame and the position just past its encoding.
    Val(FrameV, int),
    /// The input ends before the frame does.
    Incomplete,
    /// The bytes at this position encode no frame.
    Bad,
}

/// Outcome of parsing a counted run of frames.
pub enum ElemsOut {
    Val(Seq<FrameV>, int),
    Incomplete,
    Bad,
}

/// The index of the first CR byte at or after `pos`, or the length of `s`.
pub open spec fn first_cr(s: Seq<u8>, pos: int) -> int
    decreases s.len() - pos,
{
    if pos < 0 || pos >= s.len() {
        s.len() as int
    } else if s[pos] == 13 {
        pos
    } else {
        first_cr(s, pos + 1)
    }
}

pub proof fn lemma_first_cr(s: Seq<u8>, pos: int)
    requires
        0 <= pos <= s.len(),
    ensures
        pos <= first_cr(s, pos) <= s.len(),
        first_cr(s, pos) < s.len() ==> s[first_cr(s, pos)] == 13,
        forall|j: int| pos <= j < first_cr(s, pos) ==> s[j] != 13,
    decreases s.len() - pos,
{
    if pos < s.len() && s[pos] != 13 {
        lemma_first_cr(s, pos + 1);
    }
}

/// If `e` is the first CR at or after `pos`, `first_cr` finds exactly it.
pub proof fn lemma_first_cr_at(s: Seq<u8>, pos: int, e: int)
    requires
        0 <= pos <= e < s.len(),
        s[e] == 13,
        forall|j: int| pos <= j < e ==> s[j] != 13,
    ensures
        first_cr(s, pos) == e,
    decreases e - pos,
{
    if pos < e {
        lemma_first_cr_at(s, pos + 1, e);
    }
}

/// The index of the first non-digit byte at or after `pos`, or the length.
pub open spec fn digit_run_end(s: Seq<u8>, pos: int) -> int
    decreases s.len() - pos,
{
    if pos < 0 || pos >= s.len() {
        s.len() as int
    } else if is_digit(s[pos]) {
        digit_run_end(s, pos + 1)
    } else {
        pos
    }
}

pub proof fn lemma_digit_run_end(s: Seq<u8>, pos: int)
    requires
        0 <= pos <= s.len(),
    ensures
        pos <= digit_run_end(s, pos) <= s.len(),
        digit_run_end(s, pos) < s.len() ==> !is_digit(s[digit_run_end(s, pos)]),
        forall|j: int| pos <= j < digit_run_end(s, pos) ==> is_digit(s[j]),
    decreases s.len() - pos,
{
    if pos < s.len() && is_digit(s[pos]) {
        lemma_digit_run_end(s, pos + 1);
    }
}

pub proof fn lemma_digit_run_end_at(s: Seq<u8>, pos: int, e: int)
    requires
        0 <= pos <= e < s.len(),
        !is_digit(s[e]),
        forall|j: int| pos <= j < e ==> is_digit(s[j]),
    ensures
        digit_run_end(s, pos) == e,
    decreases e - pos,
{
    if pos < e {
        lemma_digit_run_end_at(s, pos + 1, e);
    }
}

/// Parses the decimal count that follows a `:`, `$` or `*` marker, together
/// with its trailing CRLF. Returns the value and the position just past the
/// LF, or reports why it could not.
pub open spec fn spec_parse_count(s: Seq<u8>, pos: int) -> ParseOut {
    let e = digit_run_end(s, pos);
    if e == pos {
        if pos >= s.len() {
            ParseOut::Incomplete
        } else {
            ParseOut::Bad
        }
    } else if e >= s.len() {
        ParseOut::Incomplete
    } else if s[e] != 13 {
        ParseOut::Bad
    } else if e + 1 >= s.len() {
        ParseOut::Incomplete
    } else if s[e + 1] != 10 {
        ParseOut::Bad
    } else if dec_val(s.subrange(pos, e)) > u64::MAX {
        ParseOut::Bad
    } else {
        ParseOut::Val(FrameV::Integer(dec_val(s.subrange(pos, e)) as u64), e + 2)
    }
}

/// Parses one frame of the RESP grammar starting at `pos`.
pub open spec fn spec_parse(s: Seq<u8>, pos: int) -> ParseOut
    decreases s.len() - pos, 0int,
{
    if pos < 0 || pos >= s.len() {
        ParseOut::Incomplete
    } else if s[pos] == 43 || s[pos] == 45 {
        // +text\r\n or -text\r\n
        let e = first_cr(s, pos + 1);
        if e >= s.len() {
            ParseOut::Incomplete
        } else if e + 1 >= s.len() {
            ParseOut::Incomplete
        } else if s[e + 1] != 10 {
            ParseOut::Bad
        } else {
            let text = s.subrange(pos + 1, e);
            if s[pos] == 43 {
                ParseOut::Val(FrameV::Simple(text), e + 2)
            } else {
                ParseOut::Val(FrameV::Error(text), e + 2)
            }
        }
    } else if s[pos] == 58 {
        // :digits\r\n
        match spec_parse_count(s, pos + 1) {
            ParseOut::Val(f, n) => ParseOut::Val(f, n),
            o => o,
        }
    } else if s[pos] == 36 {
        // $-1\r\n or $len\r\n bytes \r\n
        if pos + 1 >= s.len() {
            ParseOut::Incomplete
        } else if s[pos + 1] == 45 {
            spec_parse_null(s, pos)
        } else {
            match spec_parse_count(s, pos + 1) {
                ParseOut::Val(f, n) => {
                    let len = f->Integer_0 as int;
                    if n + len + 2 > s.len() {
                        ParseOut::Incomplete
                    } else if s[n + len] != 13 || s[n + len + 1] != 10 {
                        ParseOut::Bad
                    } else {
                        ParseOut::Val(FrameV::Bulk(s.subrange(n, n + len)), n + len + 2)
                    }
                }
                o => o,
            }
        }
    } else if s[pos] == 42 {
        // *count\r\n then that many frames
        match spec_parse_count(s, pos + 1) {
            ParseOut::Val(f, n) => {
                let count = f->Integer_0 as nat;
                if n <= pos || n > s.len() {
                    ParseOut::Bad
                } else {
                    match spec_parse_elems(s, n, count) {
                        ElemsOut::Val(es, e) => ParseOut::Val(FrameV::Array(es), e),
                        ElemsOut::Incomplete => ParseOut::Incomplete,
                        ElemsOut::Bad => ParseOut::Bad,
                    }
                }
            }
            o => o,
        }
    } else {
        ParseOut::Bad
    }
}

/// The exact shape of the `$-1\r\n` null frame.
pub open spec fn spec_parse_null(s: Seq<u8>, pos: int) -> ParseOut {
    if pos + 2 < s.len() && s[pos + 2] != 49 {
        ParseOut::Bad
    } else if pos + 3 < s.len() && s[pos + 3] != 13 {
        ParseOut::Bad
    } else if pos + 4 < s.len() && s[pos + 4] != 10 {
        ParseOut::Bad
    } else if pos + 4 >= s.len() {
        ParseOut::Incomplete
    } else {
        ParseOut::Val(FrameV::Null, pos + 5)
    }
}

/// Parses `k` frames one after another starting at `pos`.
pub open spec fn spec_parse_elems(s: Seq<u8>, pos: int, k: nat) -> ElemsOut
    decreases s.len() - pos, 1int,
{
    if !(0 <= pos <= s.len()) {
        ElemsOut::Bad
    } else if k == 0 {
        ElemsOut::Val(Seq::empty(), pos)
    } else {
        match spec_parse(s, pos) {
            ParseOut::Val(f, n) => {
                if pos < n <= s.len() {
                    match spec_parse_elems(s, n, (k - 1) as nat) {
                        ElemsOut::Val(es, e) => ElemsOut::Val(seq![f] + es, e),
                        o => o,
                    }
                } else {
                    ElemsOut::Bad
                }
            }
            ParseOut::Incomplete => ElemsOut::Incomplete,
            ParseOut::Bad => ElemsOut::Bad,
        }
    }
}

/// Prefixes already-parsed frames onto the outcome of the rest of a run.
pub open spec fn prepend_elems(d: Seq<FrameV>, o: ElemsOut) -> ElemsOut {
    match o {
        ElemsOut::Val(es, e) => ElemsOut::Val(d + es, e),
        x => x,
    }
}

/// Why a parse did not produce a frame.
#[derive(Debug, PartialEq, Eq, Structural, Clone, Copy)]
pub enum ParseError {
    /// The buffer holds a proper prefix of a frame; read more bytes.
    Incomplete,
    /// The buffer holds no frame at this position.
    Malformed,
}

/// Reads the decimal count after a marker byte together with its CRLF.
fn parse_count(buf: &[u8], pos: usize) -> (r: Result<(u64, usize), ParseError>)
    requires
        pos <= buf@.len(),
    ensures
        match r {
            Ok((v, n)) => pos <= n <= buf@.len() && spec_parse_count(buf@, pos as int)
                == ParseOut::Val(FrameV::Integer(v), n as int),
            Err(ParseError::Incomplete) => spec_parse_count(buf@, pos as int)
                == ParseOut::Incomplete,
            Err(ParseError::Malformed) => spec_parse_count(buf@, pos as int) == ParseOut::Bad,
        },
{
    let e = find_digit_run_end(buf, pos);
    proof {
        lemma_digit_run_end(buf@, pos as int);
    }
    if e == pos {
        if pos >= buf.len() {
            return Err(ParseError::Incomplete);
        } else {
            return Err(ParseError::Malformed);
        }
    }
    if e >= buf.len() {
        return Err(ParseError::Incomplete);
    }
    if buf[e] != 13 {
        return Err(ParseError::Malformed);
    }
    if e + 1 >= buf.len() {
        return Err(ParseError::Incomplete);
    }
    if buf[e + 1] != 10 {
        return Err(ParseError::Malformed);
    }
    let run = crate::num::slice_range(buf, pos, e);
    proof {
        assert(all_digits(run@));
    }
    match parse_u64(run) {
        Some(v) => Ok((v, e + 2)),
        None => {
            proof {
                assert(dec_val(buf@.subrange(pos as int, e as int)) > u64::MAX);
            }
            Err(ParseError::Malformed)
        }
    }
}

/// The index of the first CR at or after `from`, or the buffer length.
fn find_cr(buf: &[u8], from: usize) -> (r: usize)
    requires
        from <= buf@.len(),
    ensures
        r == first_cr(buf@, from as int),
        from <= r <= buf@.len(),
{
    let mut i: usize = from;
    while i < buf.len()
        invariant
            from <= i <= buf@.len(),
            first_cr(buf@, from as int) == first_cr(buf@, i as int),
        decreases buf@.len() - i,
    {
        if buf[i] == 13 {
            return i;
        }
        i += 1;
    }
    i
}

/// The index of the first non-digit at or after `from`, or the buffer length.
fn find_digit_run_end(buf: &[u8], from: usize) -> (r: usize)
    requires
        from <= buf@.len(),
    ensures
        r == digit_run_end(buf@, from as int),
        from <= r <= buf@.len(),
{
    let mut i: usize = from;
    while i < buf.len()
        invariant
            from <= i <= buf@.len(),
            digit_run_end(buf@, from as int) == digit_run_end(buf@, i as int),
        decreases buf@.len() - i,
    {
        if buf[i] < 48 || buf[i] > 57 {
            return i;
        }
        i += 1;
    }
    i
}

/// Copies `buf[from..to]` into a fresh vector.
pub fn copy_range(buf: &[u8], from: usize, to: usize) -> (r: Vec<u8>)
    requires
        from <= to <= buf@.len(),
    ensures
        r@ == buf@.subrange(from as int, to as int),
{
    let s = crate::num::slice_range(buf, from, to);
    let mut out: Vec<u8> = Vec::new();
    crate::frame::append_all(&mut out, s);
    proof {
        assert(out@ =~= buf@.subrange(from as int, to as int));
    }
    out
}

/// Parses one frame from `buf` starting at `pos`; on success also returns
/// the position just past the frame. Agrees exactly with `spec_parse`.
#[verifier::loop_isolation(false)]
#[verifier::rlimit(60)]
pub fn parse_frame(buf: &[u8], pos: usize) -> (r: Result<(Frame, usize), ParseError>)
    requires
        pos <= buf@.len(),
    ensures
        match r {
            Ok((f, n)) => pos <= n <= buf@.len() && spec_parse(buf@, pos as int) == ParseOut::Val(
                f@,
                n as int,
            ),
            Err(ParseError::Incomplete) => spec_parse(buf@, pos as int) == ParseOut::Incomplete,
            Err(ParseError::Malformed) => spec_parse(buf@, pos as int) == ParseOut::Bad,
        },
    decreases buf@.len() - pos,
{
    if pos >= buf.len() {
        return Err(ParseError::Incomplete);
    }
    let marker = buf[pos];
    if marker == 43 || marker == 45 {
        let e = find_cr(buf, pos + 1);
        if e >= buf.len() {
            return Err(ParseError::Incomplete);
        }
        if e + 1 >= buf.len() {
            return Err(ParseError::Incomplete);
        }
        if buf[e + 1] != 10 {
            return Err(ParseError::Malformed);
        }
        let text = copy_range(buf, pos + 1, e);
        if marker == 43 {
            Ok((Frame::Simple(text), e + 2))
        } else {
            Ok((Frame::Error(text), e + 2))
        }
    } else if marker == 58 {
        match parse_count(buf, pos + 1) {
            Ok((v, n)) => Ok((Frame::Integer(v), n)),
            Err(e) => Err(e),
        }
    } else if marker == 36 {
        if pos + 1 >= buf.len() {
            return Err(ParseError::Incomplete);
        }
        if buf[pos + 1] == 45 {
            // $-1\r\n
            let rem = buf.len() - pos;
            if rem > 2 && buf[pos + 2] != 49 {
                return Err(ParseError::Malformed);
            }
            if rem > 3 && buf[pos + 3] != 13 {
                return Err(ParseError::Malformed);
            }
            if rem > 4 && buf[pos + 4] != 10 {
                return Err(ParseError::Malformed);
            }
            if rem <= 4 {
                return Err(ParseError::Incomplete);
            }
            Ok((Frame::Null, pos + 5))
        } else {
            match parse_count(buf, pos + 1) {
                Ok((v, n)) => {
                    // The remaining bytes must hold the payload and its CRLF.
                    let avail: u64 = (buf.len() - n) as u64;
                    if avail < 2 || avail - 2 < v {
                        proof {
                            assert(n + v + 2 > buf@.len());
                        }
                        return Err(ParseError::Incomplete);
                    }
                    let len = v as usize;
                    if buf[n + len] != 13 || buf[n + len + 1] != 10 {
                        return Err(ParseError::Malformed);
                    }
                    let body = copy_range(buf, n, n + len);
                    Ok((Frame::Bulk(body), n + len + 2))
                }
                Err(e) => Err(e),
            }
        }
    } else if marker == 42 {
        match parse_count(buf, pos + 1) {
            Ok((count, n)) => {
                let ghost s = buf@;
                let ghost k_total = count as nat;
                let mut acc: Vec<Frame> = Vec::new();
                let mut cur: usize = n;
                let mut i: u64 = 0;
                proof {
                    assert(spec_parse_elems(s, n as int, k_total) == prepend_elems(
                        frames_view(acc@),
                        spec_parse_elems(s, cur as int, (k_total - i) as nat),
                    ));
                }
                while i < count
                    invariant
                        i <= count,
                        n <= cur <= buf@.len(),
                        pos < n,
                        frames_view(acc@).len() == i,
                        spec_parse_elems(s, n as int, k_total) == prepend_elems(
                            frames_view(acc@),
                            spec_parse_elems(s, cur as int, (k_total - i) as nat),
                        ),
                    decreases count - i,
                {
                    let ghost k_rem = (k_total - i) as nat;
                    let ghost done = frames_view(acc@);
                    match parse_frame(buf, cur) {
                        Ok((f, n2)) => {
                            if n2 <= cur {
                                // A parse never stands still, so this branch
                                // cannot be reached.
                                proof {
                                    lemma_spec_parse_advances(s, cur as int);
                                }
                                return Err(ParseError::Malformed);
                            }
                            proof {
                                assert(spec_parse_elems(s, cur as int, k_rem) == prepend_elems(
                                    seq![f@],
                                    spec_parse_elems(s, n2 as int, (k_rem - 1) as nat),
                                ));
                            }
                            let ghost prev_acc = acc@;
                            acc.push(f);
                            proof {
                                assert(acc@.drop_last() =~= prev_acc);
                                assert(acc@.last() == f);
                                lemma_frames_view_push(done, acc@, f);
                                lemma_prepend_elems_assoc(
                                    done,
                                    seq![f@],
                                    spec_parse_elems(s, n2 as int, (k_rem - 1) as nat),
                                );
                            }
                            cur = n2;
                            i += 1;
                        }
                        Err(e) => {
                            proof {
                                assert(k_rem > 0);
                            }
                            return Err(e);
                        }
                    }
                }
                proof {
                    assert(spec_parse_elems(s, cur as int, 0) == ElemsOut::Val(
                        Seq::<FrameV>::empty(),
                        cur as int,
                    ));
                    assert(frames_view(acc@) + Seq::<FrameV>::empty() =~= frames_view(acc@));
                    assert(spec_parse_elems(s, n as int, k_total) == ElemsOut::Val(
                        frames_view(acc@),
                        cur as int,
                    ));
                }
                Ok((Frame::Array(acc), cur))
            }
            Err(e) => Err(e),
        }
    } else {
        Err(ParseError::Malformed)
    }
}

/// A successful parse consumes at least one byte.
pub proof fn lemma_spec_parse_advances(s: Seq<u8>, pos: int)
    ensures
        spec_parse(s, pos) is Val ==> spec_parse(s, pos)->Val_1 > pos,
{
    if 0 <= pos < s.len() {
        lemma_first_cr(s, pos + 1);
        lemma_digit_run_end(s, pos + 1);
        if s[pos] == 42 {
            match spec_parse_count(s, pos + 1) {
                ParseOut::Val(f, n) => {
                    lemma_spec_parse_elems_advances(s, n, f->Integer_0 as nat);
                }
                _ => {}
            }
        }
    }
}

/// A successful run of frames ends at or after where it started.
pub proof fn lemma_spec_parse_elems_advances(s: Seq<u8>, pos: int, k: nat)
    ensures
        spec_parse_elems(s, pos, k) is Val ==> spec_parse_elems(s, pos, k)->Val_1 >= pos,
    decreases s.len() - pos, 1int,
{
    if 0 <= pos <= s.len() && k > 0 {
        match spec_parse(s, pos) {
            ParseOut::Val(f, n) => {
                if pos < n <= s.len() {
                    lemma_spec_parse_elems_advances(s, n, (k - 1) as nat);
                }
            }
            _ => {}
        }
    }
}

proof fn lemma_frames_view_push(done: Seq<FrameV>, fs: Seq<Frame>, f: Frame)
    requires
        fs.len() > 0,
        frames_view(fs.drop_last()) == done,
        fs.last() == f,
    ensures
        frames_view(fs) == done.push(f@),
        frames_view(fs) == done + seq![f@],
{
    assert(done.push(f@) =~= done + seq![f@]);
}

proof fn lemma_prepend_elems_assoc(d1: Seq<FrameV>, d2: Seq<FrameV>, o: ElemsOut)
    ensures
        prepend_elems(d1, prepend_elems(d2, o)) == prepend_elems(d1 + d2, o),
{
    match o {
        ElemsOut::Val(es, e) => {
            assert(d1 + (d2 + es) =~= (d1 + d2) + es);
        }
        _ => {}
    }
}

} // verus!

verus! {

use crate::frame::{frame_enc, frames_enc, frame_wf, frames_wf, crlf};
use crate::num::{dec_rep, lemma_dec_rep_props, lemma_dec_val_rep};

/// Every byte of the encoded region can be read off the encoding.
proof fn lemma_enc_region(s: Seq<u8>, pos: int, enc: Seq<u8>)
    requires
        0 <= pos,
        pos + enc.len() <= s.len(),
        s.subrange(pos, pos + enc.len()) == enc,
    ensures
        forall|j: int| pos <= j < pos + enc.len() ==> #[trigger] s[j] == enc[j - pos],
{
    assert forall|j: int| pos <= j < pos + enc.len() implies #[trigger] s[j] == enc[j - pos] by {
        assert(enc[j - pos] == s.subrange(pos, pos + enc.len())[j - pos]);
    }
}

/// The round-trip law of the frame codec: parsing the canonical encoding of
/// any well-formed frame, wherever it stands in a larger byte sequence,
/// yields exactly that frame and consumes exactly its encoding.
#[verifier::rlimit(100)]
#[verifier::spinoff_prover]
pub proof fn lemma_parse_encode(f: FrameV, s: Seq<u8>, pos: int)
    requires
        frame_wf(f),
        0 <= pos,
        pos + frame_enc(f).len() <= s.len(),
        s.subrange(pos, pos + frame_enc(f).len()) == frame_enc(f),
    ensures
        spec_parse(s, pos) == ParseOut::Val(f, pos + frame_enc(f).len()),
    decreases f,
{
    let enc = frame_enc(f);
    let ll = enc.len() as int;
    lemma_enc_region(s, pos, enc);
    match f {
        FrameV::Simple(t) => {
            assert(s[pos] == 43);
            assert(forall|j: int| pos + 1 <= j < pos + 1 + t.len() ==> #[trigger] s[j] == t[j - pos - 1]) by {
                assert(forall|j: int| pos + 1 <= j < pos + 1 + t.len() ==> #[trigger] s[j] == enc[j - pos] && enc[j - pos] == t[j - pos - 1]);
            }
            assert(s[pos + 1 + t.len()] == 13);
            assert(s[pos + 1 + t.len() + 1] == 10);
            assert(forall|j: int| pos + 1 <= j < pos + 1 + t.len() ==> #[trigger] s[j] != 13);
            lemma_first_cr_at(s, pos + 1, pos + 1 + t.len());
            assert(s.subrange(pos + 1, pos + 1 + t.len()) =~= t);
        }
        FrameV::Error(t) => {
            assert(s[pos] == 45);
            assert(forall|j: int| pos + 1 <= j < pos + 1 + t.len() ==> #[trigger] s[j] == t[j - pos - 1]) by {
                assert(forall|j: int| pos + 1 <= j < pos + 1 + t.len() ==> #[trigger] s[j] == enc[j - pos] && enc[j - pos] == t[j - pos - 1]);
            }
            assert(s[pos + 1 + t.len()] == 13);
            assert(s[pos + 1 + t.len() + 1] == 10);
            assert(forall|j: int| pos + 1 <= j < pos + 1 + t.len() ==> #[trigger] s[j] != 13);
            lemma_first_cr_at(s, pos + 1, pos + 1 + t.len());
            assert(s.subrange(pos + 1, pos + 1 + t.len()) =~= t);
        }
        FrameV::Integer(v) => {
            assert(s[pos] == 58);
            let d = dec_rep(v as nat);
            assert(forall|j: int| 0 <= j < d.len() ==> s[pos + 1 + j] == d[j]) by {
                assert(forall|j: int| 0 <= j < d.len() ==> s[pos + 1 + j] == enc[1 + j] && enc[1 + j] == d[j]);
            }
            assert(s[pos + 1 + d.len()] == 13);
            assert(s[pos + 1 + d.len() + 1] == 10);
            lemma_count_encoded(s, pos + 1, v);
        }
        FrameV::Null => {
            assert(s[pos] == 36);
            assert(s[pos + 1] == 45);
            assert(s[pos + 2] == 49);
            assert(s[pos + 3] == 13);
            assert(s[pos + 4] == 10);
        }
        FrameV::Bulk(b) => {
            assert(s[pos] == 36);
            let d = dec_rep(b.len());
            lemma_dec_rep_props(b.len());
            assert(forall|j: int| 0 <= j < d.len() ==> s[pos + 1 + j] == d[j]) by {
                assert(forall|j: int| 0 <= j < d.len() ==> s[pos + 1 + j] == enc[1 + j] && enc[1 + j] == d[j]);
            }
            assert(is_digit(s[pos + 1]));
            assert(s[pos + 1] != 45);
            assert(s[pos + 1 + d.len()] == 13);
            assert(s[pos + 1 + d.len() + 1] == 10);
            lemma_count_encoded(s, pos + 1, b.len() as u64);
            let n0 = pos + 1 + d.len() + 2;
            assert(forall|j: int| n0 <= j < n0 + b.len() ==> #[trigger] s[j] == b[j - n0]) by {
                assert(forall|j: int| n0 <= j < n0 + b.len() ==> #[trigger] s[j] == enc[j - pos] && enc[j - pos] == b[j - n0]);
            }
            assert(s[n0 + b.len()] == 13);
            assert(s[n0 + b.len() + 1] == 10);
            assert(s.subrange(n0, n0 + b.len()) =~= b);
            assert(n0 + b.len() + 2 == pos + ll);
        }
        FrameV::Array(es) => {
            assert(s[pos] == 42);
            let d = dec_rep(es.len());
            lemma_dec_rep_props(es.len());
            assert(forall|j: int| 0 <= j < d.len() ==> s[pos + 1 + j] == d[j]) by {
                assert(forall|j: int| 0 <= j < d.len() ==> s[pos + 1 + j] == enc[1 + j] && enc[1 + j] == d[j]);
            }
            assert(s[pos + 1 + d.len()] == 13);
            assert(s[pos + 1 + d.len() + 1] == 10);
            lemma_count_encoded(s, pos + 1, es.len() as u64);
            let n0 = pos + 1 + d.len() + 2;
            assert(s.subrange(n0, n0 + frames_enc(es).len()) =~= frames_enc(es)) by {
                assert(forall|j: int| 0 <= j < frames_enc(es).len()
                    ==> s.subrange(n0, n0 + frames_enc(es).len())[j] == s[n0 + j]
                        && s[n0 + j] == enc[1 + d.len() + 2 + j]
                        && enc[1 + d.len() + 2 + j] == frames_enc(es)[j]);
            }
            lemma_parse_encode_elems(es, s, n0);
            assert(n0 + frames_enc(es).len() == pos + ll);
        }
    }
}

/// A decimal count written as `digits CRLF` parses back to its value.
proof fn lemma_count_encoded(s: Seq<u8>, pos: int, v: u64)
    requires
        0 <= pos,
        pos + dec_rep(v as nat).len() + 2 <= s.len(),
        forall|j: int| 0 <= j < dec_rep(v as nat).len() ==> s[pos + j] == dec_rep(v as nat)[j],
        s[pos + dec_rep(v as nat).len()] == 13,
        s[pos + dec_rep(v as nat).len() + 1] == 10,
    ensures
        spec_parse_count(s, pos) == ParseOut::Val(
            FrameV::Integer(v),
            pos + dec_rep(v as nat).len() + 2,
        ),
{
    let d = dec_rep(v as nat);
    lemma_dec_rep_props(v as nat);
    let e = pos + d.len();
    assert(forall|j: int| pos <= j < e ==> is_digit(s[j])) by {
        assert(forall|j: int| pos <= j < e ==> s[j] == d[j - pos] && is_digit(d[j - pos]));
    }
    assert(!is_digit(s[e]));
    lemma_digit_run_end_at(s, pos, e);
    assert(s.subrange(pos, e) =~= d);
    lemma_dec_val_rep(v as nat);
}

/// Parsing the concatenated encodings of a list of well-formed frames yields
/// the list back.
pub proof fn lemma_parse_encode_elems(es: Seq<FrameV>, s: Seq<u8>, pos: int)
    requires
        frames_wf(es),
        0 <= pos,
        pos + frames_enc(es).len() <= s.len(),
        s.subrange(pos, pos + frames_enc(es).len()) == frames_enc(es),
    ensures
        spec_parse_elems(s, pos, es.len()) == ElemsOut::Val(es, pos + frames_enc(es).len()),
    decreases es,
{
    if es.len() == 0 {
        assert(spec_parse_elems(s, pos, 0) == ElemsOut::Val(Seq::<FrameV>::empty(), pos));
        assert(es =~= Seq::<FrameV>::empty());
    } else {
        let head = es[0];
        let rest = es.drop_first();
        let henc = frame_enc(head);
        let renc = frames_enc(rest);
        assert(frames_enc(es) == henc + renc);
        lemma_enc_region(s, pos, frames_enc(es));
        assert(s.subrange(pos, pos + henc.len()) =~= henc) by {
            assert(forall|j: int| 0 <= j < henc.len()
                ==> s.subrange(pos, pos + henc.len())[j] == s[pos + j]
                    && s[pos + j] == (henc + renc)[j] && (henc + renc)[j] == henc[j]);
        }
        lemma_parse_encode(head, s, pos);
        let mid = pos + henc.len();
        assert(s.subrange(mid, mid + renc.len()) =~= renc) by {
            assert(forall|j: int| 0 <= j < renc.len()
                ==> s.subrange(mid, mid + renc.len())[j] == s[mid + j]
                    && s[mid + j] == (henc + renc)[henc.len() + j]
                    && (henc + renc)[henc.len() + j] == renc[j]);
        }
        lemma_parse_encode_elems(rest, s, mid);
        assert(henc.len() > 0) by {
            lemma_frame_enc_nonempty(head);
        }
        assert(seq![head] + rest =~= es);
    }
}

/// No frame encodes to the empty byte string.
pub proof fn lemma_frame_enc_nonempty(f: FrameV)
    ensures
        frame_enc(f).len() > 0,
{
}

} // verus!
