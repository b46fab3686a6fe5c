//! The append-only log's line format: one canonical RESP frame per line,
//! with each CRLF of the encoding written as the two-character escape, and
//! the line closed by a newline. The unescape direction inverts the escape
//! on backslash-free frames.

use vstd::prelude::*;
use crate::frame::{Frame, frame_enc};

verus! {

/// The escape of a byte string: every CRLF pair becomes `\r\n` written out
/// as four characters; all other bytes pass through.
pub open spec fn aof_escape(s: Seq<u8>) -> Seq<u8>
    decreases s.len(),
{
    if s.len() == 0 {
        Seq::empty()
    } else if s.len() >= 2 && s[0] == 13 && s[1] == 10 {
        seq![92u8, 114u8, 92u8, 110u8] + aof_escape(s.skip(2))
    } else {
        seq![s[0]] + aof_escape(s.skip(1))
    }
}

/// The inverse: every four-character `\r\n` becomes a CRLF pair.
pub open spec fn aof_unescape(s: Seq<u8>) -> Seq<u8>
    decreases s.len(),
{
    if s.len() == 0 {
        Seq::empty()
    } else if s.len() >= 4 && s[0] == 92 && s[1] == 114 && s[2] == 92 && s[3] == 110 {
        seq![13u8, 10u8] + aof_unescape(s.skip(4))
    } else {
        seq![s[0]] + aof_unescape(s.skip(1))
    }
}

pub open spec fn no_backslash(s: Seq<u8>) -> bool {
    forall|i: int| 0 <= i < s.len() ==> #[trigger] s[i] != 92
}

/// The log line round-trips: on a byte string free of backslashes — as
/// every canonical frame of the core commands is — unescaping the escape
/// yields the original bytes.
pub proof fn lemma_aof_roundtrip(s: Seq<u8>)
    requires
        no_backslash(s),
    ensures
        aof_unescape(aof_escape(s)) == s,
    decreases s.len(),
{
    if s.len() == 0 {
        assert(aof_unescape(aof_escape(s)) =~= s);
    } else if s.len() >= 2 && s[0] == 13 && s[1] == 10 {
        let rest = s.skip(2);
        assert(forall|i: int| 0 <= i < rest.len() ==> #[trigger] rest[i] != 92);
        lemma_aof_roundtrip(rest);
        let e = aof_escape(s);
        assert(e == seq![92u8, 114u8, 92u8, 110u8] + aof_escape(rest));
        assert(e.skip(4) =~= aof_escape(rest));
        assert(aof_unescape(e) == seq![13u8, 10u8] + aof_unescape(aof_escape(rest)));
        assert(seq![13u8, 10u8] + rest =~= s);
    } else {
        let rest = s.skip(1);
        assert(forall|i: int| 0 <= i < rest.len() ==> #[trigger] rest[i] != 92);
        lemma_aof_roundtrip(rest);
        let e = aof_escape(s);
        assert(e == seq![s[0]] + aof_escape(rest));
        assert(e[0] == s[0] && s[0] != 92);
        assert(e.skip(1) =~= aof_escape(rest));
        assert(aof_unescape(e) == seq![s[0]] + aof_unescape(aof_escape(rest)));
        assert(seq![s[0]] + rest =~= s);
    }
}

/// Escapes a byte string for the log.
pub fn escape_bytes(s: &[u8]) -> (r: Vec<u8>)
    ensures
        r@ == aof_escape(s@),
{
    let mut out: Vec<u8> = Vec::new();
    let mut i: usize = 0;
    proof {
        assert(s@.skip(0) =~= s@);
    }
    while i < s.len()
        invariant
            i <= s@.len(),
            aof_escape(s@) == out@ + aof_escape(s@.skip(i as int)),
        decreases s@.len() - i,
    {
        let ghost rest = s@.skip(i as int);
        let ghost before = out@;
        if s.len() - i >= 2 && s[i] == 13 && s[i + 1] == 10 {
            out.push(92);
            out.push(114);
            out.push(92);
            out.push(110);
            proof {
                assert(rest[0] == 13 && rest[1] == 10);
                assert(s@.skip(i + 2) =~= rest.skip(2));
                assert(out@ =~= before + seq![92u8, 114u8, 92u8, 110u8]);
                assert(aof_escape(s@) =~= out@ + aof_escape(s@.skip(i + 2)));
            }
            i += 2;
        } else {
            out.push(s[i]);
            proof {
                assert(rest[0] == s@[i as int]);
                assert(!(rest.len() >= 2 && rest[0] == 13 && rest[1] == 10));
                assert(s@.skip(i + 1) =~= rest.skip(1));
                assert(out@ =~= before + seq![rest[0]]);
                assert(aof_escape(s@) =~= out@ + aof_escape(s@.skip(i + 1)));
            }
            i += 1;
        }
    }
    proof {
        assert(s@.skip(s@.len() as int) =~= Seq::<u8>::empty());
        assert(aof_escape(s@) =~= out@);
    }
    out
}

/// Unescapes one log line back into frame bytes.
pub fn unescape_bytes(s: &[u8]) -> (r: Vec<u8>)
    ensures
        r@ == aof_unescape(s@),
{
    let mut out: Vec<u8> = Vec::new();
    let mut i: usize = 0;
    proof {
        assert(s@.skip(0) =~= s@);
    }
    while i < s.len()
        invariant
            i <= s@.len(),
            aof_unescape(s@) == out@ + aof_unescape(s@.skip(i as int)),
        decreases s@.len() - i,
    {
        let ghost rest = s@.skip(i as int);
        let ghost before = out@;
        if s.len() - i >= 4 && s[i] == 92 && s[i + 1] == 114 && s[i + 2] == 92 && s[i + 3] == 110 {
            out.push(13);
            out.push(10);
            proof {
                assert(rest[0] == 92 && rest[1] == 114 && rest[2] == 92 && rest[3] == 110);
                assert(s@.skip(i + 4) =~= rest.skip(4));
                assert(out@ =~= before + seq![13u8, 10u8]);
                assert(aof_unescape(s@) =~= out@ + aof_unescape(s@.skip(i + 4)));
            }
            i += 4;
        } else {
            out.push(s[i]);
            proof {
                assert(rest[0] == s@[i as int]);
                assert(!(rest.len() >= 4 && rest[0] == 92 && rest[1] == 114 && rest[2] == 92
                    && rest[3] == 110));
                assert(s@.skip(i + 1) =~= rest.skip(1));
                assert(out@ =~= before + seq![rest[0]]);
                assert(aof_unescape(s@) =~= out@ + aof_unescape(s@.skip(i + 1)));
            }
            i += 1;
        }
    }
    proof {
        assert(s@.skip(s@.len() as int) =~= Seq::<u8>::empty());
        assert(aof_unescape(s@) =~= out@);
    }
    out
}

/// The in-memory buffer commands are appended to before the log file is
/// written.
pub struct AofBuffer {
    pub buffer: Vec<u8>,
}

impl View for AofBuffer {
    type V = Seq<u8>;

    open spec fn view(&self) -> Seq<u8> {
        self.buffer@
    }
}

impl AofBuffer {
    pub fn new() -> (r: AofBuffer)
        ensures
            r@ == Seq::<u8>::empty(),
    {
        AofBuffer { buffer: Vec::new() }
    }

    /// Appends one frame as a log line: its escaped canonical encoding and
    /// a closing newline.
    pub fn append(&mut self, f: &Frame)
        ensures
            final(self)@ == old(self)@ + aof_escape(frame_enc(f@)) + seq![10u8],
    {
        let bytes = f.to_bytes();
        let escaped = escape_bytes(bytes.as_slice());
        crate::frame::append_all(&mut self.buffer, escaped.as_slice());
        self.buffer.push(10);
        proof {
            assert(self.buffer@ =~= old(self)@ + aof_escape(frame_enc(f@)) + seq![10u8]);
        }
    }

    /// Hands the buffered bytes over for writing and leaves the buffer
    /// empty.
    pub fn take(&mut self) -> (r: Vec<u8>)
        ensures
            r@ == old(self)@,
            final(self)@ == Seq::<u8>::empty(),
    {
        let mut out: Vec<u8> = Vec::new();
        std::mem::swap(&mut out, &mut self.buffer);
        out
    }
}

} // verus!
