//! The RESP wire format: typed frames, their canonical encoding, the exact
//! byte length of that encoding, and a parser that recognises it.

use vstd::prelude::*;
use crate::num::{dec_rep, u64_to_dec};

verus! {

pub const CR: u8 = 13;
pub const LF: u8 = 10;
pub const PLUS: u8 = 43;
pub const DASH: u8 = 45;
pub const COLON: u8 = 58;
pub const DOLLAR: u8 = 36;
pub const STAR: u8 = 42;

/// One RESP message.
#[derive(Debug)]
pub enum Frame {
    /// `+<text>\r\n`
    Simple(Vec<u8>),
    /// `-<text>\r\n`
    Error(Vec<u8>),
    /// `:<digits>\r\n`
    Integer(u64),
    /// `$<len>\r\n<bytes>\r\n`
    Bulk(Vec<u8>),
    /// `$-1\r\n`
    Null,
    /// `*<len>\r\n<frame>...`
    Array(Vec<Frame>),
}

/// The mathematical shape of a frame.
pub enum FrameV {
    Simple(Seq<u8>),
    Error(Seq<u8>),
    Integer(u64),
    Bulk(Seq<u8>),
    Null,
    Array(Seq<FrameV>),
}

pub open spec fn frames_view(fs: Seq<Frame>) -> Seq<FrameV>
    decreases fs,
{
    if fs.len() == 0 {
        Seq::empty()
    } else {
        frames_view(fs.drop_last()).push(fs.last()@)
    }
}

impl View for Frame {
    type V = FrameV;

    open spec fn view(&self) -> FrameV
        decreases self,
    {
        match self {
            Frame::Simple(s) => FrameV::Simple(s@),
            Frame::Error(s) => FrameV::Error(s@),
            Frame::Integer(n) => FrameV::Integer(*n),
            Frame::Bulk(b) => FrameV::Bulk(b@),
            Frame::Null => FrameV::Null,
            Frame::Array(fs) => FrameV::Array(frames_view(fs@)),
        }
    }
}

pub proof fn lemma_frames_view(fs: Seq<Frame>)
    ensures
        frames_view(fs).len() == fs.len(),
        forall|i: int| 0 <= i < fs.len() ==> frames_view(fs)[i] == fs[i]@,
    decreases fs,
{
    if fs.len() > 0 {
        lemma_frames_view(fs.drop_last());
        assert(frames_view(fs) == frames_view(fs.drop_last()).push(fs.last()@));
        assert(frames_view(fs.drop_last()).len() == fs.len() - 1);
        assert forall|i: int| 0 <= i < fs.len() implies frames_view(fs)[i] == fs[i]@ by {
            if i < fs.len() - 1 {
                assert(frames_view(fs)[i] == frames_view(fs.drop_last())[i]);
                assert(fs.drop_last()[i] == fs[i]);
            } else {
                assert(frames_view(fs)[i] == fs.last()@);
            }
        }
    }
}

pub open spec fn crlf() -> Seq<u8> {
    seq![13u8, 10u8]
}

/// The canonical RESP encoding of a frame.
pub open spec fn frame_enc(f: FrameV) -> Seq<u8>
    decreases f,
{
    match f {
        FrameV::Simple(s) => seq![43u8] + s + crlf(),
        FrameV::Error(s) => seq![45u8] + s + crlf(),
        FrameV::Integer(n) => seq![58u8] + dec_rep(n as nat) + crlf(),
        FrameV::Bulk(b) => seq![36u8] + dec_rep(b.len()) + crlf() + b + crlf(),
        FrameV::Null => seq![36u8, 45u8, 49u8, 13u8, 10u8],
        FrameV::Array(es) => seq![42u8] + dec_rep(es.len()) + crlf() + frames_enc(es),
    }
}

pub open spec fn frames_enc(es: Seq<FrameV>) -> Seq<u8>
    decreases es,
{
    if es.len() == 0 {
        Seq::empty()
    } else {
        frame_enc(es[0]) + frames_enc(es.drop_first())
    }
}

/// A line of text may not contain the CRLF delimiter bytes.
pub open spec fn line_ok(s: Seq<u8>) -> bool {
    forall|i: int| 0 <= i < s.len() ==> #[trigger] s[i] != 13 && s[i] != 10
}

/// Frames that the codec round-trips: text lines carry no CR or LF, and
/// every length fits the wire's unsigned 64-bit counters.
pub open spec fn frame_wf(f: FrameV) -> bool
    decreases f,
{
    match f {
        FrameV::Simple(s) => line_ok(s) && s.len() <= u64::MAX,
        FrameV::Error(s) => line_ok(s) && s.len() <= u64::MAX,
        FrameV::Integer(_) => true,
        FrameV::Bulk(b) => b.len() <= u64::MAX,
        FrameV::Null => true,
        FrameV::Array(es) => es.len() <= u64::MAX && frames_wf(es),
    }
}

pub open spec fn frames_wf(es: Seq<FrameV>) -> bool
    decreases es,
{
    if es.len() == 0 {
        true
    } else {
        frame_wf(es[0]) && frames_wf(es.drop_first())
    }
}

pub proof fn lemma_frames_enc_push(es: Seq<FrameV>, e: FrameV)
    ensures
        frames_enc(es.push(e)) == frames_enc(es) + frame_enc(e),
    decreases es,
{
    if es.len() == 0 {
        let p = es.push(e);
        assert(p.len() == 1);
        assert(p[0] == e);
        assert(p.drop_first() =~= Seq::<FrameV>::empty());
        assert(frames_enc(p.drop_first()) == Seq::<u8>::empty());
        assert(frames_enc(p) == frame_enc(e) + Seq::<u8>::empty());
        assert(frame_enc(e) + Seq::<u8>::empty() =~= frame_enc(e));
        assert(Seq::<u8>::empty() + frame_enc(e) =~= frame_enc(e));
    } else {
        assert(es.push(e).drop_first() =~= es.drop_first().push(e));
        lemma_frames_enc_push(es.drop_first(), e);
        assert(es.push(e)[0] == es[0]);
        assert(frame_enc(es[0]) + (frames_enc(es.drop_first()) + frame_enc(e)) =~= (frame_enc(
            es[0],
        ) + frames_enc(es.drop_first())) + frame_enc(e));
    }
}

impl Clone for Frame {
    /// A clone denotes the same frame.
    #[verifier::loop_isolation(false)]
    fn clone(&self) -> (r: Self)
        ensures
            r@ == self@,
        decreases self,
    {
        match self {
            Frame::Simple(s) => Frame::Simple(clone_bytes(s)),
            Frame::Error(s) => Frame::Error(clone_bytes(s)),
            Frame::Integer(n) => Frame::Integer(*n),
            Frame::Bulk(b) => Frame::Bulk(clone_bytes(b)),
            Frame::Null => Frame::Null,
            Frame::Array(fs) => {
                let mut out: Vec<Frame> = Vec::new();
                let mut i: usize = 0;
                while i < fs.len()
                    invariant
                        i <= fs.len(),
                        out@.len() == i,
                        forall|j: int| 0 <= j < i ==> out@[j]@ == fs@[j]@,
                    decreases fs.len() - i,
                {
                    out.push(fs[i].clone());
                    i += 1;
                }
                proof {
                    lemma_frames_view(out@);
                    lemma_frames_view(fs@);
                    assert(frames_view(out@) =~= frames_view(fs@));
                }
                Frame::Array(out)
            }
        }
    }
}

/// Copies a byte vector.
pub fn clone_bytes(v: &Vec<u8>) -> (r: Vec<u8>)
    ensures
        r@ == v@,
{
    let mut out: Vec<u8> = Vec::new();
    append_all(&mut out, v.as_slice());
    proof {
        assert(out@ =~= v@);
    }
    out
}

impl Frame {
    /// The canonical encoding of this frame, as bytes.
    pub fn to_bytes(&self) -> (r: Vec<u8>)
        ensures
            r@ == frame_enc(self@),
    {
        let mut out: Vec<u8> = Vec::new();
        self.encode_into(&mut out);
        proof {
            assert(out@ =~= frame_enc(self@));
        }
        out
    }

    /// Appends the canonical encoding of this frame to `out`.
    #[verifier::loop_isolation(false)]
    pub fn encode_into(&self, out: &mut Vec<u8>)
        ensures
            final(out)@ == old(out)@ + frame_enc(self@),
        decreases self,
    {
        let ghost start = out@;
        match self {
            Frame::Simple(s) => {
                out.push(PLUS);
                append_all(out, s.as_slice());
                out.push(CR);
                out.push(LF);
                proof {
                    assert(out@ =~= start + frame_enc(self@));
                }
            }
            Frame::Error(s) => {
                out.push(DASH);
                append_all(out, s.as_slice());
                out.push(CR);
                out.push(LF);
                proof {
                    assert(out@ =~= start + frame_enc(self@));
                }
            }
            Frame::Integer(n) => {
                out.push(COLON);
                let digits = u64_to_dec(*n);
                append_all(out, digits.as_slice());
                out.push(CR);
                out.push(LF);
                proof {
                    assert(out@ =~= start + frame_enc(self@));
                }
            }
            Frame::Bulk(b) => {
                out.push(DOLLAR);
                let digits = u64_to_dec(b.len() as u64);
                append_all(out, digits.as_slice());
                out.push(CR);
                out.push(LF);
                append_all(out, b.as_slice());
                out.push(CR);
                out.push(LF);
                proof {
                    assert(out@ =~= start + frame_enc(self@));
                }
            }
            Frame::Null => {
                out.push(DOLLAR);
                out.push(DASH);
                out.push(49);
                out.push(CR);
                out.push(LF);
                proof {
                    assert(out@ =~= start + frame_enc(self@));
                }
            }
            Frame::Array(fs) => {
                out.push(STAR);
                let digits = u64_to_dec(fs.len() as u64);
                append_all(out, digits.as_slice());
                out.push(CR);
                out.push(LF);
                let ghost es = frames_view(fs@);
                proof {
                    lemma_frames_view(fs@);
                    assert(out@ =~= start + seq![42u8] + dec_rep(fs@.len() as nat) + crlf());
                }
                let mut i: usize = 0;
                while i < fs.len()
                    invariant
                        i <= fs.len(),
                        es == frames_view(fs@),
                        es.len() == fs@.len(),
                        forall|j: int| 0 <= j < fs@.len() ==> es[j] == fs@[j]@,
                        out@ == start + seq![42u8] + dec_rep(fs@.len() as nat) + crlf()
                            + frames_enc(es.take(i as int)),
                    decreases fs.len() - i,
                {
                    let ghost before = out@;
                    fs[i].encode_into(out);
                    proof {
                        assert(es.take(i + 1).drop_last() =~= es.take(i as int));
                        assert(es.take(i + 1) =~= es.take(i as int).push(es[i as int]));
                        lemma_frames_enc_push(es.take(i as int), es[i as int]);
                        assert(out@ =~= start + seq![42u8] + dec_rep(fs@.len() as nat) + crlf()
                            + frames_enc(es.take(i + 1)));
                    }
                    i += 1;
                }
                proof {
                    assert(es.take(es.len() as int) =~= es);
                    assert(out@ =~= start + frame_enc(self@));
                }
            }
        }
    }

    /// The length of the canonical encoding, computed without serializing.
    #[verifier::loop_isolation(false)]
    pub fn num_of_bytes(&self) -> (r: u64)
        requires
            frame_enc(self@).len() <= u64::MAX,
        ensures
            r == frame_enc(self@).len(),
        decreases self,
    {
        match self {
            Frame::Simple(s) => s.len() as u64 + 3,
            Frame::Error(s) => s.len() as u64 + 3,
            Frame::Integer(n) => {
                let digits = u64_to_dec(*n);
                digits.len() as u64 + 3
            }
            Frame::Bulk(b) => {
                let digits = u64_to_dec(b.len() as u64);
                b.len() as u64 + digits.len() as u64 + 5
            }
            Frame::Null => 5,
            Frame::Array(fs) => {
                let digits = u64_to_dec(fs.len() as u64);
                let ghost es = frames_view(fs@);
                proof {
                    lemma_frames_view(fs@);
                }
                let mut sum: u64 = digits.len() as u64 + 3;
                let mut i: usize = 0;
                while i < fs.len()
                    invariant
                        i <= fs.len(),
                        es == frames_view(fs@),
                        es.len() == fs@.len(),
                        forall|j: int| 0 <= j < fs@.len() ==> es[j] == fs@[j]@,
                        frame_enc(self@).len() <= u64::MAX,
                        frame_enc(self@).len() == dec_rep(fs@.len() as nat).len() + 3
                            + frames_enc(es).len(),
                        sum == dec_rep(fs@.len() as nat).len() + 3 + frames_enc(
                            es.take(i as int),
                        ).len(),
                    decreases fs.len() - i,
                {
                    proof {
                        lemma_frames_enc_split(es, i as int);
                        assert(es.take(i + 1) =~= es.take(i as int).push(es[i as int]));
                        lemma_frames_enc_push(es.take(i as int), es[i as int]);
                    }
                    let part = fs[i].num_of_bytes();
                    sum = sum + part;
                    i += 1;
                }
                proof {
                    assert(es.take(es.len() as int) =~= es);
                }
                sum
            }
        }
    }
}

/// The encoding of a prefix of an element list, followed by the rest, is the
/// encoding of the list; so every partial sum of element lengths is bounded.
pub proof fn lemma_frames_enc_split(es: Seq<FrameV>, i: int)
    requires
        0 <= i <= es.len(),
    ensures
        frames_enc(es) == frames_enc(es.take(i)) + frames_enc(es.skip(i)),
    decreases i,
{
    if i == 0 {
        assert(es.take(0) =~= Seq::<FrameV>::empty());
        assert(es.skip(0) =~= es);
        assert(frames_enc(es) =~= Seq::<u8>::empty() + frames_enc(es));
    } else {
        assert(es.len() > 0);
        lemma_frames_enc_split(es.drop_first(), i - 1);
        assert(es.take(i)[0] == es[0]);
        assert(es.take(i).drop_first() =~= es.drop_first().take(i - 1));
        assert(es.skip(i) =~= es.drop_first().skip(i - 1));
        assert(frame_enc(es[0]) + (frames_enc(es.drop_first().take(i - 1)) + frames_enc(
            es.skip(i),
        )) =~= (frame_enc(es[0]) + frames_enc(es.drop_first().take(i - 1))) + frames_enc(
            es.skip(i),
        ));
    }
}

/// Appends every byte of `src` to `out`.
pub fn append_all(out: &mut Vec<u8>, src: &[u8])
    ensures
        final(out)@ == old(out)@ + src@,
{
    let mut i: usize = 0;
    while i < src.len()
        invariant
            i <= src.len(),
            out@ == old(out)@ + src@.take(i as int),
        decreases src.len() - i,
    {
        out.push(src[i]);
        proof {
            assert(old(out)@ + src@.take(i + 1) =~= (old(out)@ + src@.take(i as int)).push(
                src@[i as int],
            ));
        }
        i += 1;
    }
    proof {
        assert(src@.take(src@.len() as int) =~= src@);
    }
}

} // verus!
