//! The replication engine's verified core: the backlog ring of recently
//! propagated bytes, the leader offset, acknowledgement counting for WAIT,
//! the PSYNC decision between full and partial resynchronization, the
//! follower's handshake state machine, and the law that a full resync
//! reproduces the leader's keyspace.

use vstd::prelude::*;
use crate::frame::{Frame, FrameV, frame_enc, frames_enc, frames_view, lemma_frames_view,
    lemma_frames_enc_push, clone_bytes};
use crate::store::{ObjV, obj_wf, kv_empty};
use crate::cmd::{CmdV, cmd_store_effect, upper, kw_getack};
use crate::num::{dec_rep, dec_val, all_digits, parse_u64, u64_to_dec, lemma_dec_val_rep};
use crate::rdb::{entry_fits, kvs_view, snapshot_enc, spec_dec_snapshot, lemma_snapshot_roundtrip};

verus! {

/// The replication backlog: the most recent bytes propagated to followers,
/// capped at the configured capacity; the oldest bytes fall off the front.
pub struct RepliBackLog {
    pub buf: Vec<u8>,
    pub capacity: u64,
}

impl View for RepliBackLog {
    type V = Seq<u8>;

    open spec fn view(&self) -> Seq<u8> {
        self.buf@
    }
}

impl RepliBackLog {
    pub open spec fn cap(&self) -> u64 {
        self.capacity
    }

    pub open spec fn inv(&self) -> bool {
        self@.len() <= self.capacity
    }

    /// A backlog with at least 1024 bytes of capacity.
    pub fn new(capacity: u64) -> (r: RepliBackLog)
        ensures
            r@ == Seq::<u8>::empty(),
            r.cap() == if capacity < 1024 { 1024u64 } else { capacity },
            r.inv(),
    {
        let cap = if capacity < 1024 {
            1024
        } else {
            capacity
        };
        RepliBackLog { buf: Vec::new(), capacity: cap }
    }

    /// Appends bytes, dropping the oldest ones beyond the capacity.
    pub fn force_append(&mut self, cmd: &[u8])
        requires
            old(self).inv(),
        ensures
            final(self).inv(),
            final(self).cap() == old(self).cap(),
            ({
                let total = old(self)@ + cmd@;
                if total.len() <= old(self).cap() {
                    final(self)@ == total
                } else {
                    final(self)@ == total.skip(total.len() - old(self).cap())
                }
            }),
    {
        crate::frame::append_all(&mut self.buf, cmd);
        let len64 = self.buf.len() as u64;
        if len64 > self.capacity {
            let drop = (len64 - self.capacity) as usize;
            let kept = crate::parse::copy_range(self.buf.as_slice(), drop, self.buf.len());
            proof {
                assert(kept@ =~= (old(self)@ + cmd@).skip(
                    (old(self)@ + cmd@).len() - old(self).cap(),
                ));
            }
            self.buf = kept;
        }
    }

    /// The number of bytes held.
    pub fn len(&self) -> (r: usize)
        ensures
            r == self@.len(),
    {
        self.buf.len()
    }

    /// The last `n` bytes, oldest first, or nothing when fewer are held.
    pub fn get_from_end(&self, n: usize) -> (r: Option<Vec<u8>>)
        ensures
            match r {
                Some(v) => n <= self@.len() && v@ == self@.skip(self@.len() - n),
                None => n > self@.len(),
            },
    {
        if n > self.buf.len() {
            return None;
        }
        let v = crate::parse::copy_range(self.buf.as_slice(), self.buf.len() - n, self.buf.len());
        Some(v)
    }
}

/// Queues one frame for propagation: its canonical bytes enter the backlog
/// and the leader offset advances by exactly its encoded length.
pub fn propagate_frame(offset: u64, backlog: &mut RepliBackLog, f: &Frame) -> (r: (u64, Vec<u8>))
    requires
        old(backlog).inv(),
        offset + frame_enc(f@).len() <= u64::MAX,
    ensures
        final(backlog).inv(),
        final(backlog).cap() == old(backlog).cap(),
        r.0 == offset + frame_enc(f@).len(),
        r.1@ == frame_enc(f@),
        ({
            let total = old(backlog)@ + frame_enc(f@);
            if total.len() <= old(backlog).cap() {
                final(backlog)@ == total
            } else {
                final(backlog)@ == total.skip(total.len() - old(backlog).cap())
            }
        }),
{
    let bytes = f.to_bytes();
    backlog.force_append(bytes.as_slice());
    let new_offset = offset + bytes.len() as u64;
    (new_offset, bytes)
}

/// Queues a run of frames in order. The leader offset afterwards has grown
/// by exactly the total encoded length of the frames — the offset law.
pub fn propagate_frames(offset: u64, backlog: &mut RepliBackLog, frames: &Vec<Frame>) -> (r: u64)
    requires
        old(backlog).inv(),
        offset + frames_enc(frames_view(frames@)).len() <= u64::MAX,
    ensures
        final(backlog).inv(),
        r == offset + frames_enc(frames_view(frames@)).len(),
{
    let ghost es = frames_view(frames@);
    proof {
        lemma_frames_view(frames@);
        crate::frame::lemma_frames_enc_split(es, 0);
        assert(es.take(0) =~= Seq::<FrameV>::empty());
    }
    let mut off: u64 = offset;
    let mut i: usize = 0;
    while i < frames.len()
        invariant
            i <= frames@.len(),
            backlog.inv(),
            es == frames_view(frames@),
            es.len() == frames@.len(),
            forall|j: int| 0 <= j < frames@.len() ==> es[j] == frames@[j]@,
            off == offset + frames_enc(es.take(i as int)).len(),
            offset + frames_enc(es).len() <= u64::MAX,
        decreases frames@.len() - i,
    {
        proof {
            assert(es.take(i + 1) =~= es.take(i as int).push(es[i as int]));
            lemma_frames_enc_push(es.take(i as int), es[i as int]);
            crate::frame::lemma_frames_enc_split(es, i + 1);
        }
        let (new_off, _bytes) = propagate_frame(off, backlog, &frames[i]);
        off = new_off;
        i += 1;
    }
    proof {
        assert(es.take(es.len() as int) =~= es);
    }
    off
}


/// The total length of a run of frames is the sum of each frame's encoded
/// length; with `propagate_frames` this is the offset law in its summed
/// form.
pub open spec fn enc_len_sum(es: Seq<FrameV>) -> int
    decreases es.len(),
{
    if es.len() == 0 {
        0
    } else {
        frame_enc(es[0]).len() + enc_len_sum(es.drop_first())
    }
}

pub proof fn lemma_offset_is_sum(es: Seq<FrameV>)
    ensures
        frames_enc(es).len() == enc_len_sum(es),
    decreases es.len(),
{
    if es.len() > 0 {
        lemma_offset_is_sum(es.drop_first());
    }
}

/// The acknowledged offset a frame reports, when it is `REPLCONF ACK <n>`.
pub open spec fn ack_of(f: FrameV) -> Option<u64> {
    match f {
        FrameV::Array(es) => if es.len() == 3 && es[0] is Bulk && es[1] is Bulk && es[2] is Bulk
            && crate::cmd::kw_replconf(upper(es[0]->Bulk_0)) && crate::cmd::kw_ack(
            upper(es[1]->Bulk_0),
        ) && es[2]->Bulk_0.len() > 0 && all_digits(es[2]->Bulk_0) && dec_val(es[2]->Bulk_0)
            <= u64::MAX {
            Some(dec_val(es[2]->Bulk_0) as u64)
        } else {
            None
        },
        _ => None,
    }
}

/// How many of the frames acknowledge at least `target`.
pub open spec fn spec_count_acks(fs: Seq<FrameV>, target: u64) -> int
    decreases fs.len(),
{
    if fs.len() == 0 {
        0
    } else {
        (match ack_of(fs[0]) {
            Some(n) => if n >= target {
                1int
            } else {
                0int
            },
            None => 0int,
        }) + spec_count_acks(fs.drop_first(), target)
    }
}

/// Counts the followers whose `REPLCONF ACK` reply reaches the leader
/// offset recorded when WAIT began.
pub fn count_acks(replies: &Vec<Frame>, target: u64) -> (r: u64)
    ensures
        r == spec_count_acks(frames_view(replies@), target),
{
    let ghost fs = frames_view(replies@);
    proof {
        lemma_frames_view(replies@);
        assert(fs.skip(0) =~= fs);
    }
    let mut count: u64 = 0;
    let mut i: usize = 0;
    while i < replies.len()
        invariant
            i <= replies@.len(),
            fs == frames_view(replies@),
            fs.len() == replies@.len(),
            forall|j: int| 0 <= j < replies@.len() ==> fs[j] == replies@[j]@,
            count <= i,
            spec_count_acks(fs, target) == count + spec_count_acks(fs.skip(i as int), target),
        decreases replies@.len() - i,
    {
        proof {
            assert(fs.skip(i as int)[0] == fs[i as int]);
            assert(fs.skip(i as int).drop_first() =~= fs.skip(i + 1));
        }
        let acked = match &replies[i] {
            Frame::Array(es) => {
                proof {
                    lemma_frames_view(es@);
                    assert(fs[i as int] == FrameV::Array(frames_view(es@)));
                }
                if es.len() == 3 {
                    match (&es[0], &es[1], &es[2]) {
                        (Frame::Bulk(b0), Frame::Bulk(b1), Frame::Bulk(b2)) => {
                            proof {
                                assert(frames_view(es@)[0] == FrameV::Bulk(b0@));
                                assert(frames_view(es@)[1] == FrameV::Bulk(b1@));
                                assert(frames_view(es@)[2] == FrameV::Bulk(b2@));
                            }
                            let u0 = crate::cmd::to_upper_vec(b0.as_slice());
                            let u1 = crate::cmd::to_upper_vec(b1.as_slice());
                            let c0 = u0.as_slice();
                            let c1 = u1.as_slice();
                            if (c0.len() == 8 && c0[0] == 82 && c0[1] == 69 && c0[2] == 80 && c0[3] == 76 && c0[4] == 67 && c0[5] == 79 && c0[6] == 78 && c0[7] == 70) && (c1.len() == 3 && c1[0] == 65 && c1[1] == 67 && c1[2] == 75) {
                                match parse_u64(b2.as_slice()) {
                                    Some(n) => n >= target,
                                    None => false,
                                }
                            } else {
                                false
                            }
                        }
                        _ => {
                            proof {
                                let gs = frames_view(es@);
                                assert(gs[0] == es@[0]@ && gs[1] == es@[1]@ && gs[2] == es@[2]@);
                                assert(!(gs[0] is Bulk) || !(gs[1] is Bulk) || !(gs[2] is Bulk));
                                assert(ack_of(fs[i as int]) is None);
                            }
                            false
                        }
                    }
                } else {
                    false
                }
            }
            _ => false,
        };
        proof {
            assert(acked == (match ack_of(fs[i as int]) {
                Some(n) => n >= target,
                None => false,
            }));
        }
        if acked {
            count = count + 1;
        }
        i += 1;
    }
    proof {
        assert(fs.skip(fs.len() as int) =~= Seq::<FrameV>::empty());
    }
    count
}

pub open spec fn lit_ping() -> Seq<u8> {
    seq![80u8, 73u8, 78u8, 71u8]
}

pub open spec fn lit_auth() -> Seq<u8> {
    seq![65u8, 85u8, 84u8, 72u8]
}

pub open spec fn lit_listening_port() -> Seq<u8> {
    seq![108u8, 105u8, 115u8, 116u8, 101u8, 110u8, 105u8, 110u8, 103u8, 45u8, 112u8, 111u8, 114u8, 116u8]
}

pub open spec fn lit_capa() -> Seq<u8> {
    seq![99u8, 97u8, 112u8, 97u8]
}

pub open spec fn lit_psync2() -> Seq<u8> {
    seq![112u8, 115u8, 121u8, 110u8, 99u8, 50u8]
}

pub open spec fn lit_psync() -> Seq<u8> {
    seq![80u8, 83u8, 89u8, 78u8, 67u8]
}

pub open spec fn lit_question() -> Seq<u8> {
    seq![63u8]
}

pub open spec fn lit_minus_one() -> Seq<u8> {
    seq![45u8, 49u8]
}

pub open spec fn lit_fullresync_sp() -> Seq<u8> {
    seq![70u8, 85u8, 76u8, 76u8, 82u8, 69u8, 83u8, 89u8, 78u8, 67u8, 32u8]
}

pub open spec fn lit_continue() -> Seq<u8> {
    seq![67u8, 79u8, 78u8, 84u8, 73u8, 78u8, 85u8, 69u8]
}

pub open spec fn lit_pong() -> Seq<u8> {
    seq![80u8, 79u8, 78u8, 71u8]
}

pub open spec fn lit_space() -> Seq<u8> {
    seq![32u8]
}

fn append_lit_ping(out: &mut Vec<u8>)
    ensures
        final(out)@ == old(out)@ + lit_ping(),
{
    let ghost start = out@;
    out.push(80);
    out.push(73);
    out.push(78);
    out.push(71);
    proof {
        assert(out@ =~= start + lit_ping());
    }
}

fn append_lit_auth(out: &mut Vec<u8>)
    ensures
        final(out)@ == old(out)@ + lit_auth(),
{
    let ghost start = out@;
    out.push(65);
    out.push(85);
    out.push(84);
    out.push(72);
    proof {
        assert(out@ =~= start + lit_auth());
    }
}

fn append_lit_listening_port(out: &mut Vec<u8>)
    ensures
        final(out)@ == old(out)@ + lit_listening_port(),
{
    let ghost start = out@;
    out.push(108);
    out.push(105);
    out.push(115);
    out.push(116);
    out.push(101);
    out.push(110);
    out.push(105);
    out.push(110);
    out.push(103);
    out.push(45);
    out.push(112);
    out.push(111);
    out.push(114);
    out.push(116);
    proof {
        assert(out@ =~= start + lit_listening_port());
    }
}

fn append_lit_capa(out: &mut Vec<u8>)
    ensures
        final(out)@ == old(out)@ + lit_capa(),
{
    let ghost start = out@;
    out.push(99);
    out.push(97);
    out.push(112);
    out.push(97);
    proof {
        assert(out@ =~= start + lit_capa());
    }
}

fn append_lit_psync2(out: &mut Vec<u8>)
    ensures
        final(out)@ == old(out)@ + lit_psync2(),
{
    let ghost start = out@;
    out.push(112);
    out.push(115);
    out.push(121);
    out.push(110);
    out.push(99);
    out.push(50);
    proof {
        assert(out@ =~= start + lit_psync2());
    }
}

fn append_lit_psync(out: &mut Vec<u8>)
    ensures
        final(out)@ == old(out)@ + lit_psync(),
{
    let ghost start = out@;
    out.push(80);
    out.push(83);
    out.push(89);
    out.push(78);
    out.push(67);
    proof {
        assert(out@ =~= start + lit_psync());
    }
}

fn append_lit_question(out: &mut Vec<u8>)
    ensures
        final(out)@ == old(out)@ + lit_question(),
{
    let ghost start = out@;
    out.push(63);
    proof {
        assert(out@ =~= start + lit_question());
    }
}

fn append_lit_minus_one(out: &mut Vec<u8>)
    ensures
        final(out)@ == old(out)@ + lit_minus_one(),
{
    let ghost start = out@;
    out.push(45);
    out.push(49);
    proof {
        assert(out@ =~= start + lit_minus_one());
    }
}

fn append_lit_fullresync_sp(out: &mut Vec<u8>)
    ensures
        final(out)@ == old(out)@ + lit_fullresync_sp(),
{
    let ghost start = out@;
    out.push(70);
    out.push(85);
    out.push(76);
    out.push(76);
    out.push(82);
    out.push(69);
    out.push(83);
    out.push(89);
    out.push(78);
    out.push(67);
    out.push(32);
    proof {
        assert(out@ =~= start + lit_fullresync_sp());
    }
}

fn append_lit_continue(out: &mut Vec<u8>)
    ensures
        final(out)@ == old(out)@ + lit_continue(),
{
    let ghost start = out@;
    out.push(67);
    out.push(79);
    out.push(78);
    out.push(84);
    out.push(73);
    out.push(78);
    out.push(85);
    out.push(69);
    proof {
        assert(out@ =~= start + lit_continue());
    }
}

fn append_lit_pong(out: &mut Vec<u8>)
    ensures
        final(out)@ == old(out)@ + lit_pong(),
{
    let ghost start = out@;
    out.push(80);
    out.push(79);
    out.push(78);
    out.push(71);
    proof {
        assert(out@ =~= start + lit_pong());
    }
}

fn append_lit_space(out: &mut Vec<u8>)
    ensures
        final(out)@ == old(out)@ + lit_space(),
{
    let ghost start = out@;
    out.push(32);
    proof {
        assert(out@ =~= start + lit_space());
    }
}

/// The handshake frames the follower sends, in order.
pub open spec fn ping_frame() -> FrameV {
    FrameV::Array(seq![FrameV::Bulk(lit_ping())])
}

pub open spec fn auth_frame(pass: Seq<u8>) -> FrameV {
    FrameV::Array(seq![FrameV::Bulk(lit_auth()), FrameV::Bulk(pass)])
}

pub open spec fn port_frame(port: u16) -> FrameV {
    FrameV::Array(
        seq![
            FrameV::Bulk(crate::cmd::lit_replconf()),
            FrameV::Bulk(lit_listening_port()),
            FrameV::Bulk(dec_rep(port as nat)),
        ],
    )
}

pub open spec fn capa_frame() -> FrameV {
    FrameV::Array(
        seq![
            FrameV::Bulk(crate::cmd::lit_replconf()),
            FrameV::Bulk(lit_capa()),
            FrameV::Bulk(lit_psync2()),
        ],
    )
}

pub open spec fn psync_frame(replid: Option<Seq<u8>>, offset: Option<u64>) -> FrameV {
    FrameV::Array(
        seq![
            FrameV::Bulk(lit_psync()),
            FrameV::Bulk(match replid {
                Some(id) => id,
                None => lit_question(),
            }),
            FrameV::Bulk(match offset {
                Some(o) => dec_rep(o as nat),
                None => lit_minus_one(),
            }),
        ],
    )
}

/// The leader's reply lines.
pub open spec fn fullresync_text(run_id: Seq<u8>, offset: u64) -> Seq<u8> {
    lit_fullresync_sp() + run_id + lit_space() + dec_rep(offset as nat)
}

fn build_bulk1(a: Vec<u8>) -> (r: Frame)
    ensures
        r@ == FrameV::Array(seq![FrameV::Bulk(a@)]),
{
    let mut fs: Vec<Frame> = Vec::new();
    fs.push(Frame::Bulk(a));
    proof {
        lemma_frames_view(fs@);
        assert(frames_view(fs@) =~= seq![fs@[0]@]);
    }
    Frame::Array(fs)
}

fn build_bulk2(a: Vec<u8>, b: Vec<u8>) -> (r: Frame)
    ensures
        r@ == FrameV::Array(seq![FrameV::Bulk(a@), FrameV::Bulk(b@)]),
{
    let ghost av = a@;
    let ghost bv = b@;
    let mut fs: Vec<Frame> = Vec::new();
    fs.push(Frame::Bulk(a));
    fs.push(Frame::Bulk(b));
    proof {
        lemma_frames_view(fs@);
        assert(frames_view(fs@) =~= seq![FrameV::Bulk(av), FrameV::Bulk(bv)]);
    }
    Frame::Array(fs)
}

fn build_bulk3(a: Vec<u8>, b: Vec<u8>, c: Vec<u8>) -> (r: Frame)
    ensures
        r@ == FrameV::Array(seq![FrameV::Bulk(a@), FrameV::Bulk(b@), FrameV::Bulk(c@)]),
{
    let ghost av = a@;
    let ghost bv = b@;
    let ghost cv = c@;
    let mut fs: Vec<Frame> = Vec::new();
    fs.push(Frame::Bulk(a));
    fs.push(Frame::Bulk(b));
    fs.push(Frame::Bulk(c));
    proof {
        lemma_frames_view(fs@);
        assert(frames_view(fs@) =~= seq![FrameV::Bulk(av), FrameV::Bulk(bv), FrameV::Bulk(cv)]);
    }
    Frame::Array(fs)
}

/// Where the follower stands in the handshake.
#[derive(Debug, PartialEq, Eq, Structural, Clone, Copy)]
pub enum Handshake {
    SentPing,
    SentAuth,
    SentPort,
    SentCapa,
    SentPsync,
    Established,
}

/// How the leader answered PSYNC.
pub enum SyncMode {
    /// Reload everything: the leader's new replication id and the offset the
    /// snapshot was taken at.
    FullSync { replid: Vec<u8>, offset: u64 },
    /// Continue from the backlog.
    PartialSync,
}

/// Why the handshake failed.
#[derive(Debug, PartialEq, Eq, Structural, Clone, Copy)]
pub enum ReplError {
    /// The leader's reply was not the expected one.
    UnexpectedReply,
    /// The PSYNC reply line was malformed.
    BadHeader,
}

/// Begins the handshake: the follower introduces itself with PING.
pub fn handshake_start() -> (r: (Handshake, Frame))
    ensures
        r.0 == Handshake::SentPing,
        r.1@ == ping_frame(),
{
    let mut p: Vec<u8> = Vec::new();
    append_lit_ping(&mut p);
    (Handshake::SentPing, build_bulk1(p))
}

/// The index of the first space at or after `pos`, or the length of `s`.
pub open spec fn first_space(s: Seq<u8>, pos: int) -> int
    decreases s.len() - pos,
{
    if pos < 0 || pos >= s.len() {
        s.len() as int
    } else if s[pos] == 32 {
        pos
    } else {
        first_space(s, pos + 1)
    }
}

proof fn lemma_first_space(s: Seq<u8>, pos: int)
    requires
        0 <= pos <= s.len(),
    ensures
        pos <= first_space(s, pos) <= s.len(),
    decreases s.len() - pos,
{
    if pos < s.len() && s[pos] != 32 {
        lemma_first_space(s, pos + 1);
    }
}

fn find_space(buf: &[u8], from: usize) -> (r: usize)
    requires
        from <= buf@.len(),
    ensures
        r == first_space(buf@, from as int),
        from <= r <= buf@.len(),
{
    let mut i: usize = from;
    while i < buf.len()
        invariant
            from <= i <= buf@.len(),
            first_space(buf@, from as int) == first_space(buf@, i as int),
        decreases buf@.len() - i,
    {
        if buf[i] == 32 {
            return i;
        }
        i += 1;
    }
    i
}

/// What a PSYNC reply line denotes: a full resynchronization with the
/// leader's id and offset, a continuation, or nothing.
pub open spec fn spec_psync_reply(s: Seq<u8>) -> Option<(Option<(Seq<u8>, u64)>, ())> {
    if s =~= lit_continue() {
        Some((None, ()))
    } else if s.len() > 11 && s.subrange(0, 11) =~= lit_fullresync_sp() {
        let sp = first_space(s, 11);
        if sp < s.len() {
            let id = s.subrange(11, sp);
            let digits = s.subrange(sp + 1, s.len() as int);
            if digits.len() > 0 && all_digits(digits) && dec_val(digits) <= u64::MAX {
                Some((Some((id, dec_val(digits) as u64)), ()))
            } else {
                None
            }
        } else {
            None
        }
    } else {
        None
    }
}

/// Reads the leader's PSYNC reply line.
pub fn parse_psync_reply(line: &[u8]) -> (r: Result<SyncMode, ReplError>)
    ensures
        match r {
            Ok(SyncMode::PartialSync) => spec_psync_reply(line@) == Some((
                None::<(Seq<u8>, u64)>,
                (),
            )),
            Ok(SyncMode::FullSync { replid, offset }) => spec_psync_reply(line@) == Some((
                Some((replid@, offset)),
                (),
            )),
            Err(_) => spec_psync_reply(line@) is None,
        },
{
    let l = line;
    if l.len() == 8 && l[0] == 67 && l[1] == 79 && l[2] == 78 && l[3] == 84 && l[4] == 73 && l[5] == 78 && l[6] == 85 && l[7] == 69 {
        proof {
            assert(line@ =~= lit_continue());
        }
        return Ok(SyncMode::PartialSync);
    }
    proof {
        assert(!(line@ =~= lit_continue()));
    }
    let okhdr = l.len() > 11 && l[0] == 70 && l[1] == 85 && l[2] == 76 && l[3] == 76 && l[4] == 82
        && l[5] == 69 && l[6] == 83 && l[7] == 89 && l[8] == 78 && l[9] == 67 && l[10] == 32;
    proof {
        if okhdr {
            assert(line@.subrange(0, 11) =~= lit_fullresync_sp());
        } else {
            if line@.len() > 11 && line@.subrange(0, 11) =~= lit_fullresync_sp() {
                assert(line@[0] == 70 && line@[1] == 85 && line@[2] == 76 && line@[3] == 76
                    && line@[4] == 82 && line@[5] == 69 && line@[6] == 83 && line@[7] == 89
                    && line@[8] == 78 && line@[9] == 67 && line@[10] == 32) by {
                    let h = line@.subrange(0, 11);
                    assert(h[0] == line@[0] && h[1] == line@[1] && h[2] == line@[2] && h[3]
                        == line@[3] && h[4] == line@[4] && h[5] == line@[5] && h[6] == line@[6]
                        && h[7] == line@[7] && h[8] == line@[8] && h[9] == line@[9] && h[10]
                        == line@[10]);
                }
            }
        }
    }
    if !okhdr {
        return Err(ReplError::BadHeader);
    }
    let sp = find_space(l, 11);
    if sp >= l.len() {
        return Err(ReplError::BadHeader);
    }
    let id = crate::parse::copy_range(l, 11, sp);
    let digits = crate::num::slice_range(l, sp + 1, l.len());
    match parse_u64(digits) {
        Some(v) => Ok(SyncMode::FullSync { replid: id, offset: v }),
        None => Err(ReplError::BadHeader),
    }
}

/// One step of the follower's handshake: feed in the leader's reply, get
/// the next state and what to send. The PSYNC reply instead yields the
/// synchronization mode.
pub fn handshake_step(
    state: Handshake,
    reply: &Frame,
    masterauth: &Option<Vec<u8>>,
    port: u16,
    replid: &Option<Vec<u8>>,
    offset: Option<u64>,
) -> (r: Result<(Handshake, Option<Frame>, Option<SyncMode>), ReplError>)
    ensures
        match r {
            Ok((next, tosend, mode)) => match state {
                Handshake::SentPing => {
                    &&& reply@ == FrameV::Simple(lit_pong())
                    &&& mode is None
                    &&& match masterauth {
                        Some(p) => next == Handshake::SentAuth && (tosend matches Some(f)
                            && f@ == auth_frame(p@)),
                        None => next == Handshake::SentPort && (tosend matches Some(f) && f@
                            == port_frame(port)),
                    }
                },
                Handshake::SentAuth => {
                    &&& reply@ == FrameV::Simple(crate::cmd::msg_ok())
                    &&& next == Handshake::SentPort
                    &&& mode is None
                    &&& tosend matches Some(f) && f@ == port_frame(port)
                },
                Handshake::SentPort => {
                    &&& reply@ == FrameV::Simple(crate::cmd::msg_ok())
                    &&& next == Handshake::SentCapa
                    &&& mode is None
                    &&& tosend matches Some(f) && f@ == capa_frame()
                },
                Handshake::SentCapa => {
                    &&& reply@ == FrameV::Simple(crate::cmd::msg_ok())
                    &&& next == Handshake::SentPsync
                    &&& mode is None
                    &&& tosend matches Some(f) && f@ == psync_frame(
                        match replid {
                            Some(x) => Some(x@),
                            None => None,
                        },
                        offset,
                    )
                },
                Handshake::SentPsync => {
                    &&& next == Handshake::Established
                    &&& tosend is None
                    &&& reply@ matches FrameV::Simple(line) && (match mode {
                        Some(SyncMode::PartialSync) => spec_psync_reply(line) == Some((
                            None::<(Seq<u8>, u64)>,
                            (),
                        )),
                        Some(SyncMode::FullSync { replid: rid, offset: o }) => spec_psync_reply(
                            line,
                        ) == Some((Some((rid@, o)), ())),
                        None => false,
                    })
                },
                Handshake::Established => false,
            },
            Err(_) => match state {
                Handshake::SentPing => reply@ != FrameV::Simple(lit_pong()),
                Handshake::SentAuth => reply@ != FrameV::Simple(crate::cmd::msg_ok()),
                Handshake::SentPort => reply@ != FrameV::Simple(crate::cmd::msg_ok()),
                Handshake::SentCapa => reply@ != FrameV::Simple(crate::cmd::msg_ok()),
                Handshake::SentPsync => match reply@ {
                    FrameV::Simple(line) => spec_psync_reply(line) is None,
                    _ => true,
                },
                Handshake::Established => true,
            },
        },
{
    match state {
        Handshake::SentPing => {
            let pong = match reply {
                Frame::Simple(s) => {
                    let sl = s.as_slice();
                    sl.len() == 4 && sl[0] == 80 && sl[1] == 79 && sl[2] == 78 && sl[3] == 71
                }
                _ => false,
            };
            if !pong {
                return Err(ReplError::UnexpectedReply);
            }
            proof {
                assert(reply@ matches FrameV::Simple(t) && t =~= lit_pong());
            }
            match masterauth {
                Some(p) => {
                    let mut a: Vec<u8> = Vec::new();
                    append_lit_auth(&mut a);
                    Ok((Handshake::SentAuth, Some(build_bulk2(a, clone_bytes(p))), None))
                }
                None => Ok((Handshake::SentPort, Some(build_port_frame(port)), None)),
            }
        }
        Handshake::SentAuth => {
            if !reply_is_ok(reply) {
                return Err(ReplError::UnexpectedReply);
            }
            Ok((Handshake::SentPort, Some(build_port_frame(port)), None))
        }
        Handshake::SentPort => {
            if !reply_is_ok(reply) {
                return Err(ReplError::UnexpectedReply);
            }
            let mut a: Vec<u8> = Vec::new();
            crate::cmd::append_lit_replconf(&mut a);
            let mut b: Vec<u8> = Vec::new();
            append_lit_capa(&mut b);
            let mut c: Vec<u8> = Vec::new();
            append_lit_psync2(&mut c);
            Ok((Handshake::SentCapa, Some(build_bulk3(a, b, c)), None))
        }
        Handshake::SentCapa => {
            if !reply_is_ok(reply) {
                return Err(ReplError::UnexpectedReply);
            }
            let mut a: Vec<u8> = Vec::new();
            append_lit_psync(&mut a);
            let b: Vec<u8> = match replid {
                Some(x) => clone_bytes(x),
                None => {
                    let mut q: Vec<u8> = Vec::new();
                    append_lit_question(&mut q);
                    q
                }
            };
            let c: Vec<u8> = match offset {
                Some(o) => u64_to_dec(o),
                None => {
                    let mut m: Vec<u8> = Vec::new();
                    append_lit_minus_one(&mut m);
                    m
                }
            };
            let ghost bv = b@;
            let ghost cv = c@;
            let f = build_bulk3(a, b, c);
            proof {
                let rid = match replid {
                    Some(x) => Some(x@),
                    None => None,
                };
                assert(f@->Array_0 =~= psync_frame(rid, offset)->Array_0);
                assert(f@ == psync_frame(rid, offset));
            }
            Ok((Handshake::SentPsync, Some(f), None))
        }
        Handshake::SentPsync => {
            match reply {
                Frame::Simple(line) => {
                    match parse_psync_reply(line.as_slice()) {
                        Ok(mode) => Ok((Handshake::Established, None, Some(mode))),
                        Err(e) => Err(e),
                    }
                }
                _ => Err(ReplError::UnexpectedReply),
            }
        }
        Handshake::Established => Err(ReplError::UnexpectedReply),
    }
}

fn reply_is_ok(reply: &Frame) -> (r: bool)
    ensures
        r == (reply@ == FrameV::Simple(crate::cmd::msg_ok())),
{
    match reply {
        Frame::Simple(s) => {
            let sl = s.as_slice();
            let ok = sl.len() == 2 && sl[0] == 79 && sl[1] == 75;
            proof {
                if ok {
                    assert(s@ =~= crate::cmd::msg_ok());
                }
            }
            ok
        }
        _ => false,
    }
}

fn build_port_frame(port: u16) -> (r: Frame)
    ensures
        r@ == port_frame(port),
{
    let mut a: Vec<u8> = Vec::new();
    crate::cmd::append_lit_replconf(&mut a);
    let mut b: Vec<u8> = Vec::new();
    append_lit_listening_port(&mut b);
    let c = u64_to_dec(port as u64);
    build_bulk3(a, b, c)
}

/// The leader's decision on a PSYNC request: continue from the backlog when
/// the follower is on this replication epoch and close enough, else a full
/// resynchronization announced with the run id and current offset.
pub fn psync_decide(
    run_id: &[u8],
    current_offset: u64,
    replid: &Option<Vec<u8>>,
    req_offset: Option<u64>,
    backlog: &RepliBackLog,
) -> (r: (Frame, Option<Vec<u8>>))
    ensures
        ({
            let partial = (replid matches Some(id) && id@ == run_id@) && (req_offset matches Some(
                o,
            ) && o <= current_offset && current_offset - o <= backlog@.len());
            if partial {
                &&& r.0@ == FrameV::Simple(lit_continue())
                &&& r.1 matches Some(v) && v@ == backlog@.skip(
                    backlog@.len() - (current_offset - req_offset->0),
                )
            } else {
                &&& r.0@ == FrameV::Simple(fullresync_text(run_id@, current_offset))
                &&& r.1 is None
            }
        }),
{
    let same_epoch = match replid {
        Some(id) => crate::bytes_eq(id.as_slice(), run_id),
        None => false,
    };
    if same_epoch {
        match req_offset {
            Some(o) => {
                if o <= current_offset {
                    let gap = current_offset - o;
                    let blen = backlog.len();
                    if gap <= blen as u64 {
                        match backlog.get_from_end(gap as usize) {
                            Some(replay) => {
                                let mut t: Vec<u8> = Vec::new();
                                append_lit_continue(&mut t);
                                return (Frame::Simple(t), Some(replay));
                            }
                            None => {
                                proof {
                                    assert(false);
                                }
                            }
                        }
                    }
                }
            }
            None => {}
        }
    }
    let mut t: Vec<u8> = Vec::new();
    append_lit_fullresync_sp(&mut t);
    crate::frame::append_all(&mut t, run_id);
    append_lit_space(&mut t);
    let d = u64_to_dec(current_offset);
    crate::frame::append_all(&mut t, d.as_slice());
    proof {
        assert(t@ =~= fullresync_text(run_id@, current_offset));
    }
    (Frame::Simple(t), None)
}

/// The keyspace a list of snapshot entries builds, inserted in order.
pub open spec fn store_from_entries(es: Seq<(Seq<u8>, ObjV)>) -> Map<Seq<u8>, ObjV>
    decreases es.len(),
{
    if es.len() == 0 {
        kv_empty()
    } else {
        store_from_entries(es.drop_last()).insert(es.last().0, es.last().1)
    }
}

/// A listing that covers a keyspace exactly once per key rebuilds it.
pub proof fn lemma_entries_to_map(es: Seq<(Seq<u8>, ObjV)>, m: Map<Seq<u8>, ObjV>)
    requires
        forall|i: int| 0 <= i < es.len() ==> m.contains_key((#[trigger] es[i]).0) && es[i].1
            == m[es[i].0],
        forall|k: Seq<u8>| #[trigger] m.contains_key(k) ==> exists|i: int|
            0 <= i < es.len() && (#[trigger] es[i]).0 == k,
        forall|i: int, j: int| 0 <= i < j < es.len() ==> (#[trigger] es[i]).0 != (
        #[trigger] es[j]).0,
    ensures
        store_from_entries(es) == m,
    decreases es.len(),
{
    if es.len() == 0 {
        assert forall|k: Seq<u8>| !(#[trigger] m.contains_key(k)) by {
            if m.contains_key(k) {
                let i = choose|i: int| 0 <= i < es.len() && (#[trigger] es[i]).0 == k;
            }
        }
        assert(store_from_entries(es) =~= m);
    } else {
        let last = es.last();
        let rest = es.drop_last();
        let m2 = m.remove(last.0);
        assert(forall|i: int| 0 <= i < rest.len() ==> rest[i] == #[trigger] es[i]);
        assert forall|i: int| 0 <= i < rest.len() implies m2.contains_key(
            (#[trigger] rest[i]).0,
        ) && rest[i].1 == m2[rest[i].0] by {
            assert(es[i].0 != last.0);
        }
        assert forall|k: Seq<u8>| #[trigger] m2.contains_key(k) implies exists|i: int|
            0 <= i < rest.len() && (#[trigger] rest[i]).0 == k by {
            let i = choose|i: int| 0 <= i < es.len() && (#[trigger] es[i]).0 == k;
            assert(i < es.len() - 1) by {
                if i == es.len() - 1 {
                    assert(k == last.0);
                }
            }
            assert(rest[i].0 == k);
        }
        lemma_entries_to_map(rest, m2);
        assert(store_from_entries(es) == store_from_entries(rest).insert(last.0, last.1));
        assert(m2.insert(last.0, last.1) =~= m);
    }
}

/// Commands applied one after another, each at its own time.
pub open spec fn apply_cmds(m: Map<Seq<u8>, ObjV>, steps: Seq<(CmdV, u64)>) -> Map<Seq<u8>, ObjV>
    decreases steps.len(),
{
    if steps.len() == 0 {
        m
    } else {
        cmd_store_effect(steps.last().0, apply_cmds(m, steps.drop_last()), steps.last().1)
    }
}

/// The full-resync law: a follower that loads the leader's snapshot and
/// then applies the same propagated commands holds exactly the keyspace the
/// leader reaches — provided nothing in the snapshot had yet expired when
/// it was taken.
pub proof fn lemma_full_resync(
    m: Map<Seq<u8>, ObjV>,
    es: Seq<(Seq<u8>, ObjV)>,
    version: u32,
    enable_checksum: bool,
    now: u64,
    steps: Seq<(CmdV, u64)>,
)
    requires
        forall|i: int| 0 <= i < es.len() ==> m.contains_key((#[trigger] es[i]).0) && es[i].1
            == m[es[i].0],
        forall|k: Seq<u8>| #[trigger] m.contains_key(k) ==> exists|i: int|
            0 <= i < es.len() && (#[trigger] es[i]).0 == k,
        forall|i: int, j: int| 0 <= i < j < es.len() ==> (#[trigger] es[i]).0 != (
        #[trigger] es[j]).0,
        forall|i: int| 0 <= i < es.len() ==> obj_wf((#[trigger] es[i]).1),
        forall|i: int| 0 <= i < es.len() ==> entry_fits((#[trigger] es[i]).0, es[i].1),
        forall|i: int|
            0 <= i < es.len() ==> ((#[trigger] es[i]).1.expire matches Some(e) ==> e >= now),
    ensures
        spec_dec_snapshot(snapshot_enc(es, version, enable_checksum, now), enable_checksum)
            matches Some(loaded) && apply_cmds(store_from_entries(loaded), steps) == apply_cmds(
            m,
            steps,
        ),
{
    lemma_snapshot_roundtrip(es, version, enable_checksum, now);
    lemma_entries_to_map(es, m);
}

} // verus!


