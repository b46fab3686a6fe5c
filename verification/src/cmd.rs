//! The command layer: parsing a frame into a typed command, and executing
//! it against the store. Replies, store effects and side effects are all
//! pinned by specification functions; the follower's replicate path performs
//! the same mutation as the leader's but suppresses replies.

use vstd::prelude::*;
use crate::frame::{Frame, FrameV, frames_view, lemma_frames_view, clone_bytes};
use crate::store::{KvPairs, ObjV, kv_wf, spec_get, spec_set, evict, str_decode_spec};
use crate::num::{dec_rep, all_digits, dec_val, parse_u64, u64_to_dec};

verus! {

pub open spec fn kw_command(s: Seq<u8>) -> bool {
    s.len() == 7 && s[0] == 67 && s[1] == 79 && s[2] == 77 && s[3] == 77 && s[4] == 65 && s[5] == 78 && s[6] == 68
}

pub open spec fn kw_ping(s: Seq<u8>) -> bool {
    s.len() == 4 && s[0] == 80 && s[1] == 73 && s[2] == 78 && s[3] == 71
}

pub open spec fn kw_echo(s: Seq<u8>) -> bool {
    s.len() == 4 && s[0] == 69 && s[1] == 67 && s[2] == 72 && s[3] == 79
}

pub open spec fn kw_get(s: Seq<u8>) -> bool {
    s.len() == 3 && s[0] == 71 && s[1] == 69 && s[2] == 84
}

pub open spec fn kw_set(s: Seq<u8>) -> bool {
    s.len() == 3 && s[0] == 83 && s[1] == 69 && s[2] == 84
}

pub open spec fn kw_del(s: Seq<u8>) -> bool {
    s.len() == 3 && s[0] == 68 && s[1] == 69 && s[2] == 76
}

pub open spec fn kw_info(s: Seq<u8>) -> bool {
    s.len() == 4 && s[0] == 73 && s[1] == 78 && s[2] == 70 && s[3] == 79
}

pub open spec fn kw_bgsave(s: Seq<u8>) -> bool {
    s.len() == 6 && s[0] == 66 && s[1] == 71 && s[2] == 83 && s[3] == 65 && s[4] == 86 && s[5] == 69
}

pub open spec fn kw_auth(s: Seq<u8>) -> bool {
    s.len() == 4 && s[0] == 65 && s[1] == 85 && s[2] == 84 && s[3] == 72
}

pub open spec fn kw_replconf(s: Seq<u8>) -> bool {
    s.len() == 8 && s[0] == 82 && s[1] == 69 && s[2] == 80 && s[3] == 76 && s[4] == 67 && s[5] == 79 && s[6] == 78 && s[7] == 70
}

pub open spec fn kw_psync(s: Seq<u8>) -> bool {
    s.len() == 5 && s[0] == 80 && s[1] == 83 && s[2] == 89 && s[3] == 78 && s[4] == 67
}

pub open spec fn kw_wait(s: Seq<u8>) -> bool {
    s.len() == 4 && s[0] == 87 && s[1] == 65 && s[2] == 73 && s[3] == 84
}

pub open spec fn kw_getack(s: Seq<u8>) -> bool {
    s.len() == 6 && s[0] == 71 && s[1] == 69 && s[2] == 84 && s[3] == 65 && s[4] == 67 && s[5] == 75
}

pub open spec fn kw_ack(s: Seq<u8>) -> bool {
    s.len() == 3 && s[0] == 65 && s[1] == 67 && s[2] == 75
}

pub open spec fn kw_keepttl(s: Seq<u8>) -> bool {
    s.len() == 7 && s[0] == 75 && s[1] == 69 && s[2] == 69 && s[3] == 80 && s[4] == 84 && s[5] == 84 && s[6] == 76
}

pub open spec fn kw_ex(s: Seq<u8>) -> bool {
    s.len() == 2 && s[0] == 69 && s[1] == 88
}

pub open spec fn kw_px(s: Seq<u8>) -> bool {
    s.len() == 2 && s[0] == 80 && s[1] == 88
}

pub open spec fn kw_exat(s: Seq<u8>) -> bool {
    s.len() == 4 && s[0] == 69 && s[1] == 88 && s[2] == 65 && s[3] == 84
}

pub open spec fn kw_pxat(s: Seq<u8>) -> bool {
    s.len() == 4 && s[0] == 80 && s[1] == 88 && s[2] == 65 && s[3] == 84
}

pub open spec fn kw_replication(s: Seq<u8>) -> bool {
    s.len() == 11 && s[0] == 82 && s[1] == 69 && s[2] == 80 && s[3] == 76 && s[4] == 73 && s[5] == 67 && s[6] == 65 && s[7] == 84 && s[8] == 73 && s[9] == 79 && s[10] == 78
}

pub open spec fn msg_pong() -> Seq<u8> {
    seq![80u8, 79u8, 78u8, 71u8]
}

pub open spec fn msg_ok() -> Seq<u8> {
    seq![79u8, 75u8]
}

pub open spec fn msg_bgsave_reply() -> Seq<u8> {
    seq![66u8, 97u8, 99u8, 107u8, 103u8, 114u8, 111u8, 117u8, 110u8, 100u8, 32u8, 115u8, 97u8, 118u8, 105u8, 110u8, 103u8, 32u8, 115u8, 99u8, 104u8, 101u8, 100u8, 117u8, 108u8, 101u8, 100u8]
}

pub open spec fn msg_invalid_password() -> Seq<u8> {
    seq![69u8, 82u8, 82u8, 32u8, 105u8, 110u8, 118u8, 97u8, 108u8, 105u8, 100u8, 32u8, 112u8, 97u8, 115u8, 115u8, 119u8, 111u8, 114u8, 100u8]
}

pub open spec fn msg_noauth() -> Seq<u8> {
    seq![78u8, 79u8, 65u8, 85u8, 84u8, 72u8, 32u8, 65u8, 117u8, 116u8, 104u8, 101u8, 110u8, 116u8, 105u8, 99u8, 97u8, 116u8, 105u8, 111u8, 110u8, 32u8, 114u8, 101u8, 113u8, 117u8, 105u8, 114u8, 101u8, 100u8]
}

pub open spec fn msg_syntax() -> Seq<u8> {
    seq![69u8, 82u8, 82u8, 32u8, 115u8, 121u8, 110u8, 116u8, 97u8, 120u8, 32u8, 101u8, 114u8, 114u8, 111u8, 114u8]
}

pub open spec fn msg_invalid_expire() -> Seq<u8> {
    seq![69u8, 82u8, 82u8, 32u8, 105u8, 110u8, 118u8, 97u8, 108u8, 105u8, 100u8, 32u8, 101u8, 120u8, 112u8, 105u8, 114u8, 101u8, 32u8, 116u8, 105u8, 109u8, 101u8]
}

pub open spec fn msg_cmd_syntax() -> Seq<u8> {
    seq![69u8, 82u8, 82u8, 32u8, 99u8, 111u8, 109u8, 109u8, 97u8, 110u8, 100u8, 32u8, 115u8, 121u8, 110u8, 116u8, 97u8, 120u8, 32u8, 101u8, 114u8, 114u8, 111u8, 114u8]
}

pub open spec fn msg_unknown_prefix() -> Seq<u8> {
    seq![69u8, 82u8, 82u8, 32u8, 117u8, 110u8, 107u8, 110u8, 111u8, 119u8, 110u8, 32u8, 99u8, 111u8, 109u8, 109u8, 97u8, 110u8, 100u8, 32u8, 39u8]
}

pub open spec fn msg_arity_prefix() -> Seq<u8> {
    seq![69u8, 82u8, 82u8, 32u8, 119u8, 114u8, 111u8, 110u8, 103u8, 32u8, 110u8, 117u8, 109u8, 98u8, 101u8, 114u8, 32u8, 111u8, 102u8, 32u8, 97u8, 114u8, 103u8, 117u8, 109u8, 101u8, 110u8, 116u8, 115u8, 32u8, 102u8, 111u8, 114u8, 32u8, 39u8]
}

pub open spec fn msg_quote() -> Seq<u8> {
    seq![39u8]
}

pub open spec fn msg_role_master() -> Seq<u8> {
    seq![114u8, 111u8, 108u8, 101u8, 58u8, 109u8, 97u8, 115u8, 116u8, 101u8, 114u8, 13u8, 10u8, 109u8, 97u8, 115u8, 116u8, 101u8, 114u8, 95u8, 114u8, 101u8, 112u8, 108u8, 105u8, 100u8, 58u8]
}

pub open spec fn msg_role_slave() -> Seq<u8> {
    seq![114u8, 111u8, 108u8, 101u8, 58u8, 115u8, 108u8, 97u8, 118u8, 101u8, 13u8, 10u8, 109u8, 97u8, 115u8, 116u8, 101u8, 114u8, 95u8, 114u8, 101u8, 112u8, 108u8, 105u8, 100u8, 58u8]
}

pub open spec fn msg_offset_field() -> Seq<u8> {
    seq![13u8, 10u8, 109u8, 97u8, 115u8, 116u8, 101u8, 114u8, 95u8, 114u8, 101u8, 112u8, 108u8, 95u8, 111u8, 102u8, 102u8, 115u8, 101u8, 116u8, 58u8]
}

pub open spec fn msg_line_end() -> Seq<u8> {
    seq![13u8, 10u8]
}

pub open spec fn lit_replconf() -> Seq<u8> {
    seq![82u8, 69u8, 80u8, 76u8, 67u8, 79u8, 78u8, 70u8]
}

pub open spec fn lit_ack() -> Seq<u8> {
    seq![65u8, 67u8, 75u8]
}

/// Appends the fixed text of `msg_pong`.
pub fn append_msg_pong(out: &mut Vec<u8>)
    ensures
        final(out)@ == old(out)@ + msg_pong(),
{
    let ghost start = out@;
    out.push(80);
    out.push(79);
    out.push(78);
    out.push(71);
    proof {
        assert(out@ =~= start + msg_pong());
    }
}

/// Appends the fixed text of `msg_ok`.
pub fn append_msg_ok(out: &mut Vec<u8>)
    ensures
        final(out)@ == old(out)@ + msg_ok(),
{
    let ghost start = out@;
    out.push(79);
    out.push(75);
    proof {
        assert(out@ =~= start + msg_ok());
    }
}

/// Appends the fixed text of `msg_bgsave_reply`.
pub fn append_msg_bgsave_reply(out: &mut Vec<u8>)
    ensures
        final(out)@ == old(out)@ + msg_bgsave_reply(),
{
    let ghost start = out@;
    out.push(66);
    out.push(97);
    out.push(99);
    out.push(107);
    out.push(103);
    out.push(114);
    out.push(111);
    out.push(117);
    out.push(110);
    out.push(100);
    out.push(32);
    out.push(115);
    out.push(97);
    out.push(118);
    out.push(105);
    out.push(110);
    out.push(103);
    out.push(32);
    out.push(115);
    out.push(99);
    out.push(104);
    out.push(101);
    out.push(100);
    out.push(117);
    out.push(108);
    out.push(101);
    out.push(100);
    proof {
        assert(out@ =~= start + msg_bgsave_reply());
    }
}

/// Appends the fixed text of `msg_invalid_password`.
pub fn append_msg_invalid_password(out: &mut Vec<u8>)
    ensures
        final(out)@ == old(out)@ + msg_invalid_password(),
{
    let ghost start = out@;
    out.push(69);
    out.push(82);
    out.push(82);
    out.push(32);
    out.push(105);
    out.push(110);
    out.push(118);
    out.push(97);
    out.push(108);
    out.push(105);
    out.push(100);
    out.push(32);
    out.push(112);
    out.push(97);
    out.push(115);
    out.push(115);
    out.push(119);
    out.push(111);
    out.push(114);
    out.push(100);
    proof {
        assert(out@ =~= start + msg_invalid_password());
    }
}

/// Appends the fixed text of `msg_noauth`.
pub fn append_msg_noauth(out: &mut Vec<u8>)
    ensures
        final(out)@ == old(out)@ + msg_noauth(),
{
    let ghost start = out@;
    out.push(78);
    out.push(79);
    out.push(65);
    out.push(85);
    out.push(84);
    out.push(72);
    out.push(32);
    out.push(65);
    out.push(117);
    out.push(116);
    out.push(104);
    out.push(101);
    out.push(110);
    out.push(116);
    out.push(105);
    out.push(99);
    out.push(97);
    out.push(116);
    out.push(105);
    out.push(111);
    out.push(110);
    out.push(32);
    out.push(114);
    out.push(101);
    out.push(113);
    out.push(117);
    out.push(105);
    out.push(114);
    out.push(101);
    out.push(100);
    proof {
        assert(out@ =~= start + msg_noauth());
    }
}

/// Appends the fixed text of `msg_syntax`.
pub fn append_msg_syntax(out: &mut Vec<u8>)
    ensures
        final(out)@ == old(out)@ + msg_syntax(),
{
    let ghost start = out@;
    out.push(69);
    out.push(82);
    out.push(82);
    out.push(32);
    out.push(115);
    out.push(121);
    out.push(110);
    out.push(116);
    out.push(97);
    out.push(120);
    out.push(32);
    out.push(101);
    out.push(114);
    out.push(114);
    out.push(111);
    out.push(114);
    proof {
        assert(out@ =~= start + msg_syntax());
    }
}

/// Appends the fixed text of `msg_invalid_expire`.
pub fn append_msg_invalid_expire(out: &mut Vec<u8>)
    ensures
        final(out)@ == old(out)@ + msg_invalid_expire(),
{
    let ghost start = out@;
    out.push(69);
    out.push(82);
    out.push(82);
    out.push(32);
    out.push(105);
    out.push(110);
    out.push(118);
    out.push(97);
    out.push(108);
    out.push(105);
    out.push(100);
    out.push(32);
    out.push(101);
    out.push(120);
    out.push(112);
    out.push(105);
    out.push(114);
    out.push(101);
    out.push(32);
    out.push(116);
    out.push(105);
    out.push(109);
    out.push(101);
    proof {
        assert(out@ =~= start + msg_invalid_expire());
    }
}

/// Appends the fixed text of `msg_cmd_syntax`.
pub fn append_msg_cmd_syntax(out: &mut Vec<u8>)
    ensures
        final(out)@ == old(out)@ + msg_cmd_syntax(),
{
    let ghost start = out@;
    out.push(69);
    out.push(82);
    out.push(82);
    out.push(32);
    out.push(99);
    out.push(111);
    out.push(109);
    out.push(109);
    out.push(97);
    out.push(110);
    out.push(100);
    out.push(32);
    out.push(115);
    out.push(121);
    out.push(110);
    out.push(116);
    out.push(97);
    out.push(120);
    out.push(32);
    out.push(101);
    out.push(114);
    out.push(114);
    out.push(111);
    out.push(114);
    proof {
        assert(out@ =~= start + msg_cmd_syntax());
    }
}

/// Appends the fixed text of `msg_unknown_prefix`.
pub fn append_msg_unknown_prefix(out: &mut Vec<u8>)
    ensures
        final(out)@ == old(out)@ + msg_unknown_prefix(),
{
    let ghost start = out@;
    out.push(69);
    out.push(82);
    out.push(82);
    out.push(32);
    out.push(117);
    out.push(110);
    out.push(107);
    out.push(110);
    out.push(111);
    out.push(119);
    out.push(110);
    out.push(32);
    out.push(99);
    out.push(111);
    out.push(109);
    out.push(109);
    out.push(97);
    out.push(110);
    out.push(100);
    out.push(32);
    out.push(39);
    proof {
        assert(out@ =~= start + msg_unknown_prefix());
    }
}

/// Appends the fixed text of `msg_arity_prefix`.
pub fn append_msg_arity_prefix(out: &mut Vec<u8>)
    ensures
        final(out)@ == old(out)@ + msg_arity_prefix(),
{
    let ghost start = out@;
    out.push(69);
    out.push(82);
    out.push(82);
    out.push(32);
    out.push(119);
    out.push(114);
    out.push(111);
    out.push(110);
    out.push(103);
    out.push(32);
    out.push(110);
    out.push(117);
    out.push(109);
    out.push(98);
    out.push(101);
    out.push(114);
    out.push(32);
    out.push(111);
    out.push(102);
    out.push(32);
    out.push(97);
    out.push(114);
    out.push(103);
    out.push(117);
    out.push(109);
    out.push(101);
    out.push(110);
    out.push(116);
    out.push(115);
    out.push(32);
    out.push(102);
    out.push(111);
    out.push(114);
    out.push(32);
    out.push(39);
    proof {
        assert(out@ =~= start + msg_arity_prefix());
    }
}

/// Appends the fixed text of `msg_quote`.
pub fn append_msg_quote(out: &mut Vec<u8>)
    ensures
        final(out)@ == old(out)@ + msg_quote(),
{
    let ghost start = out@;
    out.push(39);
    proof {
        assert(out@ =~= start + msg_quote());
    }
}

/// Appends the fixed text of `msg_role_master`.
pub fn append_msg_role_master(out: &mut Vec<u8>)
    ensures
        final(out)@ == old(out)@ + msg_role_master(),
{
    let ghost start = out@;
    out.push(114);
    out.push(111);
    out.push(108);
    out.push(101);
    out.push(58);
    out.push(109);
    out.push(97);
    out.push(115);
    out.push(116);
    out.push(101);
    out.push(114);
    out.push(13);
    out.push(10);
    out.push(109);
    out.push(97);
    out.push(115);
    out.push(116);
    out.push(101);
    out.push(114);
    out.push(95);
    out.push(114);
    out.push(101);
    out.push(112);
    out.push(108);
    out.push(105);
    out.push(100);
    out.push(58);
    proof {
        assert(out@ =~= start + msg_role_master());
    }
}

/// Appends the fixed text of `msg_role_slave`.
pub fn append_msg_role_slave(out: &mut Vec<u8>)
    ensures
        final(out)@ == old(out)@ + msg_role_slave(),
{
    let ghost start = out@;
    out.push(114);
    out.push(111);
    out.push(108);
    out.push(101);
    out.push(58);
    out.push(115);
    out.push(108);
    out.push(97);
    out.push(118);
    out.push(101);
    out.push(13);
    out.push(10);
    out.push(109);
    out.push(97);
    out.push(115);
    out.push(116);
    out.push(101);
    out.push(114);
    out.push(95);
    out.push(114);
    out.push(101);
    out.push(112);
    out.push(108);
    out.push(105);
    out.push(100);
    out.push(58);
    proof {
        assert(out@ =~= start + msg_role_slave());
    }
}

/// Appends the fixed text of `msg_offset_field`.
pub fn append_msg_offset_field(out: &mut Vec<u8>)
    ensures
        final(out)@ == old(out)@ + msg_offset_field(),
{
    let ghost start = out@;
    out.push(13);
    out.push(10);
    out.push(109);
    out.push(97);
    out.push(115);
    out.push(116);
    out.push(101);
    out.push(114);
    out.push(95);
    out.push(114);
    out.push(101);
    out.push(112);
    out.push(108);
    out.push(95);
    out.push(111);
    out.push(102);
    out.push(102);
    out.push(115);
    out.push(101);
    out.push(116);
    out.push(58);
    proof {
        assert(out@ =~= start + msg_offset_field());
    }
}

/// Appends the fixed text of `msg_line_end`.
pub fn append_msg_line_end(out: &mut Vec<u8>)
    ensures
        final(out)@ == old(out)@ + msg_line_end(),
{
    let ghost start = out@;
    out.push(13);
    out.push(10);
    proof {
        assert(out@ =~= start + msg_line_end());
    }
}

/// Appends the fixed text of `lit_replconf`.
pub fn append_lit_replconf(out: &mut Vec<u8>)
    ensures
        final(out)@ == old(out)@ + lit_replconf(),
{
    let ghost start = out@;
    out.push(82);
    out.push(69);
    out.push(80);
    out.push(76);
    out.push(67);
    out.push(79);
    out.push(78);
    out.push(70);
    proof {
        assert(out@ =~= start + lit_replconf());
    }
}

/// Appends the fixed text of `lit_ack`.
pub fn append_lit_ack(out: &mut Vec<u8>)
    ensures
        final(out)@ == old(out)@ + lit_ack(),
{
    let ghost start = out@;
    out.push(65);
    out.push(67);
    out.push(75);
    proof {
        assert(out@ =~= start + lit_ack());
    }
}


/// Uppercase for a single ASCII byte.
pub open spec fn up(b: u8) -> u8 {
    if 97 <= b <= 122 {
        (b - 32) as u8
    } else {
        b
    }
}

/// ASCII-uppercase of a byte string.
pub open spec fn upper(s: Seq<u8>) -> Seq<u8> {
    Seq::new(s.len(), |i: int| up(s[i]))
}

/// ASCII-uppercases a byte string.
pub fn to_upper_vec(s: &[u8]) -> (r: Vec<u8>)
    ensures
        r@ == upper(s@),
{
    let mut out: Vec<u8> = Vec::new();
    let mut i: usize = 0;
    while i < s.len()
        invariant
            i <= s.len(),
            out@.len() == i,
            forall|j: int| 0 <= j < i ==> out@[j] == up(s@[j]),
        decreases s.len() - i,
    {
        let b = s[i];
        if b >= 97 && b <= 122 {
            out.push(b - 32);
        } else {
            out.push(b);
        }
        i += 1;
    }
    proof {
        assert(out@ =~= upper(s@));
    }
    out
}

/// The byte strings of a flat array of bulk frames, when the frame is one.
pub open spec fn as_bulks(f: FrameV) -> Option<Seq<Seq<u8>>> {
    match f {
        FrameV::Array(es) => if forall|i: int| 0 <= i < es.len() ==> (#[trigger] es[i]) is Bulk {
            Some(Seq::new(es.len(), |i: int| es[i]->Bulk_0))
        } else {
            None
        },
        _ => None,
    }
}

/// The views of a list of byte vectors.
pub open spec fn vecs_view(s: Seq<Vec<u8>>) -> Seq<Seq<u8>>
    decreases s,
{
    if s.len() == 0 {
        Seq::empty()
    } else {
        vecs_view(s.drop_last()).push(s.last()@)
    }
}

pub proof fn lemma_vecs_view(s: Seq<Vec<u8>>)
    ensures
        vecs_view(s).len() == s.len(),
        forall|i: int| 0 <= i < s.len() ==> #[trigger] vecs_view(s)[i] == s[i]@,
    decreases s,
{
    if s.len() > 0 {
        lemma_vecs_view(s.drop_last());
        assert(vecs_view(s) == vecs_view(s.drop_last()).push(s.last()@));
        assert forall|i: int| 0 <= i < s.len() implies #[trigger] vecs_view(s)[i] == s[i]@ by {
            if i < s.len() - 1 {
                assert(vecs_view(s)[i] == vecs_view(s.drop_last())[i]);
                assert(s.drop_last()[i] == s[i]);
            }
        }
    }
}

/// Extracts the bulks of a flat array frame.
pub fn frame_bulks(f: &Frame) -> (r: Option<Vec<Vec<u8>>>)
    ensures
        match r {
            Some(v) => as_bulks(f@) == Some(vecs_view(v@)),
            None => as_bulks(f@) is None,
        },
{
    match f {
        Frame::Array(fs) => {
            let ghost es = frames_view(fs@);
            proof {
                lemma_frames_view(fs@);
            }
            let mut out: Vec<Vec<u8>> = Vec::new();
            let mut i: usize = 0;
            while i < fs.len()
                invariant
                    f@ == FrameV::Array(es),
                    i <= fs@.len(),
                    es == frames_view(fs@),
                    es.len() == fs@.len(),
                    forall|j: int| 0 <= j < fs@.len() ==> es[j] == fs@[j]@,
                    vecs_view(out@).len() == i,
                    forall|j: int| 0 <= j < i ==> (#[trigger] es[j]) is Bulk,
                    forall|j: int| 0 <= j < i ==> #[trigger] vecs_view(out@)[j] == es[j]->Bulk_0,
                decreases fs@.len() - i,
            {
                match &fs[i] {
                    Frame::Bulk(b) => {
                        let ghost prev = out@;
                        out.push(clone_bytes(b));
                        proof {
                            assert(out@.drop_last() =~= prev);
                            lemma_vecs_view(out@);
                        }
                    }
                    _ => {
                        proof {
                            assert(!(es[i as int] is Bulk));
                            assert(!(forall|j: int|
                                0 <= j < es.len() ==> (#[trigger] es[j]) is Bulk));
                        }
                        return None;
                    }
                }
                i += 1;
            }
            proof {
                lemma_vecs_view(out@);
                assert(as_bulks(f@) matches Some(bs) ==> bs =~= vecs_view(out@));
            }
            Some(out)
        }
        _ => None,
    }
}

/// The commands of the core set, as parsed values.
#[derive(Debug)]
pub struct Command;

#[derive(Debug)]
pub struct Ping;

#[derive(Debug)]
pub struct Echo {
    pub msg: Vec<u8>,
}

#[derive(Debug)]
pub struct Get {
    pub key: Vec<u8>,
}

/// The SET command: a key, a value, and the expiration argument already
/// resolved to an absolute time (`Some(0)` clears, `None` keeps).
#[derive(Debug)]
pub struct SetCmd {
    pub key: Vec<u8>,
    pub value: Vec<u8>,
    pub expire: Option<u64>,
}

#[derive(Debug)]
pub struct Del {
    pub key: Vec<Vec<u8>>,
}

/// The sections the INFO command can name.
#[derive(Debug)]
pub enum Section {
    Array(Vec<Section>),
    All,
    Default,
    Everything,
    Server,
    Clients,
    Memory,
    Persistence,
    Stats,
    Replication,
    Cpu,
    CommandStats,
    LatencyStats,
    Sentinel,
    Cluster,
    Modules,
    Keyspace,
    ErrorStats,
}

#[derive(Debug)]
pub struct Info {
    pub sections: Section,
}

#[derive(Debug)]
pub struct BgSave;

#[derive(Debug)]
pub struct Auth {
    pub username: Option<Vec<u8>>,
    pub password: Vec<u8>,
}

#[derive(Debug)]
pub enum Replconf {
    Default,
    GetAck,
}

#[derive(Debug)]
pub struct Psync {
    pub replid: Option<Vec<u8>>,
    pub repli_offset: Option<u64>,
}

#[derive(Debug)]
pub struct Wait {
    pub numreplicas: u64,
    pub timeout: u64,
}

/// One parsed command.
#[derive(Debug)]
pub enum Cmd {
    Command(Command),
    Ping(Ping),
    Echo(Echo),
    Get(Get),
    SetCmd(SetCmd),
    Del(Del),
    Info(Info),
    BgSave(BgSave),
    Auth(Auth),
    Replconf(Replconf),
    Psync(Psync),
    Wait(Wait),
}

/// The mathematical shape of a command.
pub enum CmdV {
    Command,
    Ping,
    Echo(Seq<u8>),
    Get(Seq<u8>),
    SetCmd { key: Seq<u8>, value: Seq<u8>, expire: Option<u64> },
    Del(Seq<Seq<u8>>),
    InfoDefault,
    InfoReplication,
    BgSave,
    Auth { username: Option<Seq<u8>>, password: Seq<u8> },
    ReplconfDefault,
    ReplconfGetAck,
    Psync { replid: Option<Seq<u8>>, offset: Option<u64> },
    Wait { numreplicas: u64, timeout: u64 },
}

impl View for Cmd {
    type V = CmdV;

    open spec fn view(&self) -> CmdV {
        match self {
            Cmd::Command(_) => CmdV::Command,
            Cmd::Ping(_) => CmdV::Ping,
            Cmd::Echo(e) => CmdV::Echo(e.msg@),
            Cmd::Get(g) => CmdV::Get(g.key@),
            Cmd::SetCmd(s) => CmdV::SetCmd { key: s.key@, value: s.value@, expire: s.expire },
            Cmd::Del(d) => CmdV::Del(vecs_view(d.key@)),
            Cmd::Info(i) => match i.sections {
                Section::Replication => CmdV::InfoReplication,
                _ => CmdV::InfoDefault,
            },
            Cmd::BgSave(_) => CmdV::BgSave,
            Cmd::Auth(a) => CmdV::Auth {
                username: match &a.username {
                    Some(u) => Some(u@),
                    None => None,
                },
                password: a.password@,
            },
            Cmd::Replconf(r) => match r {
                Replconf::Default => CmdV::ReplconfDefault,
                Replconf::GetAck => CmdV::ReplconfGetAck,
            },
            Cmd::Psync(p) => CmdV::Psync {
                replid: match &p.replid {
                    Some(x) => Some(x@),
                    None => None,
                },
                offset: p.repli_offset,
            },
            Cmd::Wait(w) => CmdV::Wait { numreplicas: w.numreplicas, timeout: w.timeout },
        }
    }
}

/// Why a frame is not a command.
#[derive(Debug)]
pub enum CmdError {
    /// The frame is not a flat array of bulk strings.
    Protocol,
    /// The first bulk names no known command.
    Unknown(Vec<u8>),
    /// The command name with a wrong number of arguments, in lower case.
    Arity(Vec<u8>),
    Syntax,
    InvalidExpireTime,
}

/// The mathematical shape of a command error.
pub enum CmdErrV {
    Protocol,
    Unknown(Seq<u8>),
    Arity(Seq<u8>),
    Syntax,
    InvalidExpireTime,
}

impl View for CmdError {
    type V = CmdErrV;

    open spec fn view(&self) -> CmdErrV {
        match self {
            CmdError::Protocol => CmdErrV::Protocol,
            CmdError::Unknown(n) => CmdErrV::Unknown(n@),
            CmdError::Arity(n) => CmdErrV::Arity(n@),
            CmdError::Syntax => CmdErrV::Syntax,
            CmdError::InvalidExpireTime => CmdErrV::InvalidExpireTime,
        }
    }
}

/// The expiration the SET command resolves its argument to, or the error.
pub open spec fn set_expire(arg: Seq<u8>, val_bytes: Seq<u8>, now: u64) -> Result<
    Option<u64>,
    CmdErrV,
> {
    if !(val_bytes.len() > 0 && all_digits(val_bytes) && dec_val(val_bytes) <= u64::MAX) {
        Err(CmdErrV::Syntax)
    } else {
        let v = dec_val(val_bytes) as u64;
        if kw_ex(arg) {
            if v == 0 || v * 1000 > u64::MAX || now + v * 1000 > u64::MAX {
                Err(CmdErrV::InvalidExpireTime)
            } else {
                Ok(Some((now + v * 1000) as u64))
            }
        } else if kw_px(arg) {
            if v == 0 || now + v > u64::MAX {
                Err(CmdErrV::InvalidExpireTime)
            } else {
                Ok(Some((now + v) as u64))
            }
        } else if kw_exat(arg) {
            if v * 1000 > u64::MAX {
                Err(CmdErrV::InvalidExpireTime)
            } else {
                Ok(Some((v * 1000) as u64))
            }
        } else if kw_pxat(arg) {
            Ok(Some(v))
        } else {
            Err(CmdErrV::Syntax)
        }
    }
}

/// What a flat array of bulks parses to: the command or the exact error.
pub open spec fn spec_parse_cmd(bulks: Seq<Seq<u8>>, now: u64) -> Result<CmdV, CmdErrV> {
    if bulks.len() == 0 {
        Err(CmdErrV::Syntax)
    } else {
        let name = upper(bulks[0]);
        if kw_command(name) {
            Ok(CmdV::Command)
        } else if kw_ping(name) {
            Ok(CmdV::Ping)
        } else if kw_echo(name) {
            if bulks.len() == 2 {
                Ok(CmdV::Echo(bulks[1]))
            } else {
                Err(CmdErrV::Arity(seq![101u8, 99u8, 104u8, 111u8]))
            }
        } else if kw_get(name) {
            if bulks.len() == 2 {
                Ok(CmdV::Get(bulks[1]))
            } else {
                Err(CmdErrV::Arity(seq![103u8, 101u8, 116u8]))
            }
        } else if kw_set(name) {
            if bulks.len() == 3 {
                Ok(CmdV::SetCmd { key: bulks[1], value: bulks[2], expire: Some(0u64) })
            } else if bulks.len() == 4 {
                if kw_keepttl(upper(bulks[3])) {
                    Ok(CmdV::SetCmd { key: bulks[1], value: bulks[2], expire: None })
                } else {
                    Err(CmdErrV::Syntax)
                }
            } else if bulks.len() == 5 {
                match set_expire(upper(bulks[3]), bulks[4], now) {
                    Ok(e) => Ok(CmdV::SetCmd { key: bulks[1], value: bulks[2], expire: e }),
                    Err(er) => Err(er),
                }
            } else {
                Err(CmdErrV::Arity(seq![115u8, 101u8, 116u8]))
            }
        } else if kw_del(name) {
            if bulks.len() >= 2 {
                Ok(CmdV::Del(bulks.drop_first()))
            } else {
                Err(CmdErrV::Arity(seq![100u8, 101u8, 108u8]))
            }
        } else if kw_info(name) {
            if bulks.len() == 1 {
                Ok(CmdV::InfoDefault)
            } else if bulks.len() == 2 && kw_replication(upper(bulks[1])) {
                Ok(CmdV::InfoReplication)
            } else {
                Err(CmdErrV::Syntax)
            }
        } else if kw_bgsave(name) {
            Ok(CmdV::BgSave)
        } else if kw_auth(name) {
            if bulks.len() == 2 {
                Ok(CmdV::Auth { username: None, password: bulks[1] })
            } else if bulks.len() == 3 {
                Ok(CmdV::Auth { username: Some(bulks[1]), password: bulks[2] })
            } else {
                Err(CmdErrV::Arity(seq![97u8, 117u8, 116u8, 104u8]))
            }
        } else if kw_replconf(name) {
            if bulks.len() == 3 && kw_getack(upper(bulks[1])) {
                Ok(CmdV::ReplconfGetAck)
            } else {
                Ok(CmdV::ReplconfDefault)
            }
        } else if kw_psync(name) {
            if bulks.len() == 3 {
                let replid = if bulks[1] =~= seq![63u8] {
                    None
                } else {
                    Some(bulks[1])
                };
                if bulks[2] =~= seq![45u8, 49u8] {
                    Ok(CmdV::Psync { replid, offset: None })
                } else if bulks[2].len() > 0 && all_digits(bulks[2]) && dec_val(bulks[2])
                    <= u64::MAX {
                    Ok(CmdV::Psync { replid, offset: Some(dec_val(bulks[2]) as u64) })
                } else {
                    Err(CmdErrV::Syntax)
                }
            } else {
                Err(CmdErrV::Arity(seq![112u8, 115u8, 121u8, 110u8, 99u8]))
            }
        } else if kw_wait(name) {
            if bulks.len() == 3 {
                if bulks[1].len() > 0 && all_digits(bulks[1]) && dec_val(bulks[1]) <= u64::MAX
                    && bulks[2].len() > 0 && all_digits(bulks[2]) && dec_val(bulks[2])
                    <= u64::MAX {
                    Ok(CmdV::Wait {
                        numreplicas: dec_val(bulks[1]) as u64,
                        timeout: dec_val(bulks[2]) as u64,
                    })
                } else {
                    Err(CmdErrV::Syntax)
                }
            } else {
                Err(CmdErrV::Arity(seq![119u8, 97u8, 105u8, 116u8]))
            }
        } else {
            Err(CmdErrV::Unknown(bulks[0]))
        }
    }
}

/// What the removal of a list of keys leaves behind.
pub open spec fn del_all(m: Map<Seq<u8>, ObjV>, keys: Seq<Seq<u8>>) -> Map<Seq<u8>, ObjV>
    decreases keys.len(),
{
    if keys.len() == 0 {
        m
    } else {
        del_all(m.remove(keys[0]), keys.drop_first())
    }
}

/// How many of the removed keys were present and live when removed.
pub open spec fn del_count(m: Map<Seq<u8>, ObjV>, keys: Seq<Seq<u8>>, now: u64) -> int
    decreases keys.len(),
{
    if keys.len() == 0 {
        0
    } else {
        (if spec_get(m, keys[0], now) is Some {
            1int
        } else {
            0int
        }) + del_count(m.remove(keys[0]), keys.drop_first(), now)
    }
}

/// What a command does to the keyspace. The replicate path performs exactly
/// the same change.
pub open spec fn cmd_store_effect(c: CmdV, m: Map<Seq<u8>, ObjV>, now: u64) -> Map<Seq<u8>, ObjV> {
    match c {
        CmdV::Get(k) => evict(m, k, now),
        CmdV::SetCmd { key, value, expire } => spec_set(m, key, value, expire),
        CmdV::Del(keys) => del_all(m, keys),
        _ => m,
    }
}

/// Whether a password passes the configured requirement.
pub open spec fn auth_ok(requirepass: Option<Seq<u8>>, password: Seq<u8>) -> bool {
    match requirepass {
        Some(p) => p == password,
        None => true,
    }
}

/// The INFO replication text.
pub open spec fn info_repl(is_master: bool, run_id: Seq<u8>, offset: u64) -> Seq<u8> {
    (if is_master {
        msg_role_master()
    } else {
        msg_role_slave()
    }) + run_id + msg_offset_field() + dec_rep(offset as nat) + msg_line_end()
}

/// The `REPLCONF ACK <offset>` frame a follower reports with.
pub open spec fn ack_frame(offset: u64) -> FrameV {
    FrameV::Array(
        seq![
            FrameV::Bulk(lit_replconf()),
            FrameV::Bulk(lit_ack()),
            FrameV::Bulk(dec_rep(offset as nat)),
        ],
    )
}

/// What the connection must do after a command has run.
#[derive(Debug, PartialEq, Eq, Structural, Clone, Copy)]
pub enum Effect {
    Nothing,
    /// Broadcast the original frame on the write-command channel.
    Propagate,
    /// Start a background snapshot.
    ScheduleSnapshot,
    /// Record the authentication outcome on the connection.
    SetAuthed(bool),
    /// Hand the connection over to the replication feed.
    StartReplicaFeed,
    /// Run the WAIT coordination.
    StartWait,
}

/// The read-only surroundings a command executes in.
pub struct ExecCtx {
    pub is_master: bool,
    pub run_id: Vec<u8>,
    pub offset: u64,
    pub requirepass: Option<Vec<u8>>,
    pub authed: bool,
}

pub open spec fn ctx_requirepass(ctx: &ExecCtx) -> Option<Seq<u8>> {
    match ctx.requirepass {
        Some(p) => Some(p@),
        None => None,
    }
}

/// The reply a command produces for the client.
pub open spec fn cmd_reply(c: CmdV, m: Map<Seq<u8>, ObjV>, now: u64, ctx: &ExecCtx) -> Option<
    FrameV,
> {
    match c {
        CmdV::Command => Some(FrameV::Array(Seq::empty())),
        CmdV::Ping => Some(FrameV::Simple(msg_pong())),
        CmdV::Echo(msg) => Some(FrameV::Bulk(msg)),
        CmdV::Get(k) => match spec_get(m, k, now) {
            Some(v) => Some(FrameV::Bulk(v)),
            None => Some(FrameV::Null),
        },
        CmdV::SetCmd { .. } => Some(FrameV::Simple(msg_ok())),
        CmdV::Del(keys) => Some(FrameV::Integer(del_count(m, keys, now) as u64)),
        CmdV::InfoDefault => Some(
            FrameV::Bulk(info_repl(ctx.is_master, ctx.run_id@, ctx.offset)),
        ),
        CmdV::InfoReplication => Some(
            FrameV::Bulk(info_repl(ctx.is_master, ctx.run_id@, ctx.offset)),
        ),
        CmdV::BgSave => Some(FrameV::Simple(msg_bgsave_reply())),
        CmdV::Auth { username: _, password } => if auth_ok(ctx_requirepass(ctx), password) {
            Some(FrameV::Simple(msg_ok()))
        } else {
            Some(FrameV::Error(msg_invalid_password()))
        },
        CmdV::ReplconfDefault => Some(FrameV::Simple(msg_ok())),
        CmdV::ReplconfGetAck => Some(ack_frame(ctx.offset)),
        CmdV::Psync { .. } => None,
        CmdV::Wait { .. } => None,
    }
}

/// The side effect a command asks the connection to perform.
pub open spec fn cmd_effect(c: CmdV, ctx: &ExecCtx) -> Effect {
    match c {
        CmdV::SetCmd { .. } => if ctx.is_master {
            Effect::Propagate
        } else {
            Effect::Nothing
        },
        CmdV::Del(_) => if ctx.is_master {
            Effect::Propagate
        } else {
            Effect::Nothing
        },
        CmdV::BgSave => Effect::ScheduleSnapshot,
        CmdV::Auth { username: _, password } => Effect::SetAuthed(
            auth_ok(ctx_requirepass(ctx), password),
        ),
        CmdV::Psync { .. } => Effect::StartReplicaFeed,
        CmdV::Wait { .. } => Effect::StartWait,
        _ => Effect::Nothing,
    }
}

/// A connection that has not authenticated may only issue AUTH when a
/// password is required.
pub open spec fn needs_auth(c: CmdV, ctx: &ExecCtx) -> bool {
    &&& ctx.requirepass is Some
    &&& !ctx.authed
    &&& !(c matches CmdV::Auth { .. })
}

/// Refuses a command from a connection that must authenticate first.
pub fn pre_auth_check(cmd: &Cmd, ctx: &ExecCtx) -> (r: Option<Frame>)
    ensures
        match r {
            Some(f) => needs_auth(cmd@, ctx) && f@ == FrameV::Error(msg_noauth()),
            None => !needs_auth(cmd@, ctx),
        },
{
    let gate = match (&ctx.requirepass, cmd) {
        (Some(_), Cmd::Auth(_)) => false,
        (Some(_), _) => !ctx.authed,
        (None, _) => false,
    };
    if gate {
        let mut v: Vec<u8> = Vec::new();
        append_msg_noauth(&mut v);
        Some(Frame::Error(v))
    } else {
        None
    }
}

/// Builds the INFO replication text for this node.
fn build_info(ctx: &ExecCtx) -> (r: Vec<u8>)
    ensures
        r@ == info_repl(ctx.is_master, ctx.run_id@, ctx.offset),
{
    let mut v: Vec<u8> = Vec::new();
    if ctx.is_master {
        append_msg_role_master(&mut v);
    } else {
        append_msg_role_slave(&mut v);
    }
    crate::frame::append_all(&mut v, ctx.run_id.as_slice());
    append_msg_offset_field(&mut v);
    let d = u64_to_dec(ctx.offset);
    crate::frame::append_all(&mut v, d.as_slice());
    append_msg_line_end(&mut v);
    proof {
        assert(v@ =~= info_repl(ctx.is_master, ctx.run_id@, ctx.offset));
    }
    v
}

/// Builds the `REPLCONF ACK <offset>` frame.
pub fn build_ack_frame(offset: u64) -> (r: Frame)
    ensures
        r@ == ack_frame(offset),
{
    let mut a: Vec<u8> = Vec::new();
    append_lit_replconf(&mut a);
    let mut b: Vec<u8> = Vec::new();
    append_lit_ack(&mut b);
    let c = u64_to_dec(offset);
    let mut fs: Vec<Frame> = Vec::new();
    fs.push(Frame::Bulk(a));
    fs.push(Frame::Bulk(b));
    fs.push(Frame::Bulk(c));
    proof {
        lemma_frames_view(fs@);
        assert(frames_view(fs@) =~= seq![
            FrameV::Bulk(lit_replconf()),
            FrameV::Bulk(lit_ack()),
            FrameV::Bulk(dec_rep(offset as nat)),
        ]);
    }
    Frame::Array(fs)
}

/// Removes each named key, counting those that were present and live.
fn del_keys(store: &mut KvPairs, keys: &Vec<Vec<u8>>, now_ms: u64) -> (r: u64)
    requires
        kv_wf(old(store)@),
    ensures
        kv_wf(final(store)@),
        final(store)@ == del_all(old(store)@, vecs_view(keys@)),
        r == del_count(old(store)@, vecs_view(keys@), now_ms),
{
    let ghost ks = vecs_view(keys@);
    let ghost m0 = store@;
    proof {
        lemma_vecs_view(keys@);
        assert(ks.skip(0) =~= ks);
    }
    let mut count: u64 = 0;
    let mut i: usize = 0;
    while i < keys.len()
        invariant
            i <= keys@.len(),
            kv_wf(store@),
            ks == vecs_view(keys@),
            ks.len() == keys@.len(),
            forall|j: int| 0 <= j < keys@.len() ==> #[trigger] ks[j] == keys@[j]@,
            count <= i,
            del_all(m0, ks) == del_all(store@, ks.skip(i as int)),
            del_count(m0, ks, now_ms) == count + del_count(store@, ks.skip(i as int), now_ms),
        decreases keys@.len() - i,
    {
        let ghost cur = store@;
        let key = &keys[i];
        let live = store.check_exist(key.as_slice(), now_ms);
        store.del(key.as_slice());
        proof {
            assert(ks.skip(i as int)[0] == ks[i as int]);
            assert(ks.skip(i as int).drop_first() =~= ks.skip(i + 1));
            assert(store@ =~= cur.remove(ks[i as int]));
        }
        if live {
            count = count + 1;
        }
        i += 1;
    }
    proof {
        assert(ks.skip(keys@.len() as int) =~= Seq::<Seq<u8>>::empty());
    }
    count
}

/// Executes a command on the leader path: mutates the store, produces the
/// client reply, and names the side effect the connection must perform.
pub fn execute_cmd(cmd: &Cmd, store: &mut KvPairs, now_ms: u64, ctx: &ExecCtx) -> (r: (
    Option<Frame>,
    Effect,
))
    requires
        kv_wf(old(store)@),
    ensures
        kv_wf(final(store)@),
        final(store)@ == cmd_store_effect(cmd@, old(store)@, now_ms),
        match r.0 {
            Some(f) => cmd_reply(cmd@, old(store)@, now_ms, ctx) == Some(f@),
            None => cmd_reply(cmd@, old(store)@, now_ms, ctx) is None,
        },
        r.1 == cmd_effect(cmd@, ctx),
{
    match cmd {
        Cmd::Command(_) => {
            let fs: Vec<Frame> = Vec::new();
            proof {
                assert(frames_view(fs@) =~= Seq::<FrameV>::empty());
            }
            (Some(Frame::Array(fs)), Effect::Nothing)
        }
        Cmd::Ping(_) => {
            let mut v: Vec<u8> = Vec::new();
            append_msg_pong(&mut v);
            (Some(Frame::Simple(v)), Effect::Nothing)
        }
        Cmd::Echo(e) => (Some(Frame::Bulk(clone_bytes(&e.msg))), Effect::Nothing),
        Cmd::Get(g) => {
            match store.get(g.key.as_slice(), now_ms) {
                Some(v) => (Some(Frame::Bulk(v)), Effect::Nothing),
                None => (Some(Frame::Null), Effect::Nothing),
            }
        }
        Cmd::SetCmd(sc) => {
            store.set(sc.key.as_slice(), clone_bytes(&sc.value), sc.expire);
            let mut v: Vec<u8> = Vec::new();
            append_msg_ok(&mut v);
            let eff = if ctx.is_master {
                Effect::Propagate
            } else {
                Effect::Nothing
            };
            (Some(Frame::Simple(v)), eff)
        }
        Cmd::Del(d) => {
            let n = del_keys(store, &d.key, now_ms);
            let eff = if ctx.is_master {
                Effect::Propagate
            } else {
                Effect::Nothing
            };
            (Some(Frame::Integer(n)), eff)
        }
        Cmd::Info(_) => (Some(Frame::Bulk(build_info(ctx))), Effect::Nothing),
        Cmd::BgSave(_) => {
            let mut v: Vec<u8> = Vec::new();
            append_msg_bgsave_reply(&mut v);
            (Some(Frame::Simple(v)), Effect::ScheduleSnapshot)
        }
        Cmd::Auth(a) => {
            let ok = match &ctx.requirepass {
                Some(p) => crate::bytes_eq(p.as_slice(), a.password.as_slice()),
                None => true,
            };
            if ok {
                let mut v: Vec<u8> = Vec::new();
                append_msg_ok(&mut v);
                (Some(Frame::Simple(v)), Effect::SetAuthed(true))
            } else {
                let mut v: Vec<u8> = Vec::new();
                append_msg_invalid_password(&mut v);
                (Some(Frame::Error(v)), Effect::SetAuthed(false))
            }
        }
        Cmd::Replconf(rc) => {
            match rc {
                Replconf::Default => {
                    let mut v: Vec<u8> = Vec::new();
                    append_msg_ok(&mut v);
                    (Some(Frame::Simple(v)), Effect::Nothing)
                }
                Replconf::GetAck => (Some(build_ack_frame(ctx.offset)), Effect::Nothing),
            }
        }
        Cmd::Psync(_) => (None, Effect::StartReplicaFeed),
        Cmd::Wait(_) => (None, Effect::StartWait),
    }
}

/// Executes a command arriving over the replication link: the very same
/// store change as the leader path, with every reply suppressed except the
/// acknowledgement that GETACK demands.
pub fn replicate_execute_cmd(cmd: &Cmd, store: &mut KvPairs, now_ms: u64, ctx: &ExecCtx) -> (r:
    Option<Frame>)
    requires
        kv_wf(old(store)@),
    ensures
        kv_wf(final(store)@),
        final(store)@ == cmd_store_effect(cmd@, old(store)@, now_ms),
        match r {
            Some(f) => cmd@ is ReplconfGetAck && f@ == ack_frame(ctx.offset),
            None => !(cmd@ is ReplconfGetAck),
        },
{
    match cmd {
        Cmd::Get(g) => {
            let _ = store.get(g.key.as_slice(), now_ms);
            None
        }
        Cmd::SetCmd(sc) => {
            store.set(sc.key.as_slice(), clone_bytes(&sc.value), sc.expire);
            None
        }
        Cmd::Del(d) => {
            let _ = del_keys(store, &d.key, now_ms);
            None
        }
        Cmd::Replconf(Replconf::GetAck) => Some(build_ack_frame(ctx.offset)),
        _ => None,
    }
}

/// The byte text of each command error, exactly as it is sent.
pub open spec fn err_msg(e: CmdErrV) -> Seq<u8> {
    match e {
        CmdErrV::Protocol => msg_syntax(),
        CmdErrV::Unknown(name) => msg_unknown_prefix() + name + msg_quote(),
        CmdErrV::Arity(name) => msg_arity_prefix() + name + msg_quote() + seq![
            32u8, 99u8, 111u8, 109u8, 109u8, 97u8, 110u8, 100u8,
        ],
        CmdErrV::Syntax => msg_syntax(),
        CmdErrV::InvalidExpireTime => msg_invalid_expire(),
    }
}

/// The error frame sent for a command error.
pub fn error_reply(e: &CmdError) -> (r: Frame)
    ensures
        r@ == FrameV::Error(err_msg(e@)),
{
    match e {
        CmdError::Protocol => {
            let mut v: Vec<u8> = Vec::new();
            append_msg_syntax(&mut v);
            Frame::Error(v)
        }
        CmdError::Unknown(name) => {
            let mut v: Vec<u8> = Vec::new();
            append_msg_unknown_prefix(&mut v);
            crate::frame::append_all(&mut v, name.as_slice());
            append_msg_quote(&mut v);
            proof {
                assert(v@ =~= err_msg(e@));
            }
            Frame::Error(v)
        }
        CmdError::Arity(name) => {
            let mut v: Vec<u8> = Vec::new();
            append_msg_arity_prefix(&mut v);
            crate::frame::append_all(&mut v, name.as_slice());
            append_msg_quote(&mut v);
            v.push(32);
            v.push(99);
            v.push(111);
            v.push(109);
            v.push(109);
            v.push(97);
            v.push(110);
            v.push(100);
            proof {
                assert(v@ =~= err_msg(e@));
            }
            Frame::Error(v)
        }
        CmdError::Syntax => {
            let mut v: Vec<u8> = Vec::new();
            append_msg_syntax(&mut v);
            Frame::Error(v)
        }
        CmdError::InvalidExpireTime => {
            let mut v: Vec<u8> = Vec::new();
            append_msg_invalid_expire(&mut v);
            Frame::Error(v)
        }
    }
}


fn arity_echo() -> (r: CmdError)
    ensures
        r@ == CmdErrV::Arity(seq![101u8, 99u8, 104u8, 111u8]),
{
    let mut n: Vec<u8> = Vec::new();
    n.push(101);
            n.push(99);
            n.push(104);
            n.push(111);
    proof {
        assert(n@ =~= seq![101u8, 99u8, 104u8, 111u8]);
    }
    CmdError::Arity(n)
}

fn arity_get() -> (r: CmdError)
    ensures
        r@ == CmdErrV::Arity(seq![103u8, 101u8, 116u8]),
{
    let mut n: Vec<u8> = Vec::new();
    n.push(103);
            n.push(101);
            n.push(116);
    proof {
        assert(n@ =~= seq![103u8, 101u8, 116u8]);
    }
    CmdError::Arity(n)
}

fn arity_set() -> (r: CmdError)
    ensures
        r@ == CmdErrV::Arity(seq![115u8, 101u8, 116u8]),
{
    let mut n: Vec<u8> = Vec::new();
    n.push(115);
            n.push(101);
            n.push(116);
    proof {
        assert(n@ =~= seq![115u8, 101u8, 116u8]);
    }
    CmdError::Arity(n)
}

fn arity_del() -> (r: CmdError)
    ensures
        r@ == CmdErrV::Arity(seq![100u8, 101u8, 108u8]),
{
    let mut n: Vec<u8> = Vec::new();
    n.push(100);
            n.push(101);
            n.push(108);
    proof {
        assert(n@ =~= seq![100u8, 101u8, 108u8]);
    }
    CmdError::Arity(n)
}

fn arity_auth() -> (r: CmdError)
    ensures
        r@ == CmdErrV::Arity(seq![97u8, 117u8, 116u8, 104u8]),
{
    let mut n: Vec<u8> = Vec::new();
    n.push(97);
            n.push(117);
            n.push(116);
            n.push(104);
    proof {
        assert(n@ =~= seq![97u8, 117u8, 116u8, 104u8]);
    }
    CmdError::Arity(n)
}

fn arity_psync() -> (r: CmdError)
    ensures
        r@ == CmdErrV::Arity(seq![112u8, 115u8, 121u8, 110u8, 99u8]),
{
    let mut n: Vec<u8> = Vec::new();
    n.push(112);
            n.push(115);
            n.push(121);
            n.push(110);
            n.push(99);
    proof {
        assert(n@ =~= seq![112u8, 115u8, 121u8, 110u8, 99u8]);
    }
    CmdError::Arity(n)
}

fn arity_wait() -> (r: CmdError)
    ensures
        r@ == CmdErrV::Arity(seq![119u8, 97u8, 105u8, 116u8]),
{
    let mut n: Vec<u8> = Vec::new();
    n.push(119);
            n.push(97);
            n.push(105);
            n.push(116);
    proof {
        assert(n@ =~= seq![119u8, 97u8, 105u8, 116u8]);
    }
    CmdError::Arity(n)
}


/// Parses a frame into a command at time `now_ms`; the time resolves the
/// relative expiration arguments of SET. Agrees exactly with
/// `spec_parse_cmd` on flat arrays of bulks and rejects anything else.
#[verifier::rlimit(100)]
#[verifier::spinoff_prover]
pub fn parse_cmd(frame: &Frame, now_ms: u64) -> (r: Result<Cmd, CmdError>)
    ensures
        match r {
            Ok(c) => as_bulks(frame@) matches Some(b) && spec_parse_cmd(b, now_ms) == Ok::<CmdV, CmdErrV>(c@),
            Err(e) => match as_bulks(frame@) {
                Some(b) => spec_parse_cmd(b, now_ms) == Err::<CmdV, CmdErrV>(e@),
                None => e@ == CmdErrV::Protocol,
            },
        },
{
    let bulks = match frame_bulks(frame) {
        Some(b) => b,
        None => {
            return Err(CmdError::Protocol);
        }
    };
    let ghost bv = vecs_view(bulks@);
    proof {
        lemma_vecs_view(bulks@);
    }
    if bulks.len() == 0 {
        return Err(CmdError::Syntax);
    }
    let name = to_upper_vec(bulks[0].as_slice());
    let n = name.as_slice();
    if n.len() == 7 && n[0] == 67 && n[1] == 79 && n[2] == 77 && n[3] == 77 && n[4] == 65 && n[5] == 78 && n[6] == 68 {
        Ok(Cmd::Command(Command))
    } else if n.len() == 4 && n[0] == 80 && n[1] == 73 && n[2] == 78 && n[3] == 71 {
        Ok(Cmd::Ping(Ping))
    } else if n.len() == 4 && n[0] == 69 && n[1] == 67 && n[2] == 72 && n[3] == 79 {
        if bulks.len() == 2 {
            Ok(Cmd::Echo(Echo { msg: clone_bytes(&bulks[1]) }))
        } else {
            Err(arity_echo())
        }
    } else if n.len() == 3 && n[0] == 71 && n[1] == 69 && n[2] == 84 {
        if bulks.len() == 2 {
            Ok(Cmd::Get(Get { key: clone_bytes(&bulks[1]) }))
        } else {
            Err(arity_get())
        }
    } else if n.len() == 3 && n[0] == 83 && n[1] == 69 && n[2] == 84 {
        if bulks.len() == 3 {
            Ok(Cmd::SetCmd(SetCmd {
                key: clone_bytes(&bulks[1]),
                value: clone_bytes(&bulks[2]),
                expire: Some(0),
            }))
        } else if bulks.len() == 4 {
            let arg = to_upper_vec(bulks[3].as_slice());
            let a = arg.as_slice();
            if a.len() == 7 && a[0] == 75 && a[1] == 69 && a[2] == 69 && a[3] == 80 && a[4] == 84 && a[5] == 84 && a[6] == 76 {
                Ok(Cmd::SetCmd(SetCmd {
                    key: clone_bytes(&bulks[1]),
                    value: clone_bytes(&bulks[2]),
                    expire: None,
                }))
            } else {
                Err(CmdError::Syntax)
            }
        } else if bulks.len() == 5 {
            let arg = to_upper_vec(bulks[3].as_slice());
            let a = arg.as_slice();
            let v = match parse_u64(bulks[4].as_slice()) {
                Some(v) => v,
                None => {
                    return Err(CmdError::Syntax);
                }
            };
            let expire: Option<u64> = if a.len() == 2 && a[0] == 69 && a[1] == 88 {
                if v == 0 {
                    return Err(CmdError::InvalidExpireTime);
                }
                match v.checked_mul(1000) {
                    Some(ms) => match now_ms.checked_add(ms) {
                        Some(e) => Some(e),
                        None => {
                            return Err(CmdError::InvalidExpireTime);
                        }
                    },
                    None => {
                        return Err(CmdError::InvalidExpireTime);
                    }
                }
            } else if a.len() == 2 && a[0] == 80 && a[1] == 88 {
                if v == 0 {
                    return Err(CmdError::InvalidExpireTime);
                }
                match now_ms.checked_add(v) {
                    Some(e) => Some(e),
                    None => {
                        return Err(CmdError::InvalidExpireTime);
                    }
                }
            } else if a.len() == 4 && a[0] == 69 && a[1] == 88 && a[2] == 65 && a[3] == 84 {
                match v.checked_mul(1000) {
                    Some(e) => Some(e),
                    None => {
                        return Err(CmdError::InvalidExpireTime);
                    }
                }
            } else if a.len() == 4 && a[0] == 80 && a[1] == 88 && a[2] == 65 && a[3] == 84 {
                Some(v)
            } else {
                return Err(CmdError::Syntax);
            };
            Ok(Cmd::SetCmd(SetCmd {
                key: clone_bytes(&bulks[1]),
                value: clone_bytes(&bulks[2]),
                expire,
            }))
        } else {
            Err(arity_set())
        }
    } else if n.len() == 3 && n[0] == 68 && n[1] == 69 && n[2] == 76 {
        if bulks.len() >= 2 {
            let mut keys: Vec<Vec<u8>> = Vec::new();
            let mut i: usize = 1;
            while i < bulks.len()
                invariant
                    1 <= i <= bulks@.len(),
                    bv == vecs_view(bulks@),
                    bv.len() == bulks@.len(),
                    forall|j: int| 0 <= j < bulks@.len() ==> #[trigger] bv[j] == bulks@[j]@,
                    vecs_view(keys@).len() == i - 1,
                    forall|j: int|
                        0 <= j < i - 1 ==> #[trigger] vecs_view(keys@)[j] == bv[j + 1],
                decreases bulks@.len() - i,
            {
                let ghost prev = keys@;
                keys.push(clone_bytes(&bulks[i]));
                proof {
                    assert(keys@.drop_last() =~= prev);
                    lemma_vecs_view(keys@);
                }
                i += 1;
            }
            proof {
                assert(vecs_view(keys@) =~= bv.drop_first());
            }
            Ok(Cmd::Del(Del { key: keys }))
        } else {
            Err(arity_del())
        }
    } else if n.len() == 4 && n[0] == 73 && n[1] == 78 && n[2] == 70 && n[3] == 79 {
        if bulks.len() == 1 {
            Ok(Cmd::Info(Info { sections: Section::Default }))
        } else if bulks.len() == 2 {
            let sec = to_upper_vec(bulks[1].as_slice());
            let st = sec.as_slice();
            if st.len() == 11 && st[0] == 82 && st[1] == 69 && st[2] == 80 && st[3] == 76 && st[4] == 73 && st[5] == 67 && st[6] == 65 && st[7] == 84 && st[8] == 73 && st[9] == 79 && st[10] == 78 {
                Ok(Cmd::Info(Info { sections: Section::Replication }))
            } else {
                Err(CmdError::Syntax)
            }
        } else {
            Err(CmdError::Syntax)
        }
    } else if n.len() == 6 && n[0] == 66 && n[1] == 71 && n[2] == 83 && n[3] == 65 && n[4] == 86 && n[5] == 69 {
        Ok(Cmd::BgSave(BgSave))
    } else if n.len() == 4 && n[0] == 65 && n[1] == 85 && n[2] == 84 && n[3] == 72 {
        if bulks.len() == 2 {
            Ok(Cmd::Auth(Auth { username: None, password: clone_bytes(&bulks[1]) }))
        } else if bulks.len() == 3 {
            Ok(Cmd::Auth(Auth {
                username: Some(clone_bytes(&bulks[1])),
                password: clone_bytes(&bulks[2]),
            }))
        } else {
            Err(arity_auth())
        }
    } else if n.len() == 8 && n[0] == 82 && n[1] == 69 && n[2] == 80 && n[3] == 76 && n[4] == 67 && n[5] == 79 && n[6] == 78 && n[7] == 70 {
        if bulks.len() == 3 {
            let sub = to_upper_vec(bulks[1].as_slice());
            let sb = sub.as_slice();
            if sb.len() == 6 && sb[0] == 71 && sb[1] == 69 && sb[2] == 84 && sb[3] == 65 && sb[4] == 67 && sb[5] == 75 {
                Ok(Cmd::Replconf(Replconf::GetAck))
            } else {
                Ok(Cmd::Replconf(Replconf::Default))
            }
        } else {
            Ok(Cmd::Replconf(Replconf::Default))
        }
    } else if n.len() == 5 && n[0] == 80 && n[1] == 83 && n[2] == 89 && n[3] == 78 && n[4] == 67 {
        if bulks.len() == 3 {
            let rid = bulks[1].as_slice();
            let replid: Option<Vec<u8>> = if rid.len() == 1 && rid[0] == 63 {
                None
            } else {
                Some(clone_bytes(&bulks[1]))
            };
            let off = bulks[2].as_slice();
            if off.len() == 2 && off[0] == 45 && off[1] == 49 {
                proof {
                    assert(bv[2] =~= seq![45u8, 49u8]);
                }
                Ok(Cmd::Psync(Psync { replid, repli_offset: None }))
            } else {
                proof {
                    assert(!(bv[2] =~= seq![45u8, 49u8]));
                }
                match parse_u64(off) {
                    Some(v) => Ok(Cmd::Psync(Psync { replid, repli_offset: Some(v) })),
                    None => Err(CmdError::Syntax),
                }
            }
        } else {
            Err(arity_psync())
        }
    } else if n.len() == 4 && n[0] == 87 && n[1] == 65 && n[2] == 73 && n[3] == 84 {
        if bulks.len() == 3 {
            let a = match parse_u64(bulks[1].as_slice()) {
                Some(v) => v,
                None => {
                    return Err(CmdError::Syntax);
                }
            };
            let b = match parse_u64(bulks[2].as_slice()) {
                Some(v) => v,
                None => {
                    return Err(CmdError::Syntax);
                }
            };
            Ok(Cmd::Wait(Wait { numreplicas: a, timeout: b }))
        } else {
            Err(arity_wait())
        }
    } else {
        Err(CmdError::Unknown(clone_bytes(&bulks[0])))
    }
}


impl Frame {
    /// Parses this frame into a command at time `now_ms`.
    pub fn parse_cmd(&self, now_ms: u64) -> (r: Result<Cmd, CmdError>)
        ensures
            match r {
                Ok(c) => as_bulks(self@) matches Some(b) && spec_parse_cmd(b, now_ms)
                    == Ok::<CmdV, CmdErrV>(c@),
                Err(e) => match as_bulks(self@) {
                    Some(b) => spec_parse_cmd(b, now_ms) == Err::<CmdV, CmdErrV>(e@),
                    None => e@ == CmdErrV::Protocol,
                },
            },
    {
        parse_cmd(self, now_ms)
    }
}


} // verus!
