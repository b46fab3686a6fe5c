//! The value store: byte-string values with integer detection, per-key
//! expiration, and a concurrent keyspace. The keyspace itself is a dashmap
//! held behind a small trusted boundary; every rule about encodings and
//! expiry is verified on top of it.

use vstd::prelude::*;
use crate::num::{
    dec_rep_i64, is_canonical_i64, i64_val, lemma_canonical_i64_roundtrip,
    lemma_dec_rep_i64_canonical, lemma_i64_val_of_rep, parse_i64_canonical, i64_to_dec,
};
use crate::frame::clone_bytes;

verus! {

/// The mathematical shape of a string value.
pub enum StrV {
    /// Held as a signed 64-bit integer; the bytes are its canonical decimal.
    Int(i64),
    /// Held as raw bytes.
    Raw(Seq<u8>),
}

/// A string value, encoded on insert.
#[derive(Debug)]
pub enum Str {
    Raw(Vec<u8>),
    Int(i64),
}

impl View for Str {
    type V = StrV;

    open spec fn view(&self) -> StrV {
        match self {
            Str::Raw(b) => StrV::Raw(b@),
            Str::Int(i) => StrV::Int(*i),
        }
    }
}

/// The encoding rule: bytes that are the canonical decimal form of a signed
/// 64-bit integer are held as that integer, anything else as raw bytes.
pub open spec fn str_encode_spec(b: Seq<u8>) -> StrV {
    if is_canonical_i64(b) {
        StrV::Int(i64_val(b) as i64)
    } else {
        StrV::Raw(b)
    }
}

/// The decoding rule: the canonical byte form of what the value denotes.
pub open spec fn str_decode_spec(v: StrV) -> Seq<u8> {
    match v {
        StrV::Int(i) => dec_rep_i64(i as int),
        StrV::Raw(b) => b,
    }
}

/// An encoded value never hides an integer in its raw form.
pub open spec fn str_wf(v: StrV) -> bool {
    match v {
        StrV::Int(_) => true,
        StrV::Raw(b) => !is_canonical_i64(b),
    }
}

/// Decoding inverts encoding: whatever bytes are stored come back unchanged.
pub proof fn lemma_str_codec_roundtrip(b: Seq<u8>)
    ensures
        str_decode_spec(str_encode_spec(b)) == b,
        str_wf(str_encode_spec(b)),
{
    if is_canonical_i64(b) {
        lemma_canonical_i64_roundtrip(b);
    }
}

/// Encoding inverts decoding on well-formed values, so the stored form is
/// canonical.
pub proof fn lemma_str_codec_canonical(v: StrV)
    requires
        str_wf(v),
    ensures
        str_encode_spec(str_decode_spec(v)) == v,
{
    match v {
        StrV::Int(i) => {
            lemma_dec_rep_i64_canonical(i as int);
            lemma_i64_val_of_rep(i as int);
        }
        StrV::Raw(_) => {}
    }
}

/// Values that can hold encoded bytes and give them back.
pub trait ObjValueCODEC where Self: Sized {
    fn encode(input: Vec<u8>) -> Self;

    fn decode(&self) -> Vec<u8>;
}

impl ObjValueCODEC for Str {
    fn encode(input: Vec<u8>) -> Self {
        Str::encode_value(input)
    }

    fn decode(&self) -> Vec<u8> {
        self.decode_value()
    }
}

impl Str {
    /// Chooses the `Int` or `Raw` representation for the given bytes.
    pub fn encode_value(input: Vec<u8>) -> (r: Str)
        ensures
            r@ == str_encode_spec(input@),
    {
        match parse_i64_canonical(input.as_slice()) {
            Some(i) => Str::Int(i),
            None => Str::Raw(input),
        }
    }

    /// The canonical byte form of this value.
    pub fn decode_value(&self) -> (r: Vec<u8>)
        ensures
            r@ == str_decode_spec(self@),
    {
        match self {
            Str::Raw(b) => clone_bytes(b),
            Str::Int(i) => i64_to_dec(*i),
        }
    }
}

impl Clone for Str {
    /// A clone denotes the same value.
    fn clone(&self) -> (r: Self)
        ensures
            r@ == self@,
    {
        match self {
            Str::Raw(b) => Str::Raw(clone_bytes(b)),
            Str::Int(i) => Str::Int(*i),
        }
    }
}

impl PartialEq for Str {
    /// Equality of the denoted values.
    fn eq(&self, other: &Self) -> (r: bool)
        ensures
            r == (self@ == other@),
    {
        match (self, other) {
            (Str::Raw(a), Str::Raw(b)) => crate::bytes_eq(a.as_slice(), b.as_slice()),
            (Str::Int(a), Str::Int(b)) => a == b,
            _ => false,
        }
    }
}

impl vstd::std_specs::cmp::PartialEqSpecImpl for Str {
    open spec fn obeys_eq_spec() -> bool {
        true
    }

    open spec fn eq_spec(&self, other: &Self) -> bool {
        self@ == other@
    }
}

/// The mathematical shape of a stored object: a value and an optional
/// absolute expiration, in milliseconds since the epoch.
pub struct ObjV {
    pub value: StrV,
    pub expire: Option<u64>,
}

/// A stored object. `expire` of `None` means the entry never expires.
#[derive(Debug)]
pub struct Object {
    pub value: Str,
    pub expire: Option<u64>,
}

impl View for Object {
    type V = ObjV;

    open spec fn view(&self) -> ObjV {
        ObjV { value: self.value@, expire: self.expire }
    }
}

pub open spec fn obj_wf(o: ObjV) -> bool {
    str_wf(o.value)
}

impl Object {
    /// Builds an object, encoding the value.
    pub fn new(value: Vec<u8>, expire_at: Option<u64>) -> (r: Object)
        ensures
            r@.value == str_encode_spec(value@),
            r@.expire == expire_at,
            obj_wf(r@),
    {
        proof {
            lemma_str_codec_roundtrip(value@);
        }
        Object { value: Str::encode_value(value), expire: expire_at }
    }

    /// The decoded value.
    pub fn value(&self) -> (r: Vec<u8>)
        ensures
            r@ == str_decode_spec(self@.value),
    {
        self.value.decode_value()
    }

    /// Replaces the value, re-encoding; the expiration is untouched.
    pub fn set_value(&mut self, value: Vec<u8>)
        ensures
            final(self)@.value == str_encode_spec(value@),
            final(self)@.expire == old(self)@.expire,
            obj_wf(final(self)@),
    {
        proof {
            lemma_str_codec_roundtrip(value@);
        }
        self.value = Str::encode_value(value);
    }

    /// The representation tag: 0 for an integer, 1 for raw bytes.
    pub fn value_type(&self) -> (r: u8)
        ensures
            r == 0 <==> self@.value is Int,
            r == 1 <==> self@.value is Raw,
    {
        match &self.value {
            Str::Int(_) => 0,
            Str::Raw(_) => 1,
        }
    }
}

impl Clone for Object {
    /// A clone denotes the same object.
    fn clone(&self) -> (r: Self)
        ensures
            r@ == self@,
    {
        Object { value: self.value.clone(), expire: self.expire }
    }
}

/// Objects are similar when their values are equal and their expirations
/// agree to within one second; codec round-trips may shift an expiration by
/// less than that.
pub open spec fn obj_sim(a: ObjV, b: ObjV) -> bool {
    &&& a.value == b.value
    &&& match (a.expire, b.expire) {
        (Option::None, Option::None) => true,
        (Option::Some(x), Option::Some(y)) => -1000 < x - y < 1000,
        _ => false,
    }
}

impl PartialEq for Object {
    /// Equality up to a one-second expiration skew.
    fn eq(&self, other: &Self) -> (r: bool)
        ensures
            r == obj_sim(self@, other@),
    {
        let values_eq = self.value == other.value;
        match (self.expire, other.expire) {
            (Option::None, Option::None) => values_eq,
            (Option::Some(x), Option::Some(y)) => {
                let close = if x >= y {
                    x - y < 1000
                } else {
                    y - x < 1000
                };
                close && values_eq
            }
            _ => false,
        }
    }
}

impl vstd::std_specs::cmp::PartialEqSpecImpl for Object {
    open spec fn obeys_eq_spec() -> bool {
        true
    }

    open spec fn eq_spec(&self, other: &Self) -> bool {
        obj_sim(self@, other@)
    }
}

/// The keyspace: a concurrent hash map from byte-string keys to objects,
/// with lazy expiry. Verus does not look inside the map; the trusted
/// functions below state what the dashmap operations do in terms of
/// `kv_contents`, and every rule about encodings and expiry is verified on
/// top of them.
#[verifier::external_body]
pub struct KvPairs {
    map: dashmap::DashMap<Vec<u8>, Object>,
}

/// What the keyspace holds: a finite map from key bytes to object shapes.
pub uninterp spec fn kv_contents(m: KvPairs) -> Map<Seq<u8>, ObjV>;

impl View for KvPairs {
    type V = Map<Seq<u8>, ObjV>;

    open spec fn view(&self) -> Map<Seq<u8>, ObjV> {
        kv_contents(*self)
    }
}

/// The contents of a keyspace that holds nothing.
pub open spec fn kv_empty() -> Map<Seq<u8>, ObjV> {
    Map::empty()
}

/// Relies on dashmap::DashMap::new: a fresh map holds nothing.
#[verifier::external_body]
fn kv_new() -> (r: KvPairs)
    ensures
        kv_contents(r) == kv_empty(),
{
    KvPairs { map: dashmap::DashMap::new() }
}

/// Relies on dashmap::DashMap::insert: afterwards the map holds `v` at `k`
/// and is unchanged elsewhere.
#[verifier::external_body]
fn kv_insert(m: &mut KvPairs, k: Vec<u8>, v: Object)
    ensures
        kv_contents(*final(m)) == kv_contents(*old(m)).insert(k@, v@),
{
    m.map.insert(k, v);
}

/// Relies on dashmap::DashMap::get: returns a copy of the entry at `k` when
/// one is present.
#[verifier::external_body]
fn kv_get(m: &KvPairs, k: &[u8]) -> (r: Option<Object>)
    ensures
        match r {
            Some(o) => kv_contents(*m).contains_key(k@) && o@ == kv_contents(*m)[k@],
            None => !kv_contents(*m).contains_key(k@),
        },
{
    m.map.get(k).map(|e| e.value().clone())
}

/// Relies on dashmap::DashMap::remove: afterwards the map holds nothing at
/// `k` and is unchanged elsewhere; reports whether an entry was there.
#[verifier::external_body]
fn kv_remove(m: &mut KvPairs, k: &[u8]) -> (r: bool)
    ensures
        kv_contents(*final(m)) == kv_contents(*old(m)).remove(k@),
        r == kv_contents(*old(m)).contains_key(k@),
{
    m.map.remove(k).is_some()
}

/// Relies on dashmap::DashMap::iter: yields every entry exactly once, in an
/// order this contract leaves open.
#[verifier::external_body]
fn kv_entries(m: &KvPairs) -> (r: Vec<(Vec<u8>, Object)>)
    ensures
        forall|i: int|
            0 <= i < r@.len() ==> kv_contents(*m).contains_key(#[trigger] r@[i].0@)
                && r@[i].1@ == kv_contents(*m)[r@[i].0@],
        forall|k: Seq<u8>| #[trigger]
            kv_contents(*m).contains_key(k) ==> exists|i: int|
                0 <= i < r@.len() && #[trigger] r@[i].0@ == k,
        forall|i: int, j: int| 0 <= i < j < r@.len() ==> #[trigger] r@[i].0@ != #[trigger] r@[j].0@,
{
    m.map.iter().map(|e| (e.key().clone(), e.value().clone())).collect()
}

/// An entry is live at `now` when it has no expiration or has not yet
/// passed it.
pub open spec fn live(o: ObjV, now: u64) -> bool {
    match o.expire {
        Option::Some(e) => e >= now,
        Option::None => true,
    }
}

/// What a read returns: the decoded value of a live entry.
pub open spec fn spec_get(m: Map<Seq<u8>, ObjV>, k: Seq<u8>, now: u64) -> Option<Seq<u8>> {
    if m.contains_key(k) && live(m[k], now) {
        Some(str_decode_spec(m[k].value))
    } else {
        None
    }
}

/// What a read does to the map: a dead entry is evicted.
pub open spec fn evict(m: Map<Seq<u8>, ObjV>, k: Seq<u8>, now: u64) -> Map<Seq<u8>, ObjV> {
    if m.contains_key(k) && !live(m[k], now) {
        m.remove(k)
    } else {
        m
    }
}

/// The expiration a write leaves behind: an explicit epoch instant of zero
/// clears the expiration; an absent argument keeps `prior`.
pub open spec fn new_expire(expire: Option<u64>, prior: Option<u64>) -> Option<u64> {
    match expire {
        Option::Some(e) => if e == 0 {
            Option::None
        } else {
            Option::Some(e)
        },
        Option::None => prior,
    }
}

/// What a write does to the map.
pub open spec fn spec_set(
    m: Map<Seq<u8>, ObjV>,
    k: Seq<u8>,
    v: Seq<u8>,
    expire: Option<u64>,
) -> Map<Seq<u8>, ObjV> {
    let prior = if m.contains_key(k) {
        m[k].expire
    } else {
        Option::None
    };
    m.insert(k, ObjV { value: str_encode_spec(v), expire: new_expire(expire, prior) })
}

/// Remaining time to live: absent or dead entries have none, persistent
/// entries report zero, the rest the time left.
pub open spec fn spec_ttl(m: Map<Seq<u8>, ObjV>, k: Seq<u8>, now: u64) -> Option<u64> {
    if m.contains_key(k) && live(m[k], now) {
        match m[k].expire {
            Option::None => Some(0u64),
            Option::Some(e) => Some((e - now) as u64),
        }
    } else {
        None
    }
}

/// Every stored value is well formed.
pub open spec fn kv_wf(m: Map<Seq<u8>, ObjV>) -> bool {
    &&& m.dom().finite()
    &&& forall|k: Seq<u8>| #[trigger] m.contains_key(k) ==> obj_wf(m[k])
}

impl KvPairs {
    /// An empty keyspace.
    pub fn new() -> (r: KvPairs)
        ensures
            r@ == kv_empty(),
            kv_wf(r@),
    {
        kv_new()
    }

    /// Reads `key` at time `now_ms`, evicting it first if it has expired.
    pub fn get(&mut self, key: &[u8], now_ms: u64) -> (r: Option<Vec<u8>>)
        requires
            kv_wf(old(self)@),
        ensures
            kv_wf(final(self)@),
            final(self)@ == evict(old(self)@, key@, now_ms),
            match r {
                Some(v) => spec_get(old(self)@, key@, now_ms) == Some(v@),
                None => spec_get(old(self)@, key@, now_ms) is None,
            },
    {
        match kv_get(self, key) {
            Some(obj) => {
                let expired = match obj.expire {
                    Some(e) => e < now_ms,
                    None => false,
                };
                if expired {
                    kv_remove(self, key);
                    None
                } else {
                    Some(obj.value())
                }
            }
            None => None,
        }
    }

    /// Writes `key`. An expiration of `Some(0)` (the epoch) clears any
    /// time-to-live, `None` keeps whatever the key had, and any other value
    /// becomes the key's absolute expiration.
    pub fn set(&mut self, key: &[u8], value: Vec<u8>, expire: Option<u64>)
        requires
            kv_wf(old(self)@),
        ensures
            kv_wf(final(self)@),
            final(self)@ == spec_set(old(self)@, key@, value@, expire),
    {
        let prior = match kv_get(self, key) {
            Some(obj) => obj.expire,
            None => None,
        };
        let eff = match expire {
            Some(e) => if e == 0 {
                None
            } else {
                Some(e)
            },
            None => prior,
        };
        let obj = Object::new(value, eff);
        let mut key_vec: Vec<u8> = Vec::new();
        crate::frame::append_all(&mut key_vec, key);
        proof {
            assert(key_vec@ =~= key@);
        }
        kv_insert(self, key_vec, obj);
    }

    /// Removes `key` unconditionally; reports whether an entry was there.
    pub fn del(&mut self, key: &[u8]) -> (r: bool)
        requires
            kv_wf(old(self)@),
        ensures
            kv_wf(final(self)@),
            final(self)@ == old(self)@.remove(key@),
            r == old(self)@.contains_key(key@),
    {
        kv_remove(self, key)
    }

    /// True exactly when `key` is present and live; evicts it otherwise.
    pub fn check_exist(&mut self, key: &[u8], now_ms: u64) -> (r: bool)
        requires
            kv_wf(old(self)@),
        ensures
            kv_wf(final(self)@),
            final(self)@ == evict(old(self)@, key@, now_ms),
            r == (spec_get(old(self)@, key@, now_ms) is Some),
    {
        match kv_get(self, key) {
            Some(obj) => {
                let expired = match obj.expire {
                    Some(e) => e < now_ms,
                    None => false,
                };
                if expired {
                    kv_remove(self, key);
                    false
                } else {
                    true
                }
            }
            None => false,
        }
    }

    /// Remaining time to live of `key` at `now_ms`, in milliseconds; zero
    /// for a persistent key, nothing for an absent or expired one.
    pub fn get_ttl(&mut self, key: &[u8], now_ms: u64) -> (r: Option<u64>)
        requires
            kv_wf(old(self)@),
        ensures
            kv_wf(final(self)@),
            final(self)@ == evict(old(self)@, key@, now_ms),
            r == spec_ttl(old(self)@, key@, now_ms),
    {
        match kv_get(self, key) {
            Some(obj) => {
                match obj.expire {
                    Some(e) => {
                        if e < now_ms {
                            kv_remove(self, key);
                            None
                        } else {
                            Some(e - now_ms)
                        }
                    }
                    None => Some(0),
                }
            }
            None => None,
        }
    }

    /// Gives `key` the absolute expiration `now_ms + ttl_ms` (saturating);
    /// false when the key is absent.
    pub fn set_ttl(&mut self, key: &[u8], ttl_ms: u64, now_ms: u64) -> (r: bool)
        requires
            kv_wf(old(self)@),
        ensures
            kv_wf(final(self)@),
            r == old(self)@.contains_key(key@),
            ({
                let e = if now_ms + ttl_ms > u64::MAX {
                    u64::MAX
                } else {
                    (now_ms + ttl_ms) as u64
                };
                if old(self)@.contains_key(key@) {
                    final(self)@ == old(self)@.insert(
                        key@,
                        ObjV { value: old(self)@[key@].value, expire: Some(e) },
                    )
                } else {
                    final(self)@ == old(self)@
                }
            }),
    {
        match kv_get(self, key) {
            Some(obj) => {
                let e = if u64::MAX - now_ms < ttl_ms {
                    u64::MAX
                } else {
                    now_ms + ttl_ms
                };
                let new_obj = Object { value: obj.value, expire: Some(e) };
                let mut key_vec: Vec<u8> = Vec::new();
                crate::frame::append_all(&mut key_vec, key);
                proof {
                    assert(key_vec@ =~= key@);
                }
                kv_insert(self, key_vec, new_obj);
                true
            }
            None => false,
        }
    }

    /// Inserts an already-built object, as the snapshot loader and the
    /// replication stream do.
    pub fn insert_object(&mut self, key: Vec<u8>, obj: Object)
        requires
            kv_wf(old(self)@),
            obj_wf(obj@),
        ensures
            kv_wf(final(self)@),
            final(self)@ == old(self)@.insert(key@, obj@),
    {
        kv_insert(self, key, obj);
    }

    /// Every entry, in an unspecified order, each key exactly once.
    pub fn entries(&self) -> (r: Vec<(Vec<u8>, Object)>)
        ensures
            forall|i: int|
                0 <= i < r@.len() ==> self@.contains_key(#[trigger] r@[i].0@) && r@[i].1@
                    == self@[r@[i].0@],
            forall|k: Seq<u8>| #[trigger]
                self@.contains_key(k) ==> exists|i: int|
                    0 <= i < r@.len() && #[trigger] r@[i].0@ == k,
            forall|i: int, j: int| 0 <= i < j < r@.len() ==> #[trigger] r@[i].0@ != #[trigger] r@[j].0@,
    {
        kv_entries(self)
    }

    /// Sweeps the whole keyspace at `now_ms`, evicting every expired entry:
    /// the periodic expiry reaper.
    pub fn check_expiration(&mut self, now_ms: u64)
        requires
            kv_wf(old(self)@),
        ensures
            kv_wf(final(self)@),
            forall|k: Seq<u8>|
                final(self)@.contains_key(k) <==> (#[trigger] old(self)@.contains_key(k) && live(
                    old(self)@[k],
                    now_ms,
                )),
            forall|k: Seq<u8>| #[trigger]
                final(self)@.contains_key(k) ==> final(self)@[k] == old(self)@[k],
    {
        let entries = kv_entries(self);
        let ghost m0 = self@;
        let mut i: usize = 0;
        while i < entries.len()
            invariant
                i <= entries@.len(),
                kv_wf(self@),
                forall|idx: int|
                    0 <= idx < entries@.len() ==> m0.contains_key(#[trigger] entries@[idx].0@)
                        && entries@[idx].1@ == m0[entries@[idx].0@],
                forall|k: Seq<u8>| #[trigger]
                    m0.contains_key(k) ==> exists|idx: int|
                        0 <= idx < entries@.len() && #[trigger] entries@[idx].0@ == k,
                forall|idx: int, j: int|
                    0 <= idx < j < entries@.len() ==> #[trigger] entries@[idx].0@
                        != #[trigger] entries@[j].0@,
                forall|k: Seq<u8>|
                    self@.contains_key(k) <==> (#[trigger] m0.contains_key(k) && !(exists|idx: int|
                        0 <= idx < i && #[trigger] entries@[idx].0@ == k && !live(m0[k], now_ms))),
                forall|k: Seq<u8>| #[trigger] self@.contains_key(k) ==> self@[k] == m0[k],
            decreases entries@.len() - i,
        {
            let expired = match entries[i].1.expire {
                Some(e) => e < now_ms,
                None => false,
            };
            if expired {
                kv_remove(self, entries[i].0.as_slice());
            }
            i += 1;
        }
        proof {
            assert forall|k: Seq<u8>|
                final(self)@.contains_key(k) <==> (#[trigger] m0.contains_key(k) && live(
                    m0[k],
                    now_ms,
                )) by {
                if m0.contains_key(k) && !live(m0[k], now_ms) {
                    let idx = choose|idx: int|
                        0 <= idx < entries@.len() && #[trigger] entries@[idx].0@ == k;
                    assert(0 <= idx < i && entries@[idx].0@ == k && !live(m0[k], now_ms));
                }
            }
        }
    }
}


/// One mutation of the keyspace, as the command layer performs them: a
/// write with an explicit expiration argument, or a deletion.
pub enum OpV {
    Write(Seq<u8>, Seq<u8>, Option<u64>),
    Remove(Seq<u8>),
}

pub open spec fn op_key(op: OpV) -> Seq<u8> {
    match op {
        OpV::Write(k, _, _) => k,
        OpV::Remove(k) => k,
    }
}

pub open spec fn apply_op(m: Map<Seq<u8>, ObjV>, op: OpV) -> Map<Seq<u8>, ObjV> {
    match op {
        OpV::Write(k, v, e) => spec_set(m, k, v, e),
        OpV::Remove(k) => m.remove(k),
    }
}

pub open spec fn apply_ops(m: Map<Seq<u8>, ObjV>, ops: Seq<OpV>) -> Map<Seq<u8>, ObjV>
    decreases ops.len(),
{
    if ops.len() == 0 {
        m
    } else {
        apply_op(apply_ops(m, ops.drop_last()), ops.last())
    }
}

/// The last operation in `ops` that touches `k`, if any.
pub open spec fn last_touch(ops: Seq<OpV>, k: Seq<u8>) -> Option<OpV>
    decreases ops.len(),
{
    if ops.len() == 0 {
        None
    } else if op_key(ops.last()) == k {
        Some(ops.last())
    } else {
        last_touch(ops.drop_last(), k)
    }
}

/// The history law of the store: after any sequence of writes and deletions
/// with explicit expirations, a read of `k` at time `t` returns `v` exactly
/// when the last operation touching `k` was a write of `v` that either
/// cleared the expiration or set one not yet passed at `t`. A sequence that
/// never touches `k` leaves the read as it was on the initial keyspace.
pub proof fn lemma_store_history(m0: Map<Seq<u8>, ObjV>, ops: Seq<OpV>, k: Seq<u8>, t: u64)
    requires
        forall|i: int|
            0 <= i < ops.len() ==> ((#[trigger] ops[i]) matches OpV::Write(_, _, e) ==> e is Some),
    ensures
        spec_get(apply_ops(m0, ops), k, t) == match last_touch(ops, k) {
            Some(op) => match op {
                OpV::Write(_, v, e) => if e->0 == 0 || e->0 >= t {
                    Some(v)
                } else {
                    None::<Seq<u8>>
                },
                OpV::Remove(_) => None::<Seq<u8>>,
            },
            None => spec_get(m0, k, t),
        },
    decreases ops.len(),
{
    if ops.len() > 0 {
        let prefix = ops.drop_last();
        let m1 = apply_ops(m0, prefix);
        assert(forall|i: int| 0 <= i < prefix.len() ==> prefix[i] == #[trigger] ops[i]);
        match ops.last() {
            OpV::Write(k2, v, e) => {
                assert(ops.last() == ops[ops.len() - 1]);
                assert(e is Some);
                let m2 = spec_set(m1, k2, v, e);
                if k2 == k {
                    lemma_str_codec_roundtrip(v);
                    assert(m2.contains_key(k) && m2[k] == ObjV {
                        value: str_encode_spec(v),
                        expire: new_expire(e, if m1.contains_key(k2) {
                            m1[k2].expire
                        } else {
                            None
                        }),
                    });
                } else {
                    assert(spec_get(m2, k, t) == spec_get(m1, k, t));
                    lemma_store_history(m0, prefix, k, t);
                }
            }
            OpV::Remove(k2) => {
                if k2 == k {
                    assert(!apply_op(m1, ops.last()).contains_key(k));
                } else {
                    assert(spec_get(m1.remove(k2), k, t) == spec_get(m1, k, t));
                    lemma_store_history(m0, prefix, k, t);
                }
            }
        }
    }
}

} // verus!
