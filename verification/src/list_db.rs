//! The list keyspace: keys mapped to lists of byte strings, with the same
//! lazy expiry discipline as the string keyspace. Held as an association
//! list with unique keys.

use vstd::prelude::*;
use crate::frame::clone_bytes;

verus! {

/// A stored list value and its optional absolute expiration.
pub struct ListObj {
    pub value: Vec<Vec<u8>>,
    pub expire_at: Option<u64>,
}

/// The shape of a stored list.
pub struct ListObjV {
    pub value: Seq<Seq<u8>>,
    pub expire_at: Option<u64>,
}

impl View for ListObj {
    type V = ListObjV;

    open spec fn view(&self) -> ListObjV {
        ListObjV { value: crate::cmd::vecs_view(self.value@), expire_at: self.expire_at }
    }
}

impl ListObj {
    pub fn new(value: Vec<Vec<u8>>, expire_at: Option<u64>) -> (r: ListObj)
        ensures
            r@.value == crate::cmd::vecs_view(value@),
            r@.expire_at == expire_at,
    {
        ListObj { value, expire_at }
    }

    /// A copy of the stored list.
    pub fn value(&self) -> (r: Vec<Vec<u8>>)
        ensures
            crate::cmd::vecs_view(r@) == self@.value,
    {
        let mut out: Vec<Vec<u8>> = Vec::new();
        let mut i: usize = 0;
        while i < self.value.len()
            invariant
                i <= self.value@.len(),
                crate::cmd::vecs_view(out@).len() == i,
                forall|j: int|
                    0 <= j < i ==> #[trigger] crate::cmd::vecs_view(out@)[j]
                        == crate::cmd::vecs_view(self.value@)[j],
            decreases self.value@.len() - i,
        {
            let ghost prev = out@;
            out.push(clone_bytes(&self.value[i]));
            proof {
                assert(out@.drop_last() =~= prev);
                crate::cmd::lemma_vecs_view(out@);
                crate::cmd::lemma_vecs_view(self.value@);
            }
            i += 1;
        }
        proof {
            crate::cmd::lemma_vecs_view(self.value@);
            assert(crate::cmd::vecs_view(out@) =~= crate::cmd::vecs_view(self.value@));
        }
        out
    }

    pub fn set_value(&mut self, value: Vec<Vec<u8>>)
        ensures
            final(self)@.value == crate::cmd::vecs_view(value@),
            final(self)@.expire_at == old(self)@.expire_at,
    {
        self.value = value;
    }
}

/// The first entry for a key, searched front to back.
pub open spec fn assoc_get(s: Seq<(Vec<u8>, ListObj)>, k: Seq<u8>) -> Option<ListObjV>
    decreases s.len(),
{
    if s.len() == 0 {
        None
    } else if s[0].0@ == k {
        Some(s[0].1@)
    } else {
        assoc_get(s.drop_first(), k)
    }
}

/// The entries with the first match for a key taken out.
pub open spec fn assoc_remove(s: Seq<(Vec<u8>, ListObj)>, k: Seq<u8>) -> Seq<(Vec<u8>, ListObj)>
    decreases s.len(),
{
    if s.len() == 0 {
        s
    } else if s[0].0@ == k {
        s.drop_first()
    } else {
        seq![s[0]] + assoc_remove(s.drop_first(), k)
    }
}

/// Whether a stored list is live at `now`.
pub open spec fn lobj_live(o: ListObjV, now: u64) -> bool {
    match o.expire_at {
        Some(e) => e >= now,
        None => true,
    }
}

/// The list keyspace.
pub struct ListDb {
    pub entries: Vec<(Vec<u8>, ListObj)>,
}

impl View for ListDb {
    type V = Seq<(Vec<u8>, ListObj)>;

    open spec fn view(&self) -> Seq<(Vec<u8>, ListObj)> {
        self.entries@
    }
}

impl ListDb {
    pub fn new() -> (r: ListDb)
        ensures
            r@.len() == 0,
    {
        ListDb { entries: Vec::new() }
    }

    /// The position of the first entry for `key`.
    fn find(&self, key: &[u8]) -> (r: Option<usize>)
        ensures
            match r {
                Some(i) => i < self@.len() && self@[i as int].0@ == key@ && assoc_get(
                    self@,
                    key@,
                ) == Some(self@[i as int].1@) && forall|j: int|
                    0 <= j < i ==> (#[trigger] self@[j]).0@ != key@,
                None => assoc_get(self@, key@) is None,
            },
    {
        let mut i: usize = 0;
        proof {
            assert(self@.skip(0) =~= self@);
        }
        while i < self.entries.len()
            invariant
                i <= self@.len(),
                assoc_get(self@, key@) == assoc_get(self@.skip(i as int), key@),
                forall|j: int| 0 <= j < i ==> (#[trigger] self@[j]).0@ != key@,
            decreases self@.len() - i,
        {
            proof {
                assert(self@.skip(i as int)[0] == self@[i as int]);
                assert(self@.skip(i as int).drop_first() =~= self@.skip(i + 1));
            }
            if crate::bytes_eq(self.entries[i].0.as_slice(), key) {
                return Some(i);
            }
            i += 1;
        }
        None
    }

    /// Removes the first entry for `key`, if one is there.
    fn remove_entry(&mut self, key: &[u8])
        ensures
            final(self)@ == assoc_remove(old(self)@, key@),
    {
        let found = self.find(key);
        match found {
            Some(i) => {
                self.entries.remove(i);
                proof {
                    lemma_assoc_remove_at(old(self)@, key@, i as int);
                    assert(self@ =~= assoc_remove(old(self)@, key@));
                }
            }
            None => {
                proof {
                    lemma_assoc_remove_absent(old(self)@, key@);
                }
            }
        }
    }

    /// Reads `key` at `now_ms`, evicting it first if it has expired.
    pub fn get(&mut self, key: &[u8], now_ms: u64) -> (r: Option<Vec<Vec<u8>>>)
        ensures
            match assoc_get(old(self)@, key@) {
                Some(o) => if lobj_live(o, now_ms) {
                    final(self)@ == old(self)@ && (r matches Some(v) && crate::cmd::vecs_view(v@)
                        == o.value)
                } else {
                    final(self)@ == assoc_remove(old(self)@, key@) && r is None
                },
                None => final(self)@ == old(self)@ && r is None,
            },
    {
        let found = self.find(key);
        match found {
            Some(i) => {
                let expired = match self.entries[i].1.expire_at {
                    Some(e) => e < now_ms,
                    None => false,
                };
                if expired {
                    self.remove_entry(key);
                    None
                } else {
                    Some(self.entries[i].1.value())
                }
            }
            None => None,
        }
    }

    /// Writes `key`: the entry afterwards stands at the front with the new
    /// value, the expiration argument resolved (zero clears, absent keeps),
    /// and every other entry is as it was.
    pub fn set(&mut self, key: &[u8], value: Vec<Vec<u8>>, expire_ms: Option<u64>, now_ms: u64)
        ensures
            final(self)@.len() == assoc_remove(old(self)@, key@).len() + 1,
            final(self)@[0].0@ == key@,
            final(self)@[0].1@.value == crate::cmd::vecs_view(value@),
            final(self)@[0].1@.expire_at == ({
                let prior = match assoc_get(old(self)@, key@) {
                    Some(o) => o.expire_at,
                    None => None,
                };
                match expire_ms {
                    Some(e) => if e == 0 {
                        None
                    } else {
                        Some(
                            if u64::MAX - now_ms < e {
                                u64::MAX
                            } else {
                                (now_ms + e) as u64
                            },
                        )
                    },
                    None => prior,
                }
            }),
            final(self)@.skip(1) == assoc_remove(old(self)@, key@),
    {
        let found = self.find(key);
        let prior: Option<u64> = match found {
            Some(i) => self.entries[i].1.expire_at,
            None => None,
        };
        let eff: Option<u64> = match expire_ms {
            Some(e) => if e == 0 {
                None
            } else {
                Some(if u64::MAX - now_ms < e {
                    u64::MAX
                } else {
                    now_ms + e
                })
            },
            None => prior,
        };
        self.remove_entry(key);
        let mut key_vec: Vec<u8> = Vec::new();
        crate::frame::append_all(&mut key_vec, key);
        self.entries.insert(0, (key_vec, ListObj::new(value, eff)));
        proof {
            assert(self@[0].0@ =~= key@);
            assert(self@.skip(1) =~= assoc_remove(old(self)@, key@));
        }
    }

    /// Removes `key` unconditionally.
    pub fn del(&mut self, key: &[u8])
        ensures
            final(self)@ == assoc_remove(old(self)@, key@),
    {
        self.remove_entry(key);
    }

    /// True exactly when `key` is present and live; evicts it otherwise.
    pub fn check_exist(&mut self, key: &[u8], now_ms: u64) -> (r: bool)
        ensures
            match assoc_get(old(self)@, key@) {
                Some(o) => r == lobj_live(o, now_ms) && (if lobj_live(o, now_ms) {
                    final(self)@ == old(self)@
                } else {
                    final(self)@ == assoc_remove(old(self)@, key@)
                }),
                None => !r && final(self)@ == old(self)@,
            },
    {
        let found = self.find(key);
        match found {
            Some(i) => {
                let expired = match self.entries[i].1.expire_at {
                    Some(e) => e < now_ms,
                    None => false,
                };
                if expired {
                    self.remove_entry(key);
                    false
                } else {
                    true
                }
            }
            None => false,
        }
    }

    /// Remaining time to live at `now_ms`: zero for a persistent key,
    /// nothing for an absent or expired one.
    pub fn get_ttl(&mut self, key: &[u8], now_ms: u64) -> (r: Option<u64>)
        ensures
            match assoc_get(old(self)@, key@) {
                Some(o) => if lobj_live(o, now_ms) {
                    final(self)@ == old(self)@ && r == Some(
                        match o.expire_at {
                            Some(e) => (e - now_ms) as u64,
                            None => 0u64,
                        },
                    )
                } else {
                    final(self)@ == assoc_remove(old(self)@, key@) && r is None
                },
                None => final(self)@ == old(self)@ && r is None,
            },
    {
        let found = self.find(key);
        match found {
            Some(i) => {
                match self.entries[i].1.expire_at {
                    Some(e) => {
                        if e < now_ms {
                            self.remove_entry(key);
                            None
                        } else {
                            Some(e - now_ms)
                        }
                    }
                    None => Some(0),
                }
            }
            None => None,
        }
    }
}

/// Removing by key where the first match stands at `i` removes exactly that
/// position.
proof fn lemma_assoc_remove_at(s: Seq<(Vec<u8>, ListObj)>, k: Seq<u8>, i: int)
    requires
        0 <= i < s.len(),
        s[i].0@ == k,
        forall|j: int| 0 <= j < i ==> (#[trigger] s[j]).0@ != k,
    ensures
        assoc_remove(s, k) == s.subrange(0, i) + s.subrange(i + 1, s.len() as int),
    decreases i,
{
    if i == 0 {
        assert(assoc_remove(s, k) == s.drop_first());
        assert(s.drop_first() =~= s.subrange(0, 0) + s.subrange(1, s.len() as int));
    } else {
        assert(s[0].0@ != k);
        assert(forall|j: int| 0 <= j < i - 1 ==> (#[trigger] s.drop_first()[j]).0@ != k);
        assert(s.drop_first()[i - 1] == s[i]);
        lemma_assoc_remove_at(s.drop_first(), k, i - 1);
        assert(seq![s[0]] + (s.drop_first().subrange(0, i - 1) + s.drop_first().subrange(
            i,
            s.len() - 1,
        )) =~= s.subrange(0, i) + s.subrange(i + 1, s.len() as int));
    }
}

/// Removing an absent key changes nothing.
proof fn lemma_assoc_remove_absent(s: Seq<(Vec<u8>, ListObj)>, k: Seq<u8>)
    requires
        assoc_get(s, k) is None,
    ensures
        assoc_remove(s, k) == s,
    decreases s.len(),
{
    if s.len() > 0 {
        assert(s[0].0@ != k);
        lemma_assoc_remove_absent(s.drop_first(), k);
        assert(seq![s[0]] + s.drop_first() =~= s);
    }
}

} // verus!
