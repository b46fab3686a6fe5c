//! Decimal representations of unsigned and signed 64-bit integers as byte
//! strings, together with the canonicity predicates the store and the wire
//! codec rely on.

use vstd::prelude::*;

verus! {

pub open spec fn is_digit(b: u8) -> bool {
    48 <= b <= 57
}

/// The canonical decimal representation of a natural number, most significant
/// digit first, with no leading zeros (`0` is represented as `"0"`).
pub open spec fn dec_rep(n: nat) -> Seq<u8>
    decreases n,
{
    if n < 10 {
        seq![(48 + n) as u8]
    } else {
        dec_rep(n / 10).push((48 + n % 10) as u8)
    }
}

/// The numeric value of a digit string (most significant digit first).
pub open spec fn dec_val(s: Seq<u8>) -> nat
    decreases s.len(),
{
    if s.len() == 0 {
        0
    } else {
        (dec_val(s.drop_last()) * 10 + (s.last() - 48)) as nat
    }
}

pub open spec fn all_digits(s: Seq<u8>) -> bool {
    forall|i: int| 0 <= i < s.len() ==> is_digit(#[trigger] s[i])
}

/// A digit string is canonical when it is nonempty and carries no superfluous
/// leading zero.
pub open spec fn is_canonical_dec(s: Seq<u8>) -> bool {
    &&& s.len() > 0
    &&& all_digits(s)
    &&& (s.len() == 1 || s[0] != 48)
}

pub proof fn lemma_dec_rep_props(n: nat)
    ensures
        dec_rep(n).len() >= 1,
        all_digits(dec_rep(n)),
        n >= 10 ==> dec_rep(n).len() >= 2,
        dec_rep(n)[0] == 48 <==> n == 0,
        is_canonical_dec(dec_rep(n)),
    decreases n,
{
    if n >= 10 {
        lemma_dec_rep_props(n / 10);
        assert(dec_rep(n) == dec_rep(n / 10).push((48 + n % 10) as u8));
        assert(dec_rep(n)[0] == dec_rep(n / 10)[0]);
    }
}

pub proof fn lemma_dec_val_rep(n: nat)
    ensures
        dec_val(dec_rep(n)) == n,
    decreases n,
{
    if n < 10 {
        assert(dec_rep(n) == seq![(48 + n) as u8]);
        assert(dec_rep(n).drop_last() =~= Seq::<u8>::empty());
        assert(dec_val(Seq::<u8>::empty()) == 0);
        assert(dec_val(dec_rep(n)) == (0 * 10 + ((48 + n) as u8 - 48)) as nat);
    } else {
        lemma_dec_val_rep(n / 10);
        assert(dec_rep(n).drop_last() == dec_rep(n / 10));
    }
}

/// A canonical digit string is exactly the representation of its value.
pub proof fn lemma_canonical_is_rep(s: Seq<u8>)
    requires
        is_canonical_dec(s),
    ensures
        dec_rep(dec_val(s)) == s,
    decreases s.len(),
{
    if s.len() == 1 {
        assert(s.drop_last() =~= Seq::<u8>::empty());
        assert(dec_val(Seq::<u8>::empty()) == 0);
        assert(dec_val(s) == (0 * 10 + (s.last() - 48)) as nat);
        assert(dec_val(s) == (s[0] - 48) as nat);
        assert(dec_val(s) < 10);
        assert(dec_rep(dec_val(s)) =~= s);
    } else {
        let t = s.drop_last();
        assert(t[0] == s[0]);
        assert(forall|i: int| 0 <= i < t.len() ==> t[i] == #[trigger] s[i]);
        assert(is_canonical_dec(t));
        lemma_canonical_is_rep(t);
        assert(dec_val(t) >= 1) by {
            if dec_val(t) == 0 {
                assert(dec_rep(0) == seq![48u8]);
                assert(t =~= seq![48u8]);
            }
        }
        let v = dec_val(s);
        assert(v == dec_val(t) * 10 + (s.last() - 48));
        assert(v >= 10) by {
            assert(dec_val(t) * 10 >= 1 * 10) by (nonlinear_arith)
                requires dec_val(t) >= 1;
        }
        assert(v / 10 == dec_val(t) && v % 10 == (s.last() - 48) as nat) by (nonlinear_arith)
            requires
                v == dec_val(t) * 10 + (s.last() - 48),
                48 <= s.last() <= 57,
        ;
        assert(dec_rep(v) == dec_rep(dec_val(t)).push(s.last()));
        assert(dec_rep(v) =~= s);
    }
}

/// Appending digits multiplies the leading value by a power of ten; in
/// particular the value of a digit string bounds the value of each prefix.
pub proof fn lemma_dec_val_prefix_le(s: Seq<u8>, i: int)
    requires
        0 <= i <= s.len(),
        all_digits(s),
    ensures
        dec_val(s.take(i)) <= dec_val(s),
    decreases s.len() - i,
{
    if i < s.len() {
        lemma_dec_val_prefix_le(s, i + 1);
        let t = s.take(i + 1);
        assert(t.drop_last() =~= s.take(i));
        assert(t.last() == s[i] && is_digit(s[i]));
        assert(dec_val(t) == (dec_val(s.take(i)) * 10 + (t.last() - 48)) as nat);
        assert(dec_val(s.take(i)) * 10 >= dec_val(s.take(i)) * 1) by (nonlinear_arith);
    } else {
        assert(s.take(i) =~= s);
    }
}

/// The canonical decimal digits of `n`, most significant first.
pub fn u64_to_dec(n: u64) -> (r: Vec<u8>)
    ensures
        r@ == dec_rep(n as nat),
{
    let mut rev: Vec<u8> = Vec::new();
    let mut m: u64 = n;
    loop
        invariant
            if m > 0 || rev@.len() == 0 {
                dec_rep(n as nat) =~= dec_rep(m as nat) + rev@.reverse()
            } else {
                dec_rep(n as nat) =~= rev@.reverse()
            },
        ensures
            rev@.len() > 0,
            dec_rep(n as nat) =~= rev@.reverse(),
        decreases m, (if rev@.len() == 0 { 1int } else { 0int }),
    {
        if m == 0 && rev.len() > 0 {
            break;
        }
        let ghost old_m = m as nat;
        let ghost old_rev = rev@;
        let d: u8 = (m % 10) as u8 + 48;
        rev.push(d);
        m = m / 10;
        proof {
            assert(rev@.reverse() =~= seq![d] + old_rev.reverse());
            if old_m < 10 {
                assert(dec_rep(old_m) == seq![(48 + old_m) as u8]);
                assert(dec_rep(old_m) + old_rev.reverse() =~= rev@.reverse());
            } else {
                assert(dec_rep(old_m) == dec_rep(old_m / 10).push((48 + old_m % 10) as u8));
                assert(dec_rep(old_m) + old_rev.reverse()
                    =~= dec_rep(old_m / 10) + (seq![d] + old_rev.reverse()));
            }
        }
    }
    let mut out: Vec<u8> = Vec::new();
    let mut i: usize = rev.len();
    while i > 0
        invariant
            i <= rev.len(),
            dec_rep(n as nat) =~= rev@.reverse(),
            out@ =~= rev@.subrange(i as int, rev@.len() as int).reverse(),
        decreases i,
    {
        i = i - 1;
        out.push(rev[i]);
        proof {
            assert(out@ =~= rev@.subrange(i as int, rev@.len() as int).reverse());
        }
    }
    proof {
        assert(rev@.subrange(0, rev@.len() as int) =~= rev@);
        assert(out@ =~= dec_rep(n as nat));
    }
    out
}

/// Parses a digit string as an unsigned 64-bit value. Accepts any nonempty
/// all-digit input whose value fits; leading zeros are tolerated here and
/// rejected by the callers that demand canonical input.
pub fn parse_u64(s: &[u8]) -> (r: Option<u64>)
    ensures
        r == if s@.len() > 0 && all_digits(s@) && dec_val(s@) <= u64::MAX {
            Some(dec_val(s@) as u64)
        } else {
            None::<u64>
        },
{
    if s.len() == 0 {
        return None;
    }
    let mut acc: u64 = 0;
    let mut i: usize = 0;
    while i < s.len()
        invariant
            i <= s.len(),
            s@.len() > 0,
            all_digits(s@.take(i as int)),
            acc == dec_val(s@.take(i as int)),
        decreases s.len() - i,
    {
        let b = s[i];
        if b < 48 || b > 57 {
            proof {
                assert(!is_digit(s@[i as int]));
                assert(!all_digits(s@));
            }
            return None;
        }
        let d: u64 = (b - 48) as u64;
        let next = match acc.checked_mul(10) {
            Some(x) => x.checked_add(d),
            None => None,
        };
        proof {
            assert(s@.take(i + 1).drop_last() =~= s@.take(i as int));
            assert(dec_val(s@.take(i + 1)) == acc * 10 + d);
        }
        match next {
            Some(x) => {
                acc = x;
            }
            None => {
                proof {
                    assert(dec_val(s@.take(i + 1)) > u64::MAX);
                    if all_digits(s@) {
                        lemma_dec_val_prefix_le(s@, i + 1);
                    }
                }
                return None;
            }
        }
        i += 1;
    }
    proof {
        assert(s@.take(i as int) =~= s@);
    }
    Some(acc)
}

/// The canonical decimal representation of a signed 64-bit value: a minus
/// sign for negative values, then the magnitude with no leading zeros.
pub open spec fn dec_rep_i64(v: int) -> Seq<u8> {
    if v < 0 {
        seq![45u8] + dec_rep((-v) as nat)
    } else {
        dec_rep(v as nat)
    }
}

/// True exactly of the byte strings that are the canonical decimal form of
/// some signed 64-bit integer. The store uses this to decide whether a value
/// is held as an integer or as raw bytes.
pub open spec fn is_canonical_i64(s: Seq<u8>) -> bool {
    if s.len() > 0 && s[0] == 45 {
        &&& is_canonical_dec(s.skip(1))
        &&& s.skip(1)[0] != 48
        &&& dec_val(s.skip(1)) <= 0x8000_0000_0000_0000
    } else {
        &&& is_canonical_dec(s)
        &&& dec_val(s) <= 0x7fff_ffff_ffff_ffff
    }
}

pub proof fn lemma_dec_rep_i64_canonical(v: int)
    requires
        i64::MIN <= v <= i64::MAX,
    ensures
        is_canonical_i64(dec_rep_i64(v)),
        dec_rep_i64(v).len() >= 1,
{
    if v < 0 {
        lemma_dec_rep_props((-v) as nat);
        lemma_dec_val_rep((-v) as nat);
        assert(dec_rep_i64(v).skip(1) =~= dec_rep((-v) as nat));
    } else {
        lemma_dec_rep_props(v as nat);
        lemma_dec_val_rep(v as nat);
    }
}

/// The value a canonical signed decimal string denotes.
pub open spec fn i64_val(s: Seq<u8>) -> int {
    if s.len() > 0 && s[0] == 45 {
        -(dec_val(s.skip(1)) as int)
    } else {
        dec_val(s) as int
    }
}

pub proof fn lemma_canonical_i64_roundtrip(s: Seq<u8>)
    requires
        is_canonical_i64(s),
    ensures
        i64::MIN <= i64_val(s) <= i64::MAX,
        dec_rep_i64(i64_val(s)) == s,
{
    if s.len() > 0 && s[0] == 45 {
        lemma_canonical_is_rep(s.skip(1));
        assert(dec_val(s.skip(1)) >= 1) by {
            if dec_val(s.skip(1)) == 0 {
                assert(dec_rep(0) == seq![48u8]);
                assert(s.skip(1) =~= seq![48u8]);
            }
        }
        assert(dec_rep_i64(i64_val(s)) =~= s);
    } else {
        lemma_canonical_is_rep(s);
    }
}

pub proof fn lemma_i64_val_of_rep(v: int)
    requires
        i64::MIN <= v <= i64::MAX,
    ensures
        i64_val(dec_rep_i64(v)) == v,
{
    if v < 0 {
        lemma_dec_rep_props((-v) as nat);
        lemma_dec_val_rep((-v) as nat);
        assert(dec_rep_i64(v).skip(1) =~= dec_rep((-v) as nat));
    } else {
        lemma_dec_rep_props(v as nat);
        lemma_dec_val_rep(v as nat);
        assert(dec_rep_i64(v)[0] != 45);
    }
}

/// The canonical decimal digits of a signed value.
pub fn i64_to_dec(v: i64) -> (r: Vec<u8>)
    ensures
        r@ == dec_rep_i64(v as int),
{
    if v >= 0 {
        let r = u64_to_dec(v as u64);
        r
    } else {
        // The magnitude of `i64::MIN` does not fit in an `i64`, so shift by
        // one before negating.
        let mag: u64 = ((-(v + 1)) as u64) + 1;
        proof {
            assert(mag == -(v as int));
        }
        let digits = u64_to_dec(mag);
        let mut out: Vec<u8> = Vec::new();
        out.push(45);
        let mut i: usize = 0;
        while i < digits.len()
            invariant
                i <= digits.len(),
                out@ =~= seq![45u8] + digits@.take(i as int),
            decreases digits.len() - i,
        {
            out.push(digits[i]);
            i += 1;
        }
        proof {
            assert(digits@.take(digits@.len() as int) =~= digits@);
        }
        out
    }
}

/// Parses a byte string that is in canonical signed decimal form; returns
/// `None` on any other input. This is the test the store applies to decide
/// the `Int` encoding.
pub fn parse_i64_canonical(s: &[u8]) -> (r: Option<i64>)
    ensures
        match r {
            Some(v) => is_canonical_i64(s@) && v as int == i64_val(s@),
            None => !is_canonical_i64(s@),
        },
{
    if s.len() == 0 {
        return None;
    }
    if s[0] == 45 {
        let rest = s.len() - 1;
        if rest == 0 {
            proof {
                assert(s@.skip(1).len() == 0);
            }
            return None;
        }
        proof {
            assert(s@.skip(1)[0] == s@[1]);
        }
        if s[1] == 48 {
            return None;
        }
        let mag = parse_digits_canonical_from(s, 1);
        match mag {
            Some(m) => {
                if m > 0x8000_0000_0000_0000u64 {
                    proof {
                        assert(!is_canonical_i64(s@));
                    }
                    None
                } else {
                    let v: i64 = if m == 0x8000_0000_0000_0000u64 {
                        i64::MIN
                    } else {
                        -(m as i64)
                    };
                    proof {
                        assert(v as int == -(m as int));
                    }
                    Some(v)
                }
            }
            None => None,
        }
    } else {
        let mag = parse_digits_canonical_from(s, 0);
        proof {
            assert(s@.skip(0) =~= s@);
        }
        match mag {
            Some(m) => {
                if m > 0x7fff_ffff_ffff_ffffu64 {
                    None
                } else {
                    Some(m as i64)
                }
            }
            None => None,
        }
    }
}

/// Parses `s[from..]` as a canonical (no leading zero) digit string.
fn parse_digits_canonical_from(s: &[u8], from: usize) -> (r: Option<u64>)
    requires
        from < s@.len(),
    ensures
        match r {
            Some(v) => is_canonical_dec(s@.skip(from as int)) && v as nat == dec_val(
                s@.skip(from as int),
            ),
            None => !(is_canonical_dec(s@.skip(from as int)) && dec_val(s@.skip(from as int))
                <= u64::MAX),
        },
{
    let ghost t = s@.skip(from as int);
    if s.len() - from > 1 && s[from] == 48 {
        proof {
            assert(t[0] == 48 && t.len() > 1);
        }
        return None;
    }
    let sub = slice_range(s, from, s.len());
    proof {
        assert(sub@ =~= t);
    }
    parse_u64(sub)
}

/// Borrows the subslice `s[from..to]`.
pub fn slice_range<'a>(s: &'a [u8], from: usize, to: usize) -> (r: &'a [u8])
    requires
        from <= to <= s@.len(),
    ensures
        r@ == s@.subrange(from as int, to as int),
{
    vstd::slice::slice_subrange(s, from, to)
}


pub open spec fn power10(k: nat) -> nat
    decreases k,
{
    if k == 0 {
        1
    } else {
        10 * power10((k - 1) as nat)
    }
}

proof fn lemma_dec_rep_len_bound(n: nat, k: nat)
    requires
        k >= 1,
        n < power10(k),
    ensures
        dec_rep(n).len() <= k,
    decreases k,
{
    if n >= 10 {
        assert(power10(k) == 10 * power10((k - 1) as nat));
        assert(k >= 2) by {
            if k == 1 {
                assert(power10(1) == 10 * power10(0));
            }
        }
        assert(n / 10 < power10((k - 1) as nat)) by (nonlinear_arith)
            requires
                n < 10 * power10((k - 1) as nat),
        ;
        lemma_dec_rep_len_bound(n / 10, (k - 1) as nat);
    }
}

/// The canonical decimal form of a signed 64-bit value takes at most 21
/// bytes, sign included.
pub proof fn lemma_dec_rep_i64_len(v: int)
    requires
        i64::MIN <= v <= i64::MAX,
    ensures
        dec_rep_i64(v).len() <= 21,
{
    let mag: nat = if v < 0 {
        (-v) as nat
    } else {
        v as nat
    };
    assert(power10(20) == 100000000000000000000) by {
        reveal_with_fuel(power10, 21);
    }
    lemma_dec_rep_len_bound(mag, 20);
}
} // verus!
