//! Little-endian fixed-width integers on the wire, with the decode and
//! injectivity facts the canonical encoding and the store codec rest on.

use vstd::prelude::*;

verus! {

/// 256 to the power `k`.
pub open spec fn pow256(k: nat) -> int
    decreases k,
{
    if k == 0 {
        1
    } else {
        256 * pow256((k - 1) as nat)
    }
}

/// The `k` little-endian base-256 digits of `v`.
pub open spec fn le_bytes(v: int, k: nat) -> Seq<u8>
    decreases k,
{
    if k == 0 {
        Seq::empty()
    } else {
        seq![(v % 256) as u8] + le_bytes(v / 256, (k - 1) as nat)
    }
}

/// The value the little-endian digits `b` denote.
pub open spec fn le_val(b: Seq<u8>) -> int
    decreases b.len(),
{
    if b.len() == 0 {
        0
    } else {
        b[0] + 256 * le_val(b.drop_first())
    }
}

/// The eight-byte encoding of a 64-bit value.
pub open spec fn u64_le(v: u64) -> Seq<u8> {
    le_bytes(v as int, 8)
}

pub proof fn lemma_pow256_pos(k: nat)
    ensures
        pow256(k) >= 1,
    decreases k,
{
    if k > 0 {
        lemma_pow256_pos((k - 1) as nat);
    }
}

pub proof fn lemma_le_bytes_len(v: int, k: nat)
    ensures
        le_bytes(v, k).len() == k,
    decreases k,
{
    if k > 0 {
        lemma_le_bytes_len(v / 256, (k - 1) as nat);
    }
}

/// Decoding inverts encoding for values in range.
pub proof fn lemma_le_round(v: int, k: nat)
    requires
        0 <= v < pow256(k),
    ensures
        le_val(le_bytes(v, k)) == v,
    decreases k,
{
    if k > 0 {
        lemma_pow256_pos((k - 1) as nat);
        assert(v / 256 < pow256((k - 1) as nat) && v / 256 >= 0) by (nonlinear_arith)
            requires
                0 <= v < pow256(k),
                pow256(k) == 256 * pow256((k - 1) as nat),
                pow256((k - 1) as nat) >= 1,
        ;
        lemma_le_round(v / 256, (k - 1) as nat);
        lemma_le_bytes_len(v / 256, (k - 1) as nat);
        let b = le_bytes(v, k);
        assert(b.drop_first() =~= le_bytes(v / 256, (k - 1) as nat));
    }
}

/// Equal encodings come from equal values.
pub proof fn lemma_le_injective(v1: int, v2: int, k: nat)
    requires
        0 <= v1 < pow256(k),
        0 <= v2 < pow256(k),
        le_bytes(v1, k) == le_bytes(v2, k),
    ensures
        v1 == v2,
{
    lemma_le_round(v1, k);
    lemma_le_round(v2, k);
}

/// A digit string denotes a value within range.
pub proof fn lemma_le_val_bound(b: Seq<u8>)
    ensures
        0 <= le_val(b) < pow256(b.len()),
    decreases b.len(),
{
    if b.len() == 0 {
    } else {
        lemma_le_val_bound(b.drop_first());
        lemma_pow256_pos((b.len() - 1) as nat);
    }
}

/// Encoding inverts decoding: the digits of a digit string's value are
/// that string again.
pub proof fn lemma_le_encode(b: Seq<u8>)
    ensures
        le_bytes(le_val(b), b.len()) =~= b,
    decreases b.len(),
{
    if b.len() > 0 {
        let rest = b.drop_first();
        lemma_le_val_bound(rest);
        let v = le_val(b);
        assert(v % 256 == b[0] && v / 256 == le_val(rest)) by (nonlinear_arith)
            requires
                v == b[0] + 256 * le_val(rest),
                0 <= b[0] < 256,
                le_val(rest) >= 0,
        ;
        lemma_le_encode(rest);
        assert(le_bytes(v, b.len()).drop_first() =~= le_bytes(v / 256, (b.len() - 1) as nat));
        assert(le_bytes(v, b.len()) =~= b);
    }
}

/// Compares two byte strings.
pub fn eq_bytes(a: &Vec<u8>, b: &Vec<u8>) -> (r: bool)
    ensures
        r <==> a@ == b@,
{
    if a.len() != b.len() {
        return false;
    }
    let mut i: usize = 0;
    while i < a.len()
        invariant
            i <= a@.len(),
            a@.len() == b@.len(),
            forall|t: int| 0 <= t < i ==> a@[t] == b@[t],
        decreases a@.len() - i,
    {
        if a[i] != b[i] {
            return false;
        }
        i = i + 1;
    }
    proof {
        assert(a@ =~= b@);
    }
    true
}

/// Every 64-bit value is below `pow256(8)`.
pub proof fn lemma_u64_in_range(v: u64)
    ensures
        0 <= v < pow256(8),
        le_val(u64_le(v)) == v,
        u64_le(v).len() == 8,
{
    reveal_with_fuel(pow256, 9);
    lemma_le_round(v as int, 8);
    lemma_le_bytes_len(v as int, 8);
}

/// Appends the eight-byte encoding of `v`.
pub fn push_u64_le(out: &mut Vec<u8>, v: u64)
    ensures
        final(out)@ == old(out)@ + u64_le(v),
{
    let ghost start = out@;
    let mut rest: u64 = v;
    let mut i: usize = 0;
    while i < 8
        invariant
            i <= 8,
            out@ + le_bytes(rest as int, (8 - i) as nat) == start + le_bytes(v as int, 8),
        decreases 8 - i,
    {
        let ghost before = out@;
        let ghost rest_before = rest as int;
        out.push((rest % 256) as u8);
        rest = rest / 256;
        proof {
            assert(before + le_bytes(rest_before, (8 - i) as nat) =~= out@ + le_bytes(
                rest_before / 256,
                (8 - (i + 1)) as nat,
            ));
        }
        i = i + 1;
    }
    proof {
        assert(out@ + le_bytes(rest as int, 0) =~= out@);
    }
}

/// Appends all of `b`.
pub fn append_bytes(out: &mut Vec<u8>, b: &Vec<u8>)
    ensures
        final(out)@ == old(out)@ + b@,
{
    let mut i: usize = 0;
    while i < b.len()
        invariant
            i <= b@.len(),
            out@ == old(out)@ + b@.subrange(0, i as int),
        decreases b@.len() - i,
    {
        let ghost before = out@;
        out.push(b[i]);
        proof {
            assert(old(out)@ + b@.subrange(0, i + 1 as int) =~= before.push(b@[i as int]));
        }
        i = i + 1;
    }
    proof {
        assert(old(out)@ + b@.subrange(0, b@.len() as int) =~= old(out)@ + b@);
    }
}

/// Reads the value of the eight bytes at `i`.
pub fn read_u64_le(b: &Vec<u8>, i: usize) -> (r: u64)
    requires
        i + 8 <= b@.len(),
    ensures
        r == le_val(b@.subrange(i as int, i as int + 8)),
{
    let n: usize = b.len();
    let mut val: u64 = 0;
    let mut k: usize = 0;
    proof {
        reveal_with_fuel(pow256, 9);
    }
    while k < 8
        invariant
            k <= 8,
            n == b@.len(),
            i + 8 <= n,
            0 <= val < pow256(k as nat),
            val == le_val(b@.subrange(i + 8 - k, i as int + 8)),
        decreases 8 - k,
    {
        proof {
            reveal_with_fuel(pow256, 9);
        }
        let byte: u8 = b[i + 7 - k];
        val = val * 256 + (byte as u64);
        proof {
            let lo = i + 8 - (k + 1);
            assert(b@.subrange(lo, i as int + 8).drop_first() =~= b@.subrange(
                lo + 1,
                i as int + 8,
            ));
        }
        k = k + 1;
    }
    val
}

} // verus!
