//! Bit cursor: extraction of arbitrary-width unsigned fields from a byte
//! slice, most-significant bit first, at any bit offset.

use vstd::arithmetic::power2::*;
use vstd::prelude::*;

verus! {

/// Whether bit `i` of the byte sequence `s` is set, counting bits from the
/// most significant bit of `s[0]` onward (bit 0 is the MSB of the first
/// byte, bit 8 is the MSB of the second byte, and so on).
pub open spec fn bit_at(s: Seq<u8>, i: int) -> bool
    recommends
        0 <= i < 8 * s.len(),
{
    (s[i / 8] >> ((7 - (i % 8)) as u8)) & 1 == 1
}

/// The unsigned value of the `w`-bit field of `s` that starts at bit
/// position `start`, with the most significant bit of the field first.
pub open spec fn field_val(s: Seq<u8>, start: int, w: nat) -> nat
    recommends
        0 <= start,
        start + w <= 8 * s.len(),
    decreases w,
{
    if w == 0 {
        0
    } else {
        2 * field_val(s, start, (w - 1) as nat) + (if bit_at(s, start + w - 1) {
            1nat
        } else {
            0nat
        })
    }
}

/// A `w`-bit field is bounded by `2^w`.
pub proof fn lemma_field_val_bound(s: Seq<u8>, start: int, w: nat)
    ensures
        field_val(s, start, w) < pow2(w),
    decreases w,
{
    if w == 0 {
        lemma_pow2_pos(0);
        assert(pow2(0) == 1) by {
            lemma2_to64();
        }
    } else {
        lemma_field_val_bound(s, start, (w - 1) as nat);
        lemma_pow2_unfold(w);
    }
}

/// A field read from a subrange of `s` equals the field read from `s`
/// itself at the shifted bit position.
pub proof fn lemma_field_val_subrange(s: Seq<u8>, a: int, b: int, start: int, w: nat)
    requires
        0 <= a <= b <= s.len(),
        0 <= start,
        start + w <= 8 * (b - a),
    ensures
        field_val(s.subrange(a, b), start, w) == field_val(s, 8 * a + start, w),
    decreases w,
{
    if w > 0 {
        lemma_field_val_subrange(s, a, b, start, (w - 1) as nat);
        let i = start + w - 1;
        assert(s.subrange(a, b)[i / 8] == s[a + i / 8]);
        assert((8 * a + i) / 8 == a + i / 8);
        assert((8 * a + i) % 8 == i % 8);
        assert(bit_at(s.subrange(a, b), i) == bit_at(s, 8 * a + start + w - 1));
    }
}

/// Consumes the `w`-bit field starting at bit position `start` of `s` and
/// returns its value, or `None` when the input is exhausted before `w`
/// bits are available.
pub fn take_bits(s: &[u8], start: usize, w: usize) -> (r: Option<u64>)
    requires
        w <= 64,
        start + w <= usize::MAX,
    ensures
        match r {
            Some(v) => start + w <= 8 * s@.len() && v == field_val(s@, start as int, w as nat),
            None => start + w > 8 * s@.len(),
        },
{
    let total = start + w;
    let needed = if total % 8 > 0 {
        total / 8 + 1
    } else {
        total / 8
    };
    if needed > s.len() {
        assert(total > 8 * s@.len());
        return None;
    }
    assert(total <= 8 * s@.len());
    let mut acc: u64 = 0;
    let mut i: usize = 0;
    proof {
        lemma2_to64();
    }
    while i < w
        invariant
            i <= w <= 64,
            start + w <= usize::MAX,
            start + w <= 8 * s@.len(),
            acc == field_val(s@, start as int, i as nat),
            acc < pow2(i as nat),
        decreases w - i,
    {
        proof {
            lemma_pow2_unfold((i + 1) as nat);
            lemma_pow2_le((i + 1) as nat, 64);
            lemma2_to64();
            lemma2_to64_rest();
        }
        let pos = start + i;
        let byte = s[pos / 8];
        let shift: u8 = (7 - (pos % 8)) as u8;
        let b: u8 = (byte >> shift) & 1;
        assert((byte >> shift) & 1 == 0 || (byte >> shift) & 1 == 1) by (bit_vector);
        assert((b == 1) == bit_at(s@, pos as int));
        acc = acc * 2 + b as u64;
        i = i + 1;
    }
    Some(acc)
}

/// `pow2` is monotone in its exponent.
proof fn lemma_pow2_le(e1: nat, e2: nat)
    requires
        e1 <= e2,
    ensures
        pow2(e1) <= pow2(e2),
{
    if e1 < e2 {
        lemma_pow2_strictly_increases(e1, e2);
    }
}

} // verus!
