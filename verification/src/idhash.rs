//! Derivation of a synthetic integer id from a native key string: a
//! 31-multiplier polynomial hash of the characters, wrapped at 64 bits,
//! range-reduced into positive 32-bit space.
//!
//! Distinct keys can collide. The repository never lets a collision merge
//! two records silently: a save or a scan that would put two live keys
//! behind one id reports a storage fault instead, with nothing changed.

use vstd::prelude::*;

verus! {

/// One hash step: multiply by 31 and add the character, wrapping at 64 bits.
pub open spec fn hash_step(h: u64, c: char) -> u64 {
    vstd::wrapping::u64_specs::wrapping_add(
        vstd::wrapping::u64_specs::wrapping_mul(h, 31),
        (c as u32) as u64,
    )
}

/// Polynomial hash of a character sequence, left to right, starting at zero.
pub open spec fn key_hash(s: Seq<char>) -> u64
    decreases s.len(),
{
    if s.len() == 0 {
        0u64
    } else {
        hash_step(key_hash(s.drop_last()), s.last())
    }
}

/// The synthetic id of a native key: its hash reduced into `1..=i32::MAX - 1`,
/// so the id is always strictly positive and fits a 32-bit integer.
pub open spec fn synthetic_id_of(key: Seq<char>) -> i32 {
    ((key_hash(key) % 2147483646u64) + 1) as i32
}

/// The synthetic id is always in `1..=i32::MAX - 1`.
pub proof fn lemma_synthetic_id_range(key: Seq<char>)
    ensures
        1 <= synthetic_id_of(key) <= 2147483646,
{
}

/// Compute the polynomial hash of a string's characters.
fn compute_key_hash(s: &str) -> (r: u64)
    ensures
        r == key_hash(s@),
{
    let n: usize = s.unicode_len();
    let mut h: u64 = 0;
    let mut i: usize = 0;
    proof {
        assert(s@.take(0) =~= Seq::<char>::empty());
    }
    while i < n
        invariant
            0 <= i <= n,
            n == s@.len(),
            h == key_hash(s@.take(i as int)),
        decreases n - i,
    {
        let c = s.get_char(i);
        let cu: u32 = c as u32;
        h = h.wrapping_mul(31).wrapping_add(cu as u64);
        proof {
            let t = s@.take(i + 1);
            assert(t.drop_last() =~= s@.take(i as int));
            assert(t.last() == s@[i as int]);
        }
        i = i + 1;
    }
    proof {
        assert(s@.take(n as int) =~= s@);
    }
    h
}

/// Derive the synthetic integer id for a native key string.
pub fn synthetic_id(key: &str) -> (r: i32)
    ensures
        r == synthetic_id_of(key@),
        1 <= r <= 2147483646,
{
    let h = compute_key_hash(key);
    let m: u64 = h % 2147483646u64;
    (m + 1) as i32
}

} // verus!
