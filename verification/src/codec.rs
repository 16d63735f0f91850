//! Variable-bit-width packed-integer codec.
//!
//! An identifier array with values below `2^w` is stored in 64-bit words.
//! Each word holds `64 / w` identifiers; an identifier's bits are never
//! split across a word boundary, and the unused high bits of every word are
//! zero. A word that cannot take one more whole identifier is flushed and
//! the next identifier starts the next word.

use vstd::arithmetic::div_mod::{
    lemma_div_by_multiple, lemma_div_by_multiple_is_strongly_ordered, lemma_div_is_ordered,
    lemma_div_is_ordered_by_denominator, lemma_fundamental_div_mod,
    lemma_fundamental_div_mod_converse, lemma_mod_division_less_than_divisor,
};
use vstd::arithmetic::mul::lemma_mul_inequality;
use vstd::prelude::*;

verus! {

/// Number of identifiers one 64-bit word holds at bit width `w`.
pub open spec fn per_word(w: u64) -> int {
    64 as int / (w as int)
}

/// Number of words that `n` identifiers need at bit width `w`.
pub open spec fn word_count(n: int, w: u64) -> int {
    (n + per_word(w) - 1) / per_word(w)
}

/// Index of the word that holds identifier `k`.
pub open spec fn slot_of(k: int, w: u64) -> int {
    k / per_word(w)
}

/// Bit offset of identifier `k` inside its word.
pub open spec fn off_of(k: int, w: u64) -> u64 {
    ((k % per_word(w)) * (w as int)) as u64
}

/// The `w` low bits set.
pub open spec fn low_mask(w: u64) -> u64 {
    ((1u64 << w) - 1) as u64
}

/// The `w`-bit field of `word` that starts at bit `off`.
pub open spec fn extract(word: u64, off: u64, w: u64) -> u64 {
    (word >> off) & low_mask(w)
}

/// Number of identifiers stored in word `j` when `n` identifiers are packed
/// at width `w`.
pub open spec fn count_in_word(n: int, j: int, w: u64) -> int {
    if n - j * per_word(w) >= per_word(w) {
        per_word(w)
    } else {
        n - j * per_word(w)
    }
}

/// `words` is the packed form of `ids` at bit width `w`: the word count is
/// exact, each identifier sits whole at its offset, and the unused high
/// bits of every word are zero.
pub open spec fn packed_ok(ids: Seq<u64>, w: u64, words: Seq<u64>) -> bool {
    &&& words.len() == word_count(ids.len() as int, w)
    &&& (forall|k: int|
        0 <= k < ids.len() ==> extract(words[slot_of(k, w)], off_of(k, w), w) == #[trigger] ids[k])
    &&& (forall|j: int|
        #![trigger words[j]]
        0 <= j < words.len() && (w as int) * count_in_word(ids.len() as int, j, w) < 64
            ==> words[j] >> (((w as int) * count_in_word(ids.len() as int, j, w)) as u64) == 0)
}

/// The identifier array of length `n` read back from `words` at width `w`.
pub open spec fn unpack_spec(words: Seq<u64>, w: u64, n: int) -> Seq<u64> {
    Seq::new(n as nat, |k: int| extract(words[slot_of(k, w)], off_of(k, w), w))
}

/// Unpacking inverts packing: reading `n` identifiers back from any packed
/// form of an `n`-identifier array returns that array.
pub proof fn lemma_pack_unpack_round_trip(ids: Seq<u64>, w: u64, words: Seq<u64>)
    requires
        2 <= w <= 32,
        packed_ok(ids, w, words),
    ensures
        unpack_spec(words, w, ids.len() as int) == ids,
{
    assert(unpack_spec(words, w, ids.len() as int) =~= ids);
}

/// Bounds that tie the identifiers-per-word figure to the bit width.
pub proof fn lemma_per_word_bounds(w: u64)
    requires
        2 <= w <= 32,
    ensures
        2 <= per_word(w) <= 32,
        (w as int) * per_word(w) <= 64,
{
    let wi = w as int;
    lemma_div_is_ordered_by_denominator(64, 2, wi);
    lemma_div_is_ordered_by_denominator(64, wi, 32);
    lemma_fundamental_div_mod(64, wi);
}

/// Placing one `w`-bit identifier at bit `off` of an accumulator whose bits
/// at and above `off` are clear: the field reads back exactly, lower fields
/// are untouched, and all bits at and above `off + w` stay clear.
proof fn lemma_place_field(acc: u64, id: u64, w: u64, off: u64)
    by (bit_vector)
    requires
        1 <= w <= 32,
        off + w <= 64,
        acc >> off == 0,
        id < (1u64 << w),
    ensures
        extract(acc | (id << off), off, w) == id,
        off + w < 64 ==> (acc | (id << off)) >> ((off + w) as u64) == 0,
{
}

/// Placing a field at bit `off` leaves every field that ends at or below
/// `off` unchanged.
proof fn lemma_place_field_preserves(acc: u64, id: u64, w: u64, off: u64, off2: u64)
    by (bit_vector)
    requires
        1 <= w <= 32,
        off + w <= 64,
        off2 + w <= off,
        id < (1u64 << w),
    ensures
        extract(acc | (id << off), off2, w) == extract(acc, off2, w),
{
}

/// An extracted field is below `2^w`.
proof fn lemma_extract_bound(word: u64, off: u64, w: u64)
    by (bit_vector)
    requires
        1 <= w <= 32,
        off < 64,
    ensures
        extract(word, off, w) < (1u64 << w),
{
}

/// Shifting zero gives zero.
proof fn lemma_zero_shr(s: u64)
    by (bit_vector)
    requires
        s < 64,
    ensures
        0u64 >> s == 0,
{
}

/// Division and remainder of a value inside one block of size `per`.
proof fn lemma_slot_range(q: int, per: int, k: int)
    requires
        per >= 1,
        q >= 0,
        q * per <= k < q * per + per,
    ensures
        k / per == q,
        k % per == k - q * per,
{
    lemma_fundamental_div_mod_converse(k, per, q, k - q * per);
}

/// How quotient and remainder move when the dividend grows by one.
pub proof fn lemma_div_mod_step(i: int, per: int)
    requires
        per >= 1,
        i >= 0,
    ensures
        i % per == per - 1 ==> (i + 1) % per == 0 && (i + 1) / per == i / per + 1,
        i % per < per - 1 ==> (i + 1) % per == i % per + 1 && (i + 1) / per == i / per,
{
    lemma_fundamental_div_mod(i, per);
    lemma_mod_division_less_than_divisor(i, per);
    let q = i / per;
    let r = i % per;
    if r == per - 1 {
        assert(i + 1 == (q + 1) * per + 0) by (nonlinear_arith)
            requires
                i == per * q + r,
                r == per - 1,
        ;
        lemma_fundamental_div_mod_converse(i + 1, per, q + 1, 0);
    } else {
        assert(i + 1 == q * per + (r + 1)) by (nonlinear_arith)
            requires
                i == per * q + r,
        ;
        lemma_fundamental_div_mod_converse(i + 1, per, q, r + 1);
    }
}

/// The exact word count, split on whether the identifiers fill the last word.
pub proof fn lemma_word_count_split(n: int, w: u64)
    requires
        2 <= w <= 32,
        n >= 0,
    ensures
        n % per_word(w) == 0 ==> word_count(n, w) == n / per_word(w),
        n % per_word(w) != 0 ==> word_count(n, w) == n / per_word(w) + 1,
{
    let per = per_word(w);
    lemma_per_word_bounds(w);
    lemma_fundamental_div_mod(n, per);
    lemma_mod_division_less_than_divisor(n, per);
    let q = n / per;
    let r = n % per;
    if r == 0 {
        assert(n + per - 1 == q * per + (per - 1)) by (nonlinear_arith)
            requires
                n == per * q + r,
                r == 0,
        ;
        lemma_fundamental_div_mod_converse(n + per - 1, per, q, per - 1);
    } else {
        assert(n + per - 1 == (q + 1) * per + (r - 1)) by (nonlinear_arith)
            requires
                n == per * q + r,
        ;
        lemma_fundamental_div_mod_converse(n + per - 1, per, q + 1, r - 1);
    }
}

/// Pack `ids`, all below `2^w`, into 64-bit words at bit width `w`.
pub fn pack(ids: &Vec<u64>, w: u64) -> (r: Vec<u64>)
    requires
        2 <= w <= 32,
        forall|k: int| 0 <= k < ids@.len() ==> #[trigger] ids@[k] < (1u64 << w),
    ensures
        packed_ok(ids@, w, r@),
{
    proof {
        lemma_per_word_bounds(w);
    }
    let n = ids.len();
    let per: usize = (64 / w) as usize;
    let mut words: Vec<u64> = Vec::new();
    let mut acc: u64 = 0;
    proof {
        lemma_zero_shr(0);
        lemma_fundamental_div_mod_converse(0, per as int, 0, 0);
    }
    let mut i: usize = 0;
    while i < n
        invariant
            2 <= w <= 32,
            per as int == per_word(w),
            2 <= per <= 32,
            (w as int) * (per as int) <= 64,
            n == ids@.len(),
            forall|k: int| 0 <= k < n ==> #[trigger] ids@[k] < (1u64 << w),
            i <= n,
            words@.len() == i as int / per as int,
            words@.len() * (per as int) <= i as int,
            forall|k: int|
                0 <= k < words@.len() * (per as int) ==> extract(
                    words@[slot_of(k, w)],
                    off_of(k, w),
                    w,
                ) == #[trigger] ids@[k],
            forall|j: int|
                #![trigger words@[j]]
                0 <= j < words@.len() && (w as int) * (per as int) < 64 ==> words@[j] >> (((
                w as int) * (per as int)) as u64) == 0,
            forall|k: int|
                words@.len() * (per as int) <= k < i ==> extract(acc, off_of(k, w), w)
                    == #[trigger] ids@[k],
            acc >> ((((i as int) % (per as int)) * (w as int)) as u64) == 0,
        decreases n - i,
    {
        let ghost q = words@.len() as int;
        let ghost peri = per as int;
        let ghost wi = w as int;
        let rem = i % per;
        proof {
            lemma_mod_division_less_than_divisor(i as int, peri);
            lemma_mul_inequality(rem as int, peri - 1, wi);
            assert((peri - 1) * wi == peri * wi - wi) by (nonlinear_arith);
            assert(rem as int * wi <= 64 - wi);
        }
        let off: u64 = (rem as u64) * w;
        let v = ids[i];
        proof {
            lemma_fundamental_div_mod(i as int, peri);
            assert(peri * (i as int / peri) == (i as int / peri) * peri) by (nonlinear_arith);
            assert(off_of(i as int, w) == off);
            lemma_place_field(acc, v, w, off);
            assert forall|k: int| q * peri <= k < i implies extract(
                acc | (v << off),
                off_of(k, w),
                w,
            ) == ids@[k] by {
                lemma_slot_range(q, peri, k);
                lemma_mul_inequality((k % peri) + 1, (i as int) % peri, wi);
                assert(((k % peri) + 1) * wi == (k % peri) * wi + wi) by (nonlinear_arith);
                lemma_place_field_preserves(acc, v, w, off, off_of(k, w));
            }
        }
        acc = acc | (v << off);
        i += 1;
        proof {
            lemma_div_mod_step(i as int - 1, peri);
            lemma_mod_division_less_than_divisor(i as int, peri);
            if i as int % peri != 0 {
                assert((((i as int - 1) % peri) + 1) * wi == ((i as int - 1) % peri) * wi + wi)
                    by (nonlinear_arith);
                assert(((i as int) % peri) * wi <= (peri - 1) * wi) by {
                    lemma_mul_inequality((i as int) % peri, peri - 1, wi);
                }
                assert((peri - 1) * wi == peri * wi - wi) by (nonlinear_arith);
                assert(acc >> ((((i as int) % (per as int)) * (w as int)) as u64) == 0);
            }
        }
        if i % per == 0 {
            proof {
                assert((peri - 1) * wi + wi == peri * wi) by (nonlinear_arith);
                assert(wi * peri == peri * wi) by (nonlinear_arith);
                assert(wi * peri < 64 ==> acc >> ((wi * peri) as u64) == 0);
            }
            words.push(acc);
            acc = 0;
            proof {
                lemma_zero_shr(0);
                lemma_fundamental_div_mod(i as int, peri);
                assert(words@.len() == i as int / per as int);
                assert(words@.len() * peri == i as int) by (nonlinear_arith)
                    requires
                        words@.len() == i as int / peri,
                        i as int == peri * (i as int / peri) + (i as int) % peri,
                        (i as int) % peri == 0,
                ;
                assert forall|k: int| 0 <= k < words@.len() * peri implies extract(
                    words@[slot_of(k, w)],
                    off_of(k, w),
                    w,
                ) == ids@[k] by {
                    if k >= q * peri {
                        lemma_slot_range(q, peri, k);
                        assert(words@[slot_of(k, w)] == words@[q]);
                    } else {
                        assert(slot_of(k, w) < q) by {
                            lemma_div_by_multiple_is_strongly_ordered(k, q * peri, q, peri);
                            lemma_div_by_multiple(q, peri);
                        }
                    }
                }
            }
        }
    }
    proof {
        lemma_word_count_split(n as int, w);
        lemma_fundamental_div_mod(n as int, per as int);
        lemma_mod_division_less_than_divisor(n as int, per as int);
    }
    if n % per != 0 {
        proof {
            assert(((n as int) % (per as int)) * (w as int) < 64) by (nonlinear_arith)
                requires
                    0 < (n as int) % (per as int) < per as int,
                    2 <= w <= 32,
                    (w as int) * (per as int) <= 64,
            ;
        }
        words.push(acc);
    }
    proof {
        let peri = per as int;
        let wi = w as int;
        let ni = n as int;
        let q = ni / peri;
        let r = ni % peri;
        assert(peri * q == q * peri) by (nonlinear_arith);
        assert(words@.len() == word_count(ni, w));
        assert forall|k: int| 0 <= k < ni implies extract(
            words@[slot_of(k, w)],
            off_of(k, w),
            w,
        ) == ids@[k] by {
            if k < q * peri {
                assert(slot_of(k, w) < q) by {
                    lemma_div_by_multiple_is_strongly_ordered(k, q * peri, q, peri);
                    lemma_div_by_multiple(q, peri);
                }
            } else {
                lemma_slot_range(q, peri, k);
            }
        }
        assert forall|j: int|
            #![trigger words@[j]]
            0 <= j < words@.len() && wi * count_in_word(ni, j, w) < 64 implies words@[j] >> ((wi
            * count_in_word(ni, j, w)) as u64) == 0 by {
            if j < q {
                assert(ni - j * peri >= peri) by (nonlinear_arith)
                    requires
                        j <= q - 1,
                        peri >= 1,
                        ni >= q * peri >= 0,
                        ni == peri * q + r,
                        r >= 0,
                ;
                assert(count_in_word(ni, j, w) == peri);
            } else {
                assert(j == q && r != 0);
                assert(wi * r == r * wi) by (nonlinear_arith);
                assert(ni - q * peri == r) by (nonlinear_arith)
                    requires
                        ni == peri * q + r,
                ;
                assert(count_in_word(ni, j, w) == r);
            }
        }
    }
    words
}

/// Read `n` identifiers back from `words` at bit width `w`.
pub fn unpack(words: &Vec<u64>, w: u64, n: usize) -> (r: Vec<u64>)
    requires
        2 <= w <= 32,
        words@.len() == word_count(n as int, w),
    ensures
        r@ == unpack_spec(words@, w, n as int),
        r@.len() == n,
        forall|k: int| 0 <= k < n ==> #[trigger] r@[k] < (1u64 << w),
{
    proof {
        lemma_per_word_bounds(w);
    }
    let per: usize = (64 / w) as usize;
    let shifted: u64 = 1u64 << w;
    proof {
        assert(1u64 << w >= 1) by (bit_vector)
            requires
                2 <= w <= 32,
        ;
    }
    let mask: u64 = shifted - 1;
    let mut out: Vec<u64> = Vec::new();
    let mut i: usize = 0;
    while i < n
        invariant
            2 <= w <= 32,
            per as int == per_word(w),
            2 <= per <= 32,
            (w as int) * (per as int) <= 64,
            words@.len() == word_count(n as int, w),
            mask == low_mask(w),
            i <= n,
            out@.len() == i,
            forall|k: int|
                0 <= k < i ==> #[trigger] out@[k] == extract(words@[slot_of(k, w)], off_of(k, w), w)
                    && out@[k] < (1u64 << w),
        decreases n - i,
    {
        let ghost peri = per as int;
        let ghost wi = w as int;
        let slot = i / per;
        proof {
            lemma_word_count_split(n as int, w);
            lemma_div_mod_step(n as int - 1, peri);
            lemma_div_is_ordered(i as int, n as int - 1, peri);
            lemma_mod_division_less_than_divisor(n as int - 1, peri);
            assert(slot < words@.len());
        }
        let rem = i % per;
        proof {
            lemma_mod_division_less_than_divisor(i as int, peri);
            lemma_mul_inequality(rem as int, peri - 1, wi);
            assert((peri - 1) * wi == peri * wi - wi) by (nonlinear_arith);
        }
        let off: u64 = (rem as u64) * w;
        let vword = words[slot];
        let val = (vword >> off) & mask;
        proof {
            assert(val == extract(words@[slot_of(i as int, w)], off_of(i as int, w), w));
            lemma_extract_bound(vword, off, w);
        }
        out.push(val);
        i += 1;
    }
    proof {
        assert(out@ =~= unpack_spec(words@, w, n as int));
    }
    out
}

} // verus!
