//! How the cells lie in the storage words: one bit for each, from the least
//! significant bit of the first word upwards.

use vstd::arithmetic::div_mod::lemma_fundamental_div_mod;
use vstd::arithmetic::div_mod::lemma_fundamental_div_mod_converse;
use vstd::arithmetic::div_mod::lemma_mod_breakdown;
use vstd::arithmetic::div_mod::lemma_mod_bound;
use vstd::arithmetic::div_mod::lemma_small_mod;
use vstd::arithmetic::power2::lemma2_to64;
use vstd::arithmetic::power2::lemma_pow2_pos;
use vstd::arithmetic::power2::lemma_pow2_unfold;
use vstd::arithmetic::power2::pow2;
use vstd::prelude::*;

verus! {

/// Whether the bit of weight `2^position` is set in `word`.
pub open spec fn word_bit(word: usize, position: nat) -> bool {
    (word as nat / pow2(position)) % 2 == 1
}

/// How many `usize` words it takes to hold `bits` bits.
pub open spec fn words_for(bits: nat) -> nat {
    let width = usize::BITS as nat;
    if bits % width == 0 {
        bits / width
    } else {
        bits / width + 1
    }
}

/// What the storage words look like that hold `bits` from position `offset`
/// of the first word on: just enough words, and the bit with index `i` at
/// position `offset + i`, counted from the least significant bit of the first
/// word upwards.
pub open spec fn packs(words: Seq<usize>, offset: nat, bits: Seq<bool>) -> bool {
    let width = usize::BITS as nat;
    &&& words.len() == words_for(offset + bits.len())
    &&& forall|i: int|
        0 <= i < bits.len() ==> #[trigger] bits[i] == word_bit(
            words[(offset + i) / (width as int)],
            ((offset + i) % (width as int)) as nat,
        )
}

/// Words that hold bits from their first position on have room for each bit
/// and no word to spare: as many places as there are bits, rounded up to
/// whole words, and exactly as many where the bits fill whole words, as 4096
/// bits do.
pub proof fn lemma_words_hold_cells(words: Seq<usize>, cells: Seq<bool>)
    requires
        packs(words, 0, cells),
    ensures
        cells.len() <= words.len() * usize::BITS < cells.len() + usize::BITS,
        cells.len() % (usize::BITS as nat) == 0 ==> words.len() * usize::BITS == cells.len(),
        cells.len() == 4096 ==> words.len() * usize::BITS == 4096,
{
    let width = usize::BITS as int;
    let n = cells.len() as int;
    lemma_fundamental_div_mod(n, width);
    lemma_mod_bound(n, width);
    assert(width * (n / width) == (n / width) * width) by (nonlinear_arith);
    assert((n / width + 1) * width == (n / width) * width + width) by (nonlinear_arith);
    if n == 4096 {
        assert(4096int % 32 == 0 && 4096int % 64 == 0);
    }
}

/// The lowest `k` bits of a word decide its remainder by `2^k`.
proof fn lemma_low_bits(a: usize, b: usize, k: nat)
    requires
        forall|p: nat| p < k ==> word_bit(a, p) == word_bit(b, p),
    ensures
        (a as nat) % pow2(k) == (b as nat) % pow2(k),
    decreases k,
{
    if k == 0 {
        lemma2_to64();
    } else {
        let j = (k - 1) as nat;
        let low = pow2(j) as int;
        lemma_low_bits(a, b, j);
        lemma_pow2_unfold(k);
        lemma_pow2_pos(j);
        lemma_mod_breakdown(a as int, low, 2);
        lemma_mod_breakdown(b as int, low, 2);
        assert(low * 2 == pow2(k));
        assert(word_bit(a, j) == word_bit(b, j));
        assert((a as int / low) % 2 == (b as int / low) % 2);
    }
}

/// A word is decided by its bits.
pub proof fn lemma_word_decided(a: usize, b: usize)
    requires
        forall|p: nat| p < usize::BITS ==> word_bit(a, p) == word_bit(b, p),
    ensures
        a == b,
{
    lemma_low_bits(a, b, usize::BITS as nat);
    lemma2_to64();
    lemma_small_mod(a as nat, pow2(usize::BITS as nat));
    lemma_small_mod(b as nat, pow2(usize::BITS as nat));
}

/// Bits that fill whole words decide the words that hold them: two boards
/// with the same cells are stored in the same words.
pub proof fn lemma_words_decided(first: Seq<usize>, second: Seq<usize>, cells: Seq<bool>)
    requires
        packs(first, 0, cells),
        packs(second, 0, cells),
        cells.len() % (usize::BITS as nat) == 0,
    ensures
        first == second,
{
    let width = usize::BITS as int;
    lemma_words_hold_cells(first, cells);
    assert forall|j: int| 0 <= j < first.len() implies first[j] == second[j] by {
        assert forall|p: nat| p < usize::BITS implies word_bit(first[j], p) == word_bit(
            second[j],
            p,
        ) by {
            let i = j * width + p;
            assert(j * width + width <= first.len() * width) by (nonlinear_arith)
                requires
                    0 <= j < first.len(),
                    width > 0,
            ;
            assert(j * width == width * j) by (nonlinear_arith);
            lemma_fundamental_div_mod_converse(i, width, j, p as int);
            assert(cells[i] == word_bit(first[j], p));
            assert(cells[i] == word_bit(second[j], p));
        }
        lemma_word_decided(first[j], second[j]);
    }
    assert(first =~= second);
}

} // verus!
