use crate::varint::{varint_bytes, write_varint, VarInt};
use crate::wire::{le_bytes, write_u64};
use vstd::prelude::*;

verus! {

/// Bit `i` of a bit set stored in 64-bit words, low bit first; bits past the
/// last word are clear.
pub open spec fn bit_is_set(words: Seq<u64>, i: nat) -> bool {
    &&& i / 64 < words.len()
    &&& (words[(i / 64) as int] >> ((i % 64) as u64)) & 1 == 1
}

/// The words grown with zero words until word `li` exists.
pub open spec fn grown(words: Seq<u64>, li: nat) -> Seq<u64> {
    if li < words.len() {
        words
    } else {
        words + Seq::new((li + 1 - words.len()) as nat, |i: int| 0u64)
    }
}

/// The words after toggling bit `idx`.
pub open spec fn toggled(words: Seq<u64>, idx: nat) -> Seq<u64> {
    let w = grown(words, idx / 64);
    w.update((idx / 64) as int, w[(idx / 64) as int] ^ (1u64 << ((idx % 64) as u64)))
}

/// The bytes of a sequence of words on the wire: each word, least
/// significant byte first.
pub open spec fn words_bytes(words: Seq<u64>) -> Seq<u8>
    decreases words.len(),
{
    if words.len() == 0 {
        Seq::empty()
    } else {
        words_bytes(words.drop_last()) + le_bytes(words.last() as nat, 8)
    }
}

/// A light mask: a growable set of bits.
#[derive(Debug, Clone)]
pub struct BitSet {
    pub bits: Vec<u64>,
}

impl BitSet {
    pub fn empty() -> (r: Self)
        ensures
            r.bits@ == Seq::<u64>::empty(),
    {
        Self { bits: Vec::new() }
    }

    /// Zeroed words for `size` bits.
    pub fn with_size(size: usize) -> (r: Self)
        requires
            size + 63 <= usize::MAX,
        ensures
            r.bits@ == Seq::new(((size + 63) / 64) as nat, |i: int| 0u64),
    {
        let n = (size + 63) / 64;
        let mut bits: Vec<u64> = Vec::new();
        while bits.len() < n
            invariant
                bits.len() <= n,
                forall|i: int| 0 <= i < bits.len() ==> bits@[i] == 0u64,
            decreases n - bits.len(),
        {
            bits.push(0);
        }
        assert(bits@ =~= Seq::new(n as nat, |i: int| 0u64));
        Self { bits }
    }

    /// Flips bit `idx`, growing the words first when it lies past them.
    pub fn toggle(&mut self, idx: usize)
        ensures
            final(self).bits@ == toggled(old(self).bits@, idx as nat),
    {
        let long_index = idx / 64;
        let bit_index = idx % 64;
        assert(long_index < usize::MAX);
        if long_index >= self.bits.len() {
            let ghost before = self.bits@;
            while self.bits.len() < long_index + 1
                invariant
                    long_index < usize::MAX,
                    before.len() <= self.bits@.len() <= long_index + 1,
                    self.bits@.subrange(0, before.len() as int) == before,
                    forall|i: int| before.len() <= i < self.bits@.len() ==> self.bits@[i] == 0u64,
                decreases long_index + 1 - self.bits.len(),
            {
                self.bits.push(0);
                assert(self.bits@.subrange(0, before.len() as int) =~= before);
            }
            assert(self.bits@ =~= grown(before, long_index as nat));
        }
        let w = self.bits[long_index];
        self.bits.set(long_index, w ^ (1u64 << bit_index as u64));
    }

    /// Writes the words: their count as a VarInt, then each word, least
    /// significant byte first.
    pub fn write_into(&self, out: &mut Vec<u8>)
        requires
            self.bits@.len() <= i32::MAX,
        ensures
            final(out)@ == old(out)@ + varint_bytes(self.bits@.len()) + words_bytes(self.bits@),
    {
        write_varint(VarInt::new(self.bits.len() as i32), out);
        write_words(&self.bits, out);
    }
}

/// Appends each word, least significant byte first.
pub fn write_words(words: &Vec<u64>, out: &mut Vec<u8>)
    ensures
        final(out)@ == old(out)@ + words_bytes(words@),
{
    let ghost start = out@;
    let mut i: usize = 0;
    assert(words@.take(0) =~= Seq::<u64>::empty());
    while i < words.len()
        invariant
            i <= words@.len(),
            out@ == start + words_bytes(words@.take(i as int)),
        decreases words@.len() - i,
    {
        write_u64(words[i], out);
        i = i + 1;
        assert(words@.take(i as int).drop_last() =~= words@.take(i - 1));
        assert(out@ =~= start + words_bytes(words@.take(i as int)));
    }
    assert(words@.take(words@.len() as int) =~= words@);
}

proof fn lemma_xor_bit(w: u64, b: u64, c: u64)
    requires
        b < 64,
        c < 64,
    ensures
        (((w ^ (1u64 << b)) >> b) & 1 == 1) == !((w >> b) & 1 == 1),
        c != b ==> ((w ^ (1u64 << b)) >> c) & 1 == (w >> c) & 1,
{
    assert((((w ^ (1u64 << b)) >> b) & 1 == 1) == !((w >> b) & 1 == 1)) by (bit_vector)
        requires
            b < 64,
    ;
    assert(c != b ==> ((w ^ (1u64 << b)) >> c) & 1 == (w >> c) & 1) by (bit_vector)
        requires
            b < 64,
            c < 64,
    ;
}

proof fn lemma_zero_bit(c: u64)
    requires
        c < 64,
    ensures
        (0u64 >> c) & 1 == 0,
{
    assert((0u64 >> c) & 1 == 0) by (bit_vector);
}

/// Law: toggling a bit flips that bit and leaves every other bit as it was.
pub proof fn lemma_toggle_flips_one(words: Seq<u64>, idx: nat, j: nat)
    ensures
        bit_is_set(toggled(words, idx), idx) == !bit_is_set(words, idx),
        j != idx ==> bit_is_set(toggled(words, idx), j) == bit_is_set(words, j),
{
    let li = idx / 64;
    let g = grown(words, li);
    let t = toggled(words, idx);
    lemma_xor_bit(g[li as int], (idx % 64) as u64, (j % 64) as u64);
    lemma_zero_bit((idx % 64) as u64);
    lemma_zero_bit((j % 64) as u64);
    if li >= words.len() {
        assert(g[li as int] == 0u64);
    }
    if j != idx && j / 64 < g.len() && j / 64 >= words.len() {
        assert(g[(j / 64) as int] == 0u64);
    }
}

/// Law: toggling the same bit twice gives back every bit as it was.
pub proof fn lemma_toggle_twice(words: Seq<u64>, idx: nat, j: nat)
    ensures
        bit_is_set(toggled(toggled(words, idx), idx), j) == bit_is_set(words, j),
{
    lemma_toggle_flips_one(words, idx, j);
    lemma_toggle_flips_one(toggled(words, idx), idx, j);
}

/// Word `k` of the words, or a zero word past their end.
pub open spec fn word_or_zero(words: Seq<u64>, k: int) -> u64 {
    if 0 <= k < words.len() {
        words[k]
    } else {
        0u64
    }
}

/// The single-bit mask of bit `idx` within its word.
pub open spec fn bit_mask(idx: nat) -> u64 {
    1u64 << ((idx % 64) as u64)
}

proof fn lemma_xor_twice(a: u64, m: u64)
    ensures
        (a ^ m) ^ m == a,
{
    assert((a ^ m) ^ m == a) by (bit_vector);
}

proof fn lemma_xor_swap(a: u64, m: u64, n: u64)
    ensures
        (a ^ m) ^ n == (a ^ n) ^ m,
{
    assert((a ^ m) ^ n == (a ^ n) ^ m) by (bit_vector);
}

/// The words after a toggle, word by word: as many words as were there or as
/// reach the toggled bit, each word as it was (zero past the old end), with
/// the toggled bit's mask flipped in its word.
pub proof fn lemma_toggled_words(words: Seq<u64>, idx: nat, k: int)
    ensures
        toggled(words, idx).len() == if words.len() > idx / 64 {
            words.len()
        } else {
            idx / 64 + 1
        },
        word_or_zero(toggled(words, idx), k) == if k == idx / 64 {
            word_or_zero(words, k) ^ bit_mask(idx)
        } else {
            word_or_zero(words, k)
        },
{
    let li = idx / 64;
    let g = grown(words, li);
    if li >= words.len() {
        assert(g.len() == li + 1);
        if words.len() <= k < g.len() {
            assert(g[k] == 0u64);
        }
    }
}

/// Law: toggling the same bit twice gives back the words, grown with zero
/// words up to the toggled bit's word.
pub proof fn lemma_toggle_twice_words(words: Seq<u64>, idx: nat)
    ensures
        toggled(toggled(words, idx), idx) == grown(words, idx / 64),
{
    let li = idx / 64;
    let t = toggled(words, idx);
    let t2 = toggled(t, idx);
    let g = grown(words, li);
    assert(grown(t, li) == t);
    lemma_xor_twice(g[li as int], bit_mask(idx));
    assert(t2 =~= g);
}

/// Law: two toggles give the same words in either order.
pub proof fn lemma_toggles_commute(words: Seq<u64>, i: nat, j: nat)
    ensures
        toggled(toggled(words, i), j) == toggled(toggled(words, j), i),
{
    let a = toggled(toggled(words, i), j);
    let b = toggled(toggled(words, j), i);
    lemma_toggled_words(words, i, 0);
    lemma_toggled_words(words, j, 0);
    lemma_toggled_words(toggled(words, i), j, 0);
    lemma_toggled_words(toggled(words, j), i, 0);
    assert(a.len() == b.len());
    assert forall|k: int| 0 <= k < a.len() implies a[k] == b[k] by {
        lemma_toggled_words(words, i, k);
        lemma_toggled_words(words, j, k);
        lemma_toggled_words(toggled(words, i), j, k);
        lemma_toggled_words(toggled(words, j), i, k);
        lemma_xor_swap(word_or_zero(words, k), bit_mask(i), bit_mask(j));
        assert(word_or_zero(a, k) == a[k]);
        assert(word_or_zero(b, k) == b[k]);
    }
    assert(a =~= b);
}

} // verus!
