//! The Internet checksum: the ones' complement sum of 16-bit words.

use vstd::prelude::*;
use crate::wire;

verus! {

/// Sums are kept in 32 bits.
pub const SUM_MODULUS: u64 = 0x1_0000_0000;

/// The sum of the big-endian 16-bit words of `s`. An odd final byte counts as the
/// high half of a word.
pub open spec fn word_sum(s: Seq<u8>) -> nat
    decreases s.len(),
{
    if s.len() == 0 {
        0
    } else if s.len() % 2 == 1 {
        word_sum(s.drop_last()) + s.last() as nat * 256
    } else {
        word_sum(s.take(s.len() - 2)) + wire::be16_at(s, s.len() - 2) as nat
    }
}

/// The ones' complement reduction of a sum to 16 bits: zero for zero, else the
/// representative in `1..=65535` modulo 65535.
pub open spec fn fold(sum: nat) -> nat {
    if sum == 0 {
        0
    } else {
        ((sum - 1) % 65535 + 1) as nat
    }
}

/// The checksum field value for a sum: the complement of its reduction.
pub open spec fn complement(sum: nat) -> nat {
    (65535 - fold(sum)) as nat
}

/// A sum that covers its own checksum field is valid when it reduces to all ones.
pub open spec fn sum_is_valid(sum: nat) -> bool {
    fold(sum) == 65535
}

/// Adds the words of `bytes` to a running 32-bit sum.
pub fn add_bytes(sum: u32, bytes: &[u8]) -> (r: u32)
    ensures
        r == (sum + word_sum(bytes@)) % SUM_MODULUS as int,
{
    let mut acc: u32 = sum;
    let n: usize = bytes.len();
    let mut i: usize = 0;
    assert(bytes@.take(0) =~= Seq::<u8>::empty());
    while n - i >= 2
        invariant
            n == bytes@.len(),
            i <= n,
            i % 2 == 0,
            acc == (sum + word_sum(bytes@.take(i as int))) % SUM_MODULUS as int,
        decreases n - i,
    {
        let w: u32 = (bytes[i] as u32) * 256 + bytes[i + 1] as u32;
        acc = acc.wrapping_add(w);
        proof {
            let t = bytes@.take(i + 2);
            assert(t.take(t.len() - 2) =~= bytes@.take(i as int));
            assert(wire::be16_at(t, t.len() - 2) == w);
        }
        i += 2;
    }
    if n - i == 1 {
        let w: u32 = (bytes[i] as u32) * 256;
        acc = acc.wrapping_add(w);
        assert(bytes@.drop_last() =~= bytes@.take(i as int));
    } else {
        assert(bytes@.take(i as int) =~= bytes@);
    }
    acc
}

/// Moving the carries of a sum into its low word does not change its reduction.
proof fn lemma_fold_step(sum: nat)
    ensures
        fold((sum % 65536 + sum / 65536) as nat) == fold(sum),
{
    let q = (sum / 65536) as int;
    let r = (sum % 65536) as int;
    if sum > 0 {
        assert(sum - 1 == 65535 * q + (r + q - 1));
        vstd::arithmetic::div_mod::lemma_mod_multiples_vanish(q, r + q - 1, 65535);
    }
}

/// Reduces a 32-bit sum to 16 bits.
pub fn fold_checksum(sum: u32) -> (r: u16)
    ensures
        r == fold(sum as nat),
{
    let mut s: u32 = sum;
    while (s >> 16) != 0
        invariant
            fold(s as nat) == fold(sum as nat),
        decreases s,
    {
        assert(s >> 16 == s / 65536) by (bit_vector);
        assert(s & 0xffff == s % 65536) by (bit_vector);
        proof {
            lemma_fold_step(s as nat);
        }
        s = (s & 0xffff) + (s >> 16);
    }
    assert(s >> 16 == s / 65536) by (bit_vector);
    s as u16
}

/// The complement of the reduced sum, as stored in a checksum field.
pub fn finalize_checksum(sum: u32) -> (r: u16)
    ensures
        r == complement(sum as nat),
{
    let folded: u16 = fold_checksum(sum);
    assert(!folded == 65535 - folded) by (bit_vector);
    !folded
}

/// Appending after an even number of bytes adds the sums.
pub proof fn lemma_word_sum_concat(a: Seq<u8>, b: Seq<u8>)
    requires
        a.len() % 2 == 0,
    ensures
        word_sum(a + b) == word_sum(a) + word_sum(b),
    decreases b.len(),
{
    let s = a + b;
    if b.len() == 0 {
        assert(s =~= a);
    } else if b.len() % 2 == 1 {
        assert(s.drop_last() =~= a + b.drop_last());
        lemma_word_sum_concat(a, b.drop_last());
    } else {
        assert(s.take(s.len() - 2) =~= a + b.take(b.len() - 2));
        lemma_word_sum_concat(a, b.take(b.len() - 2));
        assert(wire::be16_at(s, s.len() - 2) == wire::be16_at(b, b.len() - 2));
    }
}

/// A sum of `n` bytes takes at most 65535 for each begun word.
pub proof fn lemma_word_sum_bound(s: Seq<u8>)
    ensures
        word_sum(s) <= 65535 * ((s.len() + 1) / 2),
    decreases s.len(),
{
    if s.len() == 0 {
    } else if s.len() % 2 == 1 {
        lemma_word_sum_bound(s.drop_last());
    } else {
        lemma_word_sum_bound(s.take(s.len() - 2));
    }
}

/// Replacing one aligned word changes the sum by the difference of the words.
pub proof fn lemma_word_sum_put(s: Seq<u8>, i: int, v: u16)
    requires
        0 <= i,
        i % 2 == 0,
        i + 2 <= s.len(),
    ensures
        word_sum(wire::put_be16(s, i, v)) + wire::be16_at(s, i) == word_sum(s) + v,
{
    let t = wire::put_be16(s, i, v);
    let pre = s.take(i);
    let post = s.skip(i + 2);
    let ws = s.subrange(i, i + 2);
    let wt = t.subrange(i, i + 2);
    assert(s =~= pre + (ws + post));
    assert(t =~= pre + (wt + post));
    lemma_word_sum_concat(pre, ws + post);
    lemma_word_sum_concat(pre, wt + post);
    lemma_word_sum_concat(ws, post);
    lemma_word_sum_concat(wt, post);
    reveal_with_fuel(word_sum, 2);
    assert(ws.take(0) =~= Seq::<u8>::empty());
    assert(wt.take(0) =~= Seq::<u8>::empty());
    assert(wire::be16_at(ws, 0) == wire::be16_at(s, i));
    assert(wire::be16_at(wt, 0) == v);
    assert(word_sum(ws) == wire::be16_at(s, i));
    assert(word_sum(wt) == v);
}

/// A sum is at least its first word.
pub proof fn lemma_word_sum_first(s: Seq<u8>)
    requires
        s.len() >= 2,
    ensures
        word_sum(s) >= wire::be16_at(s, 0),
{
    let head = s.take(2);
    assert(s =~= head + s.skip(2));
    lemma_word_sum_concat(head, s.skip(2));
    reveal_with_fuel(word_sum, 2);
    assert(head.take(0) =~= Seq::<u8>::empty());
    assert(word_sum(head) == wire::be16_at(head, 0));
}

/// A sum taken with its checksum field at zero becomes valid once the complement
/// is written into that field, unless the sum was zero to begin with.
pub proof fn law_complement_validates(sum: nat)
    requires
        sum > 0,
    ensures
        sum_is_valid(sum + complement(sum)),
{
    let f = fold(sum) as int;
    let q = (sum - 1) / 65535;
    assert(sum - 1 == 65535 * q + (f - 1));
    assert(sum + complement(sum) - 1 == 65535 * q + 65534);
    vstd::arithmetic::div_mod::lemma_mod_multiples_vanish(q, 65534, 65535);
}

/// The words of a sum: two bytes weigh as a big-endian number, an odd one as its upper half, and
/// what follows an even number of bytes adds up.
pub proof fn law_words_add_up(a: Seq<u8>, b: Seq<u8>, x: u8, y: u8)
    requires
        a.len() % 2 == 0,
    ensures
        word_sum(Seq::empty()) == 0,
        word_sum(seq![x]) == x * 256,
        word_sum(seq![x, y]) == x * 256 + y,
        word_sum(a + b) == word_sum(a) + word_sum(b),
{
    lemma_word_sum_concat(a, b);
    reveal_with_fuel(word_sum, 2);
    assert(seq![x].drop_last() =~= Seq::<u8>::empty());
    assert(seq![x, y].take(0) =~= Seq::<u8>::empty());
    assert(wire::be16_at(seq![x, y], 0) == x * 256 + y);
}

/// A reduced sum fits a word, is the sum modulo 65535, and is zero only for zero; a field holds
/// its complement.
pub proof fn law_fold_reduces(sum: nat)
    ensures
        fold(sum) <= 65535,
        fold(sum) % 65535 == sum % 65535,
        fold(sum) == 0 <==> sum == 0,
        fold(sum) + complement(sum) == 65535,
{
}

} // verus!
