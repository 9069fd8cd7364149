//! The Internet checksum of IPv4 and TCP: the one's complement of the one's
//! complement sum of the 16-bit words that it covers.

use vstd::prelude::*;
use crate::addr::Ipv4Address;

verus! {

/// The 16-bit word with high byte `hi` and low byte `lo`.
pub open spec fn word(hi: u8, lo: u8) -> int {
    hi * 256 + lo
}

/// The plain sum of the big-endian 16-bit words of `data`. A trailing odd
/// byte counts as the high byte of a last word whose low byte is zero.
pub open spec fn word_sum(data: Seq<u8>) -> int
    decreases data.len(),
{
    if data.len() == 0 {
        0
    } else if data.len() == 1 {
        word(data[0], 0)
    } else {
        word(data[0], data[1]) + word_sum(data.skip(2))
    }
}

/// End-around carry: what is above 16 bits is added back in, until nothing is.
pub open spec fn fold(sum: int) -> int
    decreases sum,
{
    if sum < 0x1_0000 {
        sum
    } else {
        fold(sum / 0x1_0000 + sum % 0x1_0000)
    }
}

/// The checksum that goes with a plain word sum: the complement of its fold.
pub open spec fn complement(sum: int) -> u16 {
    (0xFFFF - fold(sum)) as u16
}

/// A receiver accepts data whose words, checksum included, fold to all ones.
pub open spec fn verifies(sum: int) -> bool {
    fold(sum) == 0xFFFF
}

/// What the TCP pseudo-header adds to the sum: both addresses, the protocol
/// number and the length of the segment.
pub open spec fn pseudo_header_sum(
    source: Ipv4Address,
    destination: Ipv4Address,
    protocol: int,
    length: int,
) -> int {
    word(source.a, source.b) + word(source.c, source.d) + word(destination.a, destination.b)
        + word(destination.c, destination.d) + protocol + length
}

/// `data` with the two bytes from `at` on replaced by the 16-bit number `w`,
/// high byte first.
pub open spec fn with_word(data: Seq<u8>, at: int, w: u16) -> Seq<u8> {
    data.update(at, (w / 256) as u8).update(at + 1, (w % 256) as u8)
}

/// Folding keeps a sum within 16 bits, keeps it congruent modulo `0xFFFF`,
/// and gives zero for zero alone.
pub proof fn lemma_fold(sum: int)
    requires
        0 <= sum,
    ensures
        0 <= fold(sum) <= 0xFFFF,
        fold(sum) % 0xFFFF == sum % 0xFFFF,
        fold(sum) == 0 <==> sum == 0,
    decreases sum,
{
    if sum >= 0x1_0000 {
        let next: int = sum / 0x1_0000 + sum % 0x1_0000;
        lemma_fold(next);
        assert(sum == 0x1_0000 * (sum / 0x1_0000) + sum % 0x1_0000);
        assert(sum == next + 0xFFFF * (sum / 0x1_0000));
        vstd::arithmetic::div_mod::lemma_mod_multiples_vanish(
            sum / 0x1_0000,
            next,
            0xFFFF,
        );
    }
}

/// A sum completed by its own checksum verifies.
pub proof fn lemma_complement_verifies(sum: int)
    requires
        0 <= sum,
    ensures
        verifies(sum + complement(sum)),
{
    lemma_fold(sum);
    let c: int = 0xFFFF - fold(sum);
    assert(complement(sum) == c);
    let total: int = sum + c;
    lemma_fold(total);
    let q: int = sum / 0xFFFF - fold(sum) / 0xFFFF;
    assert(sum == 0xFFFF * (sum / 0xFFFF) + sum % 0xFFFF);
    assert(fold(sum) == 0xFFFF * (fold(sum) / 0xFFFF) + fold(sum) % 0xFFFF);
    assert(total == 0xFFFF * (q + 1));
    vstd::arithmetic::div_mod::lemma_mod_multiples_basic(q + 1, 0xFFFF);
    assert(total % 0xFFFF == 0);
}

/// Replacing one aligned word of `data` changes the word sum by the
/// difference of the two words.
pub proof fn lemma_word_sum_with_word(data: Seq<u8>, at: int, w: u16)
    requires
        0 <= at,
        at % 2 == 0,
        at + 1 < data.len(),
    ensures
        word_sum(with_word(data, at, w)) + word(data[at], data[at + 1]) == word_sum(data) + w,
    decreases at,
{
    let changed = with_word(data, at, w);
    if at == 0 {
        assert(changed.skip(2) =~= data.skip(2));
        assert(word(changed[0], changed[1]) == w);
    } else {
        assert(changed.skip(2) =~= with_word(data.skip(2), at - 2, w));
        lemma_word_sum_with_word(data.skip(2), at - 2, w);
    }
}

/// Data whose checksum field holds the checksum computed with that field
/// taken as zero verifies. `extra` is what a pseudo-header adds to the sum.
pub proof fn lemma_sealed_verifies(data: Seq<u8>, at: int, extra: int)
    requires
        0 <= at,
        at % 2 == 0,
        at + 1 < data.len(),
        0 <= extra,
    ensures
        verifies(
            extra + word_sum(
                with_word(data, at, complement(extra + word_sum(with_word(data, at, 0)))),
            ),
        ),
{
    let blank = with_word(data, at, 0);
    let sum = extra + word_sum(blank);
    lemma_word_sum_bound(blank);
    lemma_word_sum_with_word(data, at, 0);
    lemma_word_sum_with_word(data, at, complement(sum));
    lemma_complement_verifies(sum);
}

/// A word sum is not negative, and grows by at most `0x8000` for each byte.
pub proof fn lemma_word_sum_bound(data: Seq<u8>)
    ensures
        0 <= word_sum(data) <= data.len() * 0x8000 + 0x8000,
    decreases data.len(),
{
    if data.len() >= 2 {
        lemma_word_sum_bound(data.skip(2));
    }
}

} // verus!
