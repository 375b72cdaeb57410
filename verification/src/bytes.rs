//! Little-endian words and single bits.
use vstd::prelude::*;

verus! {

/// The low byte of a word.
pub open spec fn low_byte(n: u16) -> u8 {
    (n % 256) as u8
}

/// The high byte of a word.
pub open spec fn high_byte(n: u16) -> u8 {
    (n / 256) as u8
}

/// A word as it travels on the wire: low byte first.
pub open spec fn le_bytes(n: u16) -> Seq<u8> {
    seq![low_byte(n), high_byte(n)]
}

/// The word whose low byte is `lo` and whose high byte is `hi`.
pub open spec fn word(lo: u8, hi: u8) -> u16 {
    (lo + 256 * hi) as u16
}

/// Splits a word into its bytes, low byte first.
pub fn to_le_bytes(n: u16) -> (bytes: [u8; 2])
    ensures
        bytes@ == le_bytes(n),
{
    [(n % 256) as u8, (n / 256) as u8]
}

/// Joins two bytes, low byte first, into a word.
pub fn from_le_bytes(lo: u8, hi: u8) -> (n: u16)
    ensures
        n == word(lo, hi),
{
    lo as u16 + 256 * (hi as u16)
}

/// Whether bit `i` of a byte is set; bit 0 is the least significant.
pub open spec fn bit_of(n: u8, i: int) -> bool {
    if i == 0 {
        n % 2 == 1
    } else if i == 1 {
        (n / 2) % 2 == 1
    } else if i == 2 {
        (n / 4) % 2 == 1
    } else if i == 3 {
        (n / 8) % 2 == 1
    } else if i == 4 {
        (n / 16) % 2 == 1
    } else if i == 5 {
        (n / 32) % 2 == 1
    } else if i == 6 {
        (n / 64) % 2 == 1
    } else {
        n / 128 == 1
    }
}

/// The eight bits of a byte, least significant first.
pub open spec fn byte_bits(n: u8) -> Seq<bool> {
    Seq::new(8, |i: int| bit_of(n, i))
}

/// The number that a bit at the place of value `weight` adds.
pub open spec fn weighted(bit: bool, weight: int) -> int {
    if bit {
        weight
    } else {
        0
    }
}

/// The byte that eight bits spell, least significant first.
pub open spec fn bits_value(bits: Seq<bool>) -> int {
    weighted(bits[0], 1) + weighted(bits[1], 2) + weighted(bits[2], 4) + weighted(bits[3], 8)
        + weighted(bits[4], 16) + weighted(bits[5], 32) + weighted(bits[6], 64) + weighted(
        bits[7],
        128,
    )
}

/// The bits of a word: those of the low byte, then those of the high byte.
pub open spec fn word_bits(n: u16) -> Seq<bool> {
    byte_bits(low_byte(n)) + byte_bits(high_byte(n))
}

/// The word that sixteen bits spell, with the byte of the first eight bits on top.
pub open spec fn bits_word(bits: Seq<bool>) -> int {
    256 * bits_value(bits.take(8)) + bits_value(bits.skip(8))
}

/// `a / b`, rounded up.
pub open spec fn quotient_up(a: int, b: int) -> int {
    (a + b - 1) / b
}

/// `a / b`, rounded up.
///
/// The sum `a + b - 1` has to fit the machine word.
pub fn div_ceil(a: usize, b: usize) -> (q: usize)
    requires
        b > 0,
        a + b - 1 <= usize::MAX,
    ensures
        q == quotient_up(a as int, b as int),
        q == (a + b - 1) / (b as int),
        q * b >= a,
        forall|smaller: int| 0 <= smaller < q ==> #[trigger] (smaller * b) < a,
{
    let q: usize = (a + (b - 1)) / b;
    proof {
        let sum = a + b - 1;
        vstd::arithmetic::div_mod::lemma_fundamental_div_mod(sum, b as int);
        vstd::arithmetic::div_mod::lemma_mod_bound(sum, b as int);
        vstd::arithmetic::mul::lemma_mul_is_commutative(q as int, b as int);
        assert forall|smaller: int| 0 <= smaller < q implies #[trigger] (smaller * b) < a by {
            assert(smaller * b <= (q - 1) * b) by (nonlinear_arith)
                requires
                    smaller <= q - 1,
                    b > 0,
            ;
            assert((q - 1) * b == q * b - b) by (nonlinear_arith);
        }
    }
    q
}

/// Spreads a byte out into its bits, least significant first.
pub fn u8_to_bits(n: u8) -> (bits: [bool; 8])
    ensures
        bits@ == byte_bits(n),
{
    proof {
        lemma_masks(n);
    }
    let bits: [bool; 8] = [
        n & 0x01 != 0,
        n & 0x02 != 0,
        n & 0x04 != 0,
        n & 0x08 != 0,
        n & 0x10 != 0,
        n & 0x20 != 0,
        n & 0x40 != 0,
        n & 0x80 != 0,
    ];
    assert(bits@ =~= byte_bits(n));
    bits
}

/// Gathers eight bits, least significant first, into a byte.
pub fn bits_to_u8(bits: [bool; 8]) -> (n: u8)
    ensures
        n == bits_value(bits@),
{
    let mut n: u8 = 0;
    if bits[0] {
        n = n + 1;
    }
    if bits[1] {
        n = n + 2;
    }
    if bits[2] {
        n = n + 4;
    }
    if bits[3] {
        n = n + 8;
    }
    if bits[4] {
        n = n + 16;
    }
    if bits[5] {
        n = n + 32;
    }
    if bits[6] {
        n = n + 64;
    }
    if bits[7] {
        n = n + 128;
    }
    n
}

/// Spreads a word out into its bits: those of the low byte, then those of the high byte.
pub fn u16_to_bits(n: u16) -> (bits: [bool; 16])
    ensures
        bits@ == word_bits(n),
        bits@ == byte_bits(low_byte(n)) + byte_bits(high_byte(n)),
{
    let bytes: [u8; 2] = to_le_bytes(n);
    let l: [bool; 8] = u8_to_bits(bytes[0]);
    let h: [bool; 8] = u8_to_bits(bytes[1]);
    let bits: [bool; 16] = [
        l[0], l[1], l[2], l[3], l[4], l[5], l[6], l[7],
        h[0], h[1], h[2], h[3], h[4], h[5], h[6], h[7],
    ];
    assert(bits@ =~= byte_bits(low_byte(n)) + byte_bits(high_byte(n)));
    bits
}

/// Gathers sixteen bits into a word, with the byte of the first eight bits on top.
///
/// This is the byte order in which a word is stored big-endian; see
/// [`law_word_bits_swap_bytes`] for how it relates to [`u16_to_bits`].
pub fn bits_to_u16(bits: [bool; 16]) -> (n: u16)
    ensures
        n == bits_word(bits@),
        n == 256 * bits_value(bits@.take(8)) + bits_value(bits@.skip(8)),
{
    let first: [bool; 8] = [
        bits[0], bits[1], bits[2], bits[3], bits[4], bits[5], bits[6], bits[7],
    ];
    let second: [bool; 8] = [
        bits[8], bits[9], bits[10], bits[11], bits[12], bits[13], bits[14], bits[15],
    ];
    assert(first@ =~= bits@.take(8));
    assert(second@ =~= bits@.skip(8));
    let upper: u8 = bits_to_u8(first);
    let lower: u8 = bits_to_u8(second);
    from_le_bytes(lower, upper)
}

proof fn lemma_masks(n: u8)
    ensures
        (n & 0x01 != 0) == bit_of(n, 0),
        (n & 0x02 != 0) == bit_of(n, 1),
        (n & 0x04 != 0) == bit_of(n, 2),
        (n & 0x08 != 0) == bit_of(n, 3),
        (n & 0x10 != 0) == bit_of(n, 4),
        (n & 0x20 != 0) == bit_of(n, 5),
        (n & 0x40 != 0) == bit_of(n, 6),
        (n & 0x80 != 0) == bit_of(n, 7),
{
    assert((n & 0x01 != 0) == (n % 2 == 1)) by (bit_vector);
    assert((n & 0x02 != 0) == ((n / 2) % 2 == 1)) by (bit_vector);
    assert((n & 0x04 != 0) == ((n / 4) % 2 == 1)) by (bit_vector);
    assert((n & 0x08 != 0) == ((n / 8) % 2 == 1)) by (bit_vector);
    assert((n & 0x10 != 0) == ((n / 16) % 2 == 1)) by (bit_vector);
    assert((n & 0x20 != 0) == ((n / 32) % 2 == 1)) by (bit_vector);
    assert((n & 0x40 != 0) == ((n / 64) % 2 == 1)) by (bit_vector);
    assert((n & 0x80 != 0) == (n / 128 == 1)) by (bit_vector);
}

/// Joining the two bytes of a word gives the word back.
pub proof fn law_le_bytes_round_trip(n: u16)
    ensures
        le_bytes(n).len() == 2,
        word(le_bytes(n)[0], le_bytes(n)[1]) == n,
{
}

/// Splitting a joined word gives the two bytes back.
pub proof fn law_word_round_trip(lo: u8, hi: u8)
    ensures
        le_bytes(word(lo, hi)) == seq![lo, hi],
{
    assert(le_bytes(word(lo, hi)) =~= seq![lo, hi]);
}

/// The bits of a byte spell that byte: spreading out and gathering are inverse.
pub proof fn law_byte_bits_round_trip(n: u8)
    ensures
        bits_value(byte_bits(n)) == n,
{
    let bits = byte_bits(n);
    assert(n == (n % 2) + 2 * ((n / 2) % 2) + 4 * ((n / 4) % 2) + 8 * ((n / 8) % 2) + 16 * ((n / 16)
        % 2) + 32 * ((n / 32) % 2) + 64 * ((n / 64) % 2) + 128 * (n / 128)) by (bit_vector);
    assert(n / 128 <= 1);
    assert(weighted(bits[0], 1) == n % 2);
    assert(weighted(bits[1], 2) == 2 * ((n / 2) % 2));
    assert(weighted(bits[2], 4) == 4 * ((n / 4) % 2));
    assert(weighted(bits[3], 8) == 8 * ((n / 8) % 2));
    assert(weighted(bits[4], 16) == 16 * ((n / 16) % 2));
    assert(weighted(bits[5], 32) == 32 * ((n / 32) % 2));
    assert(weighted(bits[6], 64) == 64 * ((n / 64) % 2));
    assert(weighted(bits[7], 128) == 128 * (n / 128));
}

/// Any eight bits are the bits of the byte that they spell: gathering and spreading out are
/// inverse.
pub proof fn law_bits_value_round_trip(bits: Seq<bool>)
    requires
        bits.len() == 8,
    ensures
        0 <= bits_value(bits) < 256,
        byte_bits(bits_value(bits) as u8) == bits,
{
    assert(byte_bits(bits_value(bits) as u8) =~= bits);
}

/// Spreading a word out and gathering the bits again exchanges the two bytes of the word.
pub proof fn law_word_bits_swap_bytes(n: u16)
    ensures
        ({
            let bits = byte_bits(low_byte(n)) + byte_bits(high_byte(n));
            256 * bits_value(bits.take(8)) + bits_value(bits.skip(8)) == word(
                high_byte(n),
                low_byte(n),
            )
        }),
{
    let bits = byte_bits(low_byte(n)) + byte_bits(high_byte(n));
    assert(bits.take(8) =~= byte_bits(low_byte(n)));
    assert(bits.skip(8) =~= byte_bits(high_byte(n)));
    law_byte_bits_round_trip(low_byte(n));
    law_byte_bits_round_trip(high_byte(n));
}


/// The two bytes of a word, the second of them weighing 256 times as much as the first, add up to the
/// word; and so does joining them.
pub proof fn law_bytes_add_up(n: u16, lo: u8, hi: u8)
    ensures
        le_bytes(n).len() == 2,
        le_bytes(n)[0] + 256 * le_bytes(n)[1] == n,
        word(lo, hi) == lo + 256 * hi,
{
}

/// Bit `i` of a byte is what is left of the byte when it is shifted right by `i` places and only the
/// lowest place is kept.
pub proof fn law_bits_are_places(n: u8, i: u8)
    requires
        i < 8,
    ensures
        byte_bits(n).len() == 8,
        byte_bits(n)[i as int] <==> (n >> i) & 1 == 1,
        bit_of(n, i as int) <==> (n >> i) & 1 == 1,
{
    assert((n >> 0) & 1 == 1 <==> n % 2 == 1) by (bit_vector);
    assert((n >> 1) & 1 == 1 <==> (n / 2) % 2 == 1) by (bit_vector);
    assert((n >> 2) & 1 == 1 <==> (n / 4) % 2 == 1) by (bit_vector);
    assert((n >> 3) & 1 == 1 <==> (n / 8) % 2 == 1) by (bit_vector);
    assert((n >> 4) & 1 == 1 <==> (n / 16) % 2 == 1) by (bit_vector);
    assert((n >> 5) & 1 == 1 <==> (n / 32) % 2 == 1) by (bit_vector);
    assert((n >> 6) & 1 == 1 <==> (n / 64) % 2 == 1) by (bit_vector);
    assert((n >> 7) & 1 == 1 <==> n / 128 == 1) by (bit_vector);
}

/// Bit `i` of a word is what is left of the word when it is shifted right by `i` places and only the
/// lowest place is kept.
pub proof fn law_word_bits_are_places(n: u16, i: u16)
    requires
        i < 16,
    ensures
        word_bits(n).len() == 16,
        word_bits(n)[i as int] <==> (n >> i) & 1 == 1,
{
    let lo = low_byte(n);
    let hi = high_byte(n);
    if i < 8 {
        let k = i as u8;
        law_bits_are_places(lo, k);
        assert(n % 256 == lo);
        assert((lo >> k) & 1 == 1 <==> (n >> i) & 1 == 1) by (bit_vector)
            requires
                i < 8,
                k == i,
                n % 256 == lo,
        ;
    } else {
        let k = (i - 8) as u8;
        law_bits_are_places(hi, k);
        assert((hi >> k) & 1 == 1 <==> (n >> i) & 1 == 1) by (bit_vector)
            requires
                8 <= i < 16,
                k == i - 8,
                n / 256 == hi,
        ;
    }
}

/// Setting one more bit of a byte, bit `i`, adds the `i`-th power of two to the byte that the bits
/// spell; and without any bit the byte is zero.
pub proof fn law_each_bit_has_its_weight(bits: Seq<bool>, i: int)
    requires
        bits.len() == 8,
        0 <= i < 8,
        !bits[i],
    ensures
        bits_value(bits.update(i, true)) == bits_value(bits) + seq![1int, 2, 4, 8, 16, 32, 64, 128][i],
        (forall|j: int| 0 <= j < 8 ==> !bits[j]) ==> bits_value(bits) == 0,
{
    let set = bits.update(i, true);
    assert(forall|j: int| 0 <= j < 8 && j != i ==> set[j] == bits[j]);
    assert(set[i]);
}

/// Setting one more bit of a word, bit `i`, adds the value of its place to the word that the bits
/// spell: the first eight bits are those of the upper byte. Without any bit the word is zero.
pub proof fn law_each_word_bit_has_its_weight(bits: Seq<bool>, i: int)
    requires
        bits.len() == 16,
        0 <= i < 16,
        !bits[i],
    ensures
        bits_word(bits.update(i, true)) == bits_word(bits) + seq![
            256int, 512, 1024, 2048, 4096, 8192, 16384, 32768, 1, 2, 4, 8, 16, 32, 64, 128,
        ][i],
        (forall|j: int| 0 <= j < 16 ==> !bits[j]) ==> bits_word(bits) == 0,
{
    let set = bits.update(i, true);
    if i < 8 {
        assert(set.take(8) =~= bits.take(8).update(i, true));
        assert(set.skip(8) =~= bits.skip(8));
        law_each_bit_has_its_weight(bits.take(8), i);
    } else {
        assert(set.take(8) =~= bits.take(8));
        assert(set.skip(8) =~= bits.skip(8).update(i - 8, true));
        law_each_bit_has_its_weight(bits.skip(8), i - 8);
    }
    if forall|j: int| 0 <= j < 16 ==> !bits[j] {
        assert(forall|j: int| 0 <= j < 8 ==> !bits.take(8)[j]);
        assert(forall|j: int| 0 <= j < 8 ==> !bits.skip(8)[j]);
    }
}

/// Spreading a word out into bits and gathering them exchanges its bytes; doing it twice gives the
/// word back.
pub proof fn law_word_survives_two_exchanges(n: u16)
    ensures
        bits_word(word_bits(n)) == 256 * (n % 256) + n / 256,
        bits_word(word_bits(bits_word(word_bits(n)) as u16)) == n,
{
    let swapped = word(high_byte(n), low_byte(n));
    assert(bits_word(word_bits(n)) == swapped) by {
        law_word_bits_swap_bytes(n);
    }
    assert(low_byte(swapped) == high_byte(n) && high_byte(swapped) == low_byte(n));
    assert(bits_word(word_bits(swapped)) == word(high_byte(swapped), low_byte(swapped))) by {
        law_word_bits_swap_bytes(swapped);
    }
}

/// Rounding up gives the least number of groups of `b` that hold `a`.
pub proof fn law_quotient_up_is_least(a: int, b: int)
    requires
        a >= 0,
        b > 0,
    ensures
        quotient_up(a, b) * b >= a,
        a > 0 ==> (quotient_up(a, b) - 1) * b < a,
        a == 0 ==> quotient_up(a, b) == 0,
{
    let q = quotient_up(a, b);
    vstd::arithmetic::div_mod::lemma_fundamental_div_mod(a + b - 1, b);
    vstd::arithmetic::div_mod::lemma_mod_bound(a + b - 1, b);
    vstd::arithmetic::mul::lemma_mul_is_commutative(q, b);
    assert((q - 1) * b == q * b - b) by (nonlinear_arith);
    if a == 0 {
        vstd::arithmetic::div_mod::lemma_basic_div(b - 1, b);
    }
}

} // verus!
