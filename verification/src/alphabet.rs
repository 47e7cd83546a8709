//! The alphabet that identifiers are drawn from, and the mask that turns a
//! random byte into a candidate index.

use vstd::arithmetic::power2::{lemma2_to64, lemma_pow2_strictly_increases, pow2};
use vstd::prelude::*;
use vstd::std_specs::bits::{axiom_u32_leading_zeros, u32_leading_zeros};

verus! {

/// Number of symbols in the alphabet.
pub const ALPHABET_LEN: usize = 58;

/// The symbols, as ASCII codes, in index order: the digits `1` to `9`, the
/// lowercase letters without `l`, the uppercase letters without `I` and `O`.
/// [`lemma_alphabet_text`] spells them out.
pub const ALPHABET: [u8; ALPHABET_LEN] = [
    // 1 to 9
    49, 50, 51, 52, 53, 54, 55, 56, 57,
    // a to k
    97, 98, 99, 100, 101, 102, 103, 104, 105, 106, 107,
    // m to z
    109, 110, 111, 112, 113, 114, 115, 116, 117, 118, 119, 120, 121, 122,
    // A to H
    65, 66, 67, 68, 69, 70, 71, 72,
    // J to N
    74, 75, 76, 77, 78,
    // P to Z
    80, 81, 82, 83, 84, 85, 86, 87, 88, 89, 90,
];

/// The bits of a byte that form a candidate index: the low six.
/// [`lemma_mask_covers_alphabet`] says how it follows from [`ALPHABET_LEN`].
pub const MASK: u32 = 63;

/// The alphabet as a sequence of characters.
pub open spec fn alphabet() -> Seq<char> {
    Seq::new(ALPHABET_LEN as nat, |i: int| ALPHABET@[i] as char)
}

/// The candidate index that a byte stands for. The mask keeps the low bits
/// of the byte, which is its remainder by the number of candidates;
/// [`lemma_candidate_is_masked`] shows that the two agree.
pub open spec fn candidate(byte: u8) -> int {
    byte as int % (MASK + 1)
}

/// The symbol that a byte stands for, if its candidate index lies in the
/// alphabet; a byte whose candidate index lies beyond it is rejected.
pub open spec fn symbol_of(byte: u8) -> Option<char> {
    if candidate(byte) < ALPHABET_LEN {
        Some(alphabet()[candidate(byte)])
    } else {
        None
    }
}

/// Maps one random byte to its symbol, or rejects it.
pub fn symbol(byte: u8) -> (r: Option<char>)
    ensures
        r == symbol_of(byte),
{
    proof {
        lemma_candidate_is_masked(byte);
    }
    let index: usize = (byte & (MASK as u8)) as usize;
    if index < ALPHABET_LEN {
        Some(ALPHABET[index] as char)
    } else {
        None
    }
}

/// The alphabet, written out.
pub proof fn lemma_alphabet_text()
    ensures
        alphabet() == "123456789abcdefghijkmnopqrstuvwxyzABCDEFGHJKLMNPQRSTUVWXYZ"@,
{
    reveal_strlit("123456789abcdefghijkmnopqrstuvwxyzABCDEFGHJKLMNPQRSTUVWXYZ");
    assert(alphabet() =~= "123456789abcdefghijkmnopqrstuvwxyzABCDEFGHJKLMNPQRSTUVWXYZ"@);
}

/// No symbol occurs twice in the alphabet.
pub proof fn lemma_alphabet_distinct()
    ensures
        forall|i: int, j: int|
            0 <= i < j < ALPHABET_LEN ==> #[trigger] alphabet()[i] != #[trigger] alphabet()[j],
{
}

/// The alphabet holds ASCII digits and letters only, and none of the
/// characters that are easily mistaken for one another.
pub proof fn lemma_alphabet_unambiguous()
    ensures
        forall|i: int|
            0 <= i < ALPHABET_LEN ==> {
                let c = #[trigger] alphabet()[i];
                ('1' <= c <= '9') || ('a' <= c <= 'z') || ('A' <= c <= 'Z')
            },
        !alphabet().contains('0'),
        !alphabet().contains('O'),
        !alphabet().contains('I'),
        !alphabet().contains('l'),
{
}

/// The mask is one less than a power of two and covers every index of the
/// alphabet; no smaller number of that form does, so that more than half of
/// the candidate indices lie in the alphabet; and it is what shifting by the
/// leading zeros of the alphabet's length gives.
pub proof fn lemma_mask_covers_alphabet()
    ensures
        MASK == pow2(6) - 1,
        MASK >= ALPHABET_LEN - 1,
        forall|k: nat| #[trigger] pow2(k) - 1 >= ALPHABET_LEN - 1 ==> pow2(k) - 1 >= MASK,
        2 * ALPHABET_LEN > MASK + 1,
        MASK == (2u32 << ((31 - u32_leading_zeros(ALPHABET_LEN as u32)) as u32)) - 1,
{
    lemma2_to64();
    assert forall|k: nat| #[trigger] pow2(k) - 1 >= ALPHABET_LEN - 1 implies pow2(k) - 1
        >= MASK by {
        if k < 6 {
            if k < 5 {
                lemma_pow2_strictly_increases(k, 5);
            }
        } else if k > 6 {
            lemma_pow2_strictly_increases(6, k);
        }
    }
    let zeros = u32_leading_zeros(58u32);
    axiom_u32_leading_zeros(58u32);
    let top = (31 - zeros) as u32;
    let above = (32 - zeros) as u32;
    assert(zeros == 26) by (bit_vector)
        requires
            zeros < 32,
            top == 31 - zeros,
            above == 32 - zeros,
            (58u32 >> top) & 1u32 != 0u32,
            58u32 >> above == 0u32,
    ;
    assert(2u32 << 5u32 == 64u32) by (bit_vector);
}

/// Masking a byte gives its candidate index, which never exceeds the mask.
pub proof fn lemma_candidate_is_masked(byte: u8)
    ensures
        candidate(byte) == byte & (MASK as u8),
        0 <= candidate(byte) <= MASK,
{
    assert(byte & 63u8 == byte % 64u8) by (bit_vector);
}

/// Each symbol of the alphabet is the symbol of exactly four of the 256 byte
/// values: bytes that are uniformly distributed give symbols that are
/// uniformly distributed.
pub proof fn lemma_symbols_equally_frequent(c: char)
    requires
        alphabet().contains(c),
    ensures
        Set::new(|byte: u8| symbol_of(byte) == Some(c)).finite(),
        Set::new(|byte: u8| symbol_of(byte) == Some(c)).len() == 4,
{
    let k = choose|k: int| 0 <= k < alphabet().len() && alphabet()[k] == c;
    let low = k as u8;
    let bytes = Set::new(|byte: u8| symbol_of(byte) == Some(c));
    let four = set![low, (low + 64) as u8, (low + 128) as u8, (low + 192) as u8];
    lemma_alphabet_distinct();
    assert forall|byte: u8| bytes.contains(byte) <==> four.contains(byte) by {
        let index = byte % 64u8;
        assert(index == low <==> (byte == low || byte == low + 64 || byte == low + 128 || byte
            == low + 192));
        if candidate(byte) < ALPHABET_LEN && candidate(byte) != k {
            if candidate(byte) < k {
                assert(alphabet()[candidate(byte)] != alphabet()[k]);
            } else {
                assert(alphabet()[k] != alphabet()[candidate(byte)]);
            }
        }
    }
    assert(bytes =~= four);
}

} // verus!
