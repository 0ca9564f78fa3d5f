//! Words as the bytes they are stored in.
use vstd::endian::{endianness, Endian};
use vstd::prelude::*;

verus! {

/// The bytes of a word, the least significant one first.
pub open spec fn le_bytes(word: u32) -> Seq<u8> {
    seq![
        (word % 0x100) as u8,
        (word / 0x100 % 0x100) as u8,
        (word / 0x1_0000 % 0x100) as u8,
        (word / 0x100_0000) as u8,
    ]
}

/// The bytes of a word in the order in which this machine stores them.
pub open spec fn native_bytes(word: u32) -> Seq<u8> {
    match endianness() {
        Endian::Little => le_bytes(word),
        Endian::Big => le_bytes(word).reverse(),
    }
}

/// The bytes of words, one word after another, as this machine stores them.
pub open spec fn words_in_memory(words: Seq<u32>) -> Seq<u8> {
    Seq::new(4 * words.len(), |i: int| native_bytes(words[i / 4])[i % 4])
}

/// `bytemuck::cast_slice`, from words to bytes: the memory that the words take up, seen as bytes.
/// No word is changed, left out or moved.
#[verifier::external_body]
pub(crate) fn cast_words(words: &[u32]) -> (bytes: Vec<u8>)
    ensures
        bytes@ == words_in_memory(words@),
{
    bytemuck::cast_slice::<u32, u8>(words).to_vec()
}

/// The bytes of a word, the least significant one first.
pub fn to_le_bytes(word: u32) -> (bytes: [u8; 4])
    ensures
        bytes@ == le_bytes(word),
{
    let bytes: [u8; 4] = [
        (word % 0x100) as u8,
        (word / 0x100 % 0x100) as u8,
        (word / 0x1_0000 % 0x100) as u8,
        (word / 0x100_0000) as u8,
    ];
    assert(bytes@ =~= le_bytes(word));
    bytes
}

/// The low 32 bits of a number.
pub open spec fn low_bits(number: int) -> u32 {
    (number % 0x1_0000_0000) as u32
}

/// The low 32 bits of a number.
pub fn low_word(number: u64) -> (word: u32)
    ensures
        word == low_bits(number as int),
{
    (number % 0x1_0000_0000) as u32
}

/// The least multiple of `step` that is not below `number`.
pub open spec fn rounded_up(number: int, step: int) -> int {
    if number % step == 0 {
        number
    } else {
        number + step - number % step
    }
}

/// The least multiple of `step` that is not below `number`.
pub fn round_up(number: usize, step: usize) -> (multiple: usize)
    requires
        step > 0,
        rounded_up(number as int, step as int) <= usize::MAX,
    ensures
        multiple == rounded_up(number as int, step as int),
{
    let over: usize = number % step;
    if over == 0 {
        number
    } else {
        number + (step - over)
    }
}

/// Rounding up gives a multiple of the step, and the least one that is not below the number.
pub proof fn lemma_rounded_up(number: int, step: int)
    requires
        step > 0,
    ensures
        rounded_up(number, step) % step == 0,
        number <= rounded_up(number, step) < number + step,
{
    if number % step != 0 {
        let q = number / step;
        vstd::arithmetic::div_mod::lemma_fundamental_div_mod(number, step);
        assert(step * q + step == step * (q + 1)) by (nonlinear_arith);
        vstd::arithmetic::div_mod::lemma_mod_multiples_basic(q + 1, step);
        vstd::arithmetic::mul::lemma_mul_is_commutative(step, q + 1);
    }
}

/// The bytes of a word give it back: each counts 256 times as much as the one before it.
pub proof fn law_words_read_back(word: u32)
    ensures
        le_bytes(word).len() == 4,
        le_bytes(word)[0] + 256 * le_bytes(word)[1] + 65536 * le_bytes(word)[2] + 16777216
            * le_bytes(word)[3] == word,
{
}

/// Words lie in memory one after another, four bytes each, in the order of the machine: on one that
/// stores the least significant byte first, byte `k` of a word counts 256 times as much as the byte
/// before it, on any other machine 256 times as much as the byte after it.
pub proof fn law_words_lie_one_after_another(words: Seq<u32>, i: int)
    requires
        0 <= i < words.len(),
    ensures
        ({
            let m = words_in_memory(words);
            let at = 4 * i;
            &&& m.len() == 4 * words.len()
            &&& endianness() == Endian::Little ==> m[at] + 256 * m[at + 1] + 65536 * m[at + 2]
                + 16777216 * m[at + 3] == words[i]
            &&& endianness() != Endian::Little ==> m[at + 3] + 256 * m[at + 2] + 65536 * m[at + 1]
                + 16777216 * m[at] == words[i]
        }),
{
    law_words_read_back(words[i]);
}

/// The low bits of a number are what is left of it once a multiple of `2` to the power 32 is taken
/// away; a number that has no higher bits is its low bits.
pub proof fn law_low_bits_are_what_is_left(number: int)
    requires
        0 <= number,
    ensures
        (number - low_bits(number)) % 4294967296 == 0,
        low_bits(number) <= number,
        number < 4294967296 ==> low_bits(number) == number,
{
}

/// Rounding up keeps multiples, and never passes over one.
pub proof fn law_rounding_up_stops_at_the_first_multiple(number: int, step: int, multiple: int)
    requires
        step > 0,
        multiple % step == 0,
        number <= multiple,
    ensures
        rounded_up(number, step) % step == 0,
        number <= rounded_up(number, step) <= multiple,
{
    lemma_rounded_up(number, step);
    let r = rounded_up(number, step);
    if r > multiple {
        let a = r / step;
        let b = multiple / step;
        vstd::arithmetic::div_mod::lemma_fundamental_div_mod(r, step);
        vstd::arithmetic::div_mod::lemma_fundamental_div_mod(multiple, step);
        assert(step * a >= step * b + step) by (nonlinear_arith)
            requires
                step > 0,
                step * a > step * b,
        ;
    }
}

} // verus!
