//! What numbers become when a system call returns them or writes them.

use vstd::arithmetic::div_mod::lemma_div_denominator;
use vstd::arithmetic::power::{lemma_pow_positive, pow};
use vstd::prelude::*;

use crate::bytes::{
    le_bytes, le_value, lemma_le_bytes_len, signed, word_bytes, word_size, word_value, ByteOrder,
};
use crate::process::{chunk, lemma_total_take, total, TimeVal};
use crate::state::slot_of;
use crate::step::{DEADLOCK, FAILURE};

verus! {

/// A number that a signed word has room for is returned as it is, a larger
/// one as the negative number that differs from it by the range of a word.
/// Different numbers are returned as different ones.
pub proof fn law_signed(v: usize, w: usize)
    ensures
        v <= isize::MAX ==> signed(v) == v,
        v > isize::MAX ==> signed(v) == v - usize::MAX - 1,
        isize::MIN <= signed(v) <= isize::MAX,
        signed(v) == signed(w) ==> v == w,
{
}

/// No number that a signed word has room for is taken for a refusal, and the
/// two refusals are not taken for each other.
pub proof fn law_refusals_tell_apart(v: usize)
    ensures
        v <= isize::MAX ==> signed(v) != FAILURE && signed(v) != DEADLOCK,
        signed(v) == FAILURE <==> v + 1 == usize::MAX + 1,
        signed(v) == DEADLOCK <==> v + 0xdead == usize::MAX + 1,
        FAILURE != DEADLOCK,
{
}

/// The slot that a create call returns can be read off its result: the two
/// are the same but for slots that a signed word has no room for.
pub proof fn law_returned_slot(ret: isize, other: isize, slot: usize)
    ensures
        ret >= 0 ==> slot_of(ret) == ret,
        0 <= slot_of(ret) <= usize::MAX,
        slot_of(ret) == slot_of(other) ==> ret == other,
        slot_of(signed(slot) as isize) == slot,
{
}

/// A word has as many bytes as make up its bits.
pub proof fn law_word_size()
    ensures
        word_size() * 8 == usize::BITS,
{
}

/// The bytes of a number are its digits in base 256.
proof fn lemma_le_byte_is_digit(v: nat, n: nat, i: nat)
    requires
        i < n,
    ensures
        le_bytes(v, n).len() == n,
        le_bytes(v, n)[i as int] == (v as int / pow(256, i)) % 256,
    decreases n,
{
    lemma_le_bytes_len(v, n);
    if i == 0 {
        assert(pow(256, 0) == 1) by {
            reveal(pow);
        }
    } else {
        let j = (i - 1) as nat;
        lemma_le_byte_is_digit(v / 256, (n - 1) as nat, j);
        lemma_pow_positive(256, j);
        assert(pow(256, i) == 256 * pow(256, j)) by {
            reveal(pow);
        }
        lemma_div_denominator(v as int, 256, pow(256, j));
        assert(le_bytes(v, n)[i as int] == le_bytes(v / 256, (n - 1) as nat)[j as int]);
    }
}

/// The bytes of a word are its digits in base 256, from the lowest up or from
/// the highest down as the byte order says.
pub proof fn law_word_bytes(v: usize, i: nat)
    requires
        i < word_size(),
    ensures
        word_bytes(v, ByteOrder::LittleEndian).len() == word_size(),
        word_bytes(v, ByteOrder::BigEndian).len() == word_size(),
        word_bytes(v, ByteOrder::LittleEndian)[i as int] == (v as int / pow(256, i)) % 256,
        word_bytes(v, ByteOrder::BigEndian)[word_size() - 1 - i] == (v as int / pow(256, i)) % 256,
{
    lemma_le_byte_is_digit(v as nat, word_size(), i);
}

/// The bytes of a time are the digits of its seconds and then those of its
/// microseconds.
pub proof fn law_time_bytes(time: TimeVal, i: nat)
    requires
        i < word_size(),
    ensures
        ({
            let n = word_size() as int;
            let little = time.bytes(ByteOrder::LittleEndian);
            let big = time.bytes(ByteOrder::BigEndian);
            &&& little.len() == 2 * n
            &&& big.len() == 2 * n
            &&& little[i as int] == (time.sec as int / pow(256, i)) % 256
            &&& little[n + i] == (time.usec as int / pow(256, i)) % 256
            &&& big[n - 1 - i] == (time.sec as int / pow(256, i)) % 256
            &&& big[2 * n - 1 - i] == (time.usec as int / pow(256, i)) % 256
        }),
{
    law_word_bytes(time.sec, i);
    law_word_bytes(time.usec, i);
}

/// Bytes make up the number whose digits they are.
pub proof fn law_value_of_bytes(low: u8, rest: Seq<u8>, bytes: Seq<u8>)
    ensures
        le_value(Seq::empty()) == 0,
        le_value(seq![low] + rest) == low + 256 * le_value(rest),
        word_value(bytes, ByteOrder::LittleEndian) == le_value(bytes),
        word_value(bytes, ByteOrder::BigEndian) == le_value(bytes.reverse()),
{
    assert((seq![low] + rest).drop_first() =~= rest);
}

/// Lengths add up.
pub proof fn law_total(lens: Seq<usize>, len: usize)
    ensures
        total(Seq::empty()) == 0,
        total(lens.push(len)) == total(lens) + len,
{
    assert(lens.push(len).drop_last() =~= lens);
}

/// Each buffer receives as many bytes as it is long, from where the buffers
/// before it end.
pub proof fn law_chunk(bytes: Seq<u8>, lens: Seq<usize>, i: int, k: int)
    requires
        total(lens) <= bytes.len(),
        0 <= i < lens.len(),
        0 <= k < lens[i],
    ensures
        chunk(bytes, lens, i).len() == lens[i],
        chunk(bytes, lens, i)[k] == bytes[total(lens.take(i)) + k],
{
    lemma_total_take(lens, i);
}

} // verus!
