//! What holds of the time that is written to user memory.

use vstd::prelude::*;

use crate::bytes::{
    le_bytes, le_value, lemma_le_bytes_len, word_bytes, word_size, word_value, ByteOrder,
};
use crate::process::{chunk, lemma_total_take, total, TimeVal};

verus! {

/// How many numbers `n` bytes can tell apart.
spec fn byte_range(n: nat) -> nat
    decreases n,
{
    if n == 0 {
        1
    } else {
        256 * byte_range((n - 1) as nat)
    }
}

/// The bytes of a number that they have room for give the number back.
proof fn lemma_le_value_of_bytes(v: nat, n: nat)
    requires
        v < byte_range(n),
    ensures
        le_value(le_bytes(v, n)) == v,
    decreases n,
{
    if n > 0 {
        let bytes = le_bytes(v, n);
        lemma_le_value_of_bytes(v / 256, (n - 1) as nat);
        assert(bytes.drop_first() =~= le_bytes(v / 256, (n - 1) as nat));
    }
}

/// The bytes of a word give it back.
proof fn lemma_word_value_of_bytes(v: usize, order: ByteOrder)
    ensures
        word_bytes(v, order).len() == word_size(),
        word_value(word_bytes(v, order), order) == v,
{
    let n = word_size();
    assert(usize::MAX < byte_range(n)) by {
        reveal_with_fuel(byte_range, 9);
    }
    lemma_le_bytes_len(v as nat, n);
    lemma_le_value_of_bytes(v as nat, n);
    let bytes = le_bytes(v as nat, n);
    assert(bytes.reverse().reverse() =~= bytes);
}

/// The bytes of a `TimeVal` give its seconds and microseconds back.
pub proof fn law_time_from_bytes(time: TimeVal, order: ByteOrder)
    ensures
        time.bytes(order).len() == 2 * word_size(),
        word_value(time.bytes(order).take(word_size() as int), order) == time.sec,
        word_value(time.bytes(order).skip(word_size() as int), order) == time.usec,
{
    let n = word_size() as int;
    lemma_word_value_of_bytes(time.sec, order);
    lemma_word_value_of_bytes(time.usec, order);
    assert(time.bytes(order).take(n) =~= word_bytes(time.sec, order));
    assert(time.bytes(order).skip(n) =~= word_bytes(time.usec, order));
}

/// The first `n` chunks, one behind the other, are the front of the bytes.
proof fn lemma_chunks_make_up_front(bytes: Seq<u8>, lens: Seq<usize>, n: nat)
    requires
        n <= lens.len(),
        total(lens) <= bytes.len(),
    ensures
        0 <= total(lens.take(n as int)) <= total(lens),
        Seq::new(n, |i: int| chunk(bytes, lens, i)).flatten() == bytes.take(
            total(lens.take(n as int)),
        ),
    decreases n,
{
    if n == 0 {
        assert(Seq::new(n, |i: int| chunk(bytes, lens, i)).flatten() =~= bytes.take(0));
        if lens.len() > 0 {
            lemma_total_take(lens, 0);
        }
    } else {
        let m = (n - 1) as nat;
        let before = Seq::new(m, |i: int| chunk(bytes, lens, i));
        let part = chunk(bytes, lens, m as int);
        lemma_chunks_make_up_front(bytes, lens, m);
        lemma_total_take(lens, m as int);
        assert(Seq::new(n, |i: int| chunk(bytes, lens, i)) =~= before.push(part));
        before.lemma_flatten_push(part);
        assert(bytes.take(total(lens.take(m as int))) + part =~= bytes.take(
            total(lens.take(n as int)),
        ));
    }
}

/// Buffers that together are as long as the bytes receive all of them, in
/// order.
pub proof fn law_chunks_make_up_bytes(bytes: Seq<u8>, lens: Seq<usize>)
    requires
        total(lens) == bytes.len(),
    ensures
        Seq::new(lens.len(), |i: int| chunk(bytes, lens, i)).flatten() == bytes,
{
    lemma_chunks_make_up_front(bytes, lens, lens.len());
    assert(lens.take(lens.len() as int) =~= lens);
    assert(bytes.take(bytes.len() as int) =~= bytes);
}

/// What is written to buffers that make up a whole `TimeVal` says how many
/// microseconds the clock showed.
pub proof fn law_written_time(us: usize, time: TimeVal, order: ByteOrder, lens: Seq<usize>)
    requires
        time.sec == us / 1_000_000,
        time.usec == us % 1_000_000,
        total(lens) == 2 * word_size(),
    ensures
        ({
            let bytes = time.bytes(order);
            let written = Seq::new(lens.len(), |i: int| chunk(bytes, lens, i)).flatten();
            let n = word_size() as int;
            word_value(written.take(n), order) * 1_000_000 + word_value(written.skip(n), order)
                == us
        }),
{
    law_time_from_bytes(time, order);
    law_chunks_make_up_bytes(time.bytes(order), lens);
}

} // verus!
