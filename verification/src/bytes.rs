//! Numbers as they lie in memory.

use vstd::prelude::*;

verus! {

/// The value that the bits of `v` have as a signed number.
pub open spec fn signed(v: usize) -> int {
    if v <= isize::MAX {
        v as int
    } else {
        v - usize::MAX - 1
    }
}

/// Reads the bits of `v` as a signed number.
pub(crate) fn to_signed(v: usize) -> (r: isize)
    ensures
        r == signed(v),
{
    if v <= isize::MAX as usize {
        v as isize
    } else {
        -((usize::MAX - v) as isize) - 1
    }
}

/// How a machine orders the bytes of a number.
#[derive(Clone, Copy, Debug, PartialEq, Eq, Structural)]
pub enum ByteOrder {
    /// The least significant byte comes first.
    LittleEndian,
    /// The most significant byte comes first.
    BigEndian,
}

/// Number of bytes of a `usize`.
pub open spec fn word_size() -> nat {
    (usize::BITS / 8) as nat
}

/// The lowest `n` bytes of `v`, least significant first.
pub open spec fn le_bytes(v: nat, n: nat) -> Seq<u8>
    decreases n,
{
    if n == 0 {
        Seq::empty()
    } else {
        seq![(v % 256) as u8] + le_bytes(v / 256, (n - 1) as nat)
    }
}

/// The number that `bytes` make up, least significant first.
pub open spec fn le_value(bytes: Seq<u8>) -> nat
    decreases bytes.len(),
{
    if bytes.len() == 0 {
        0
    } else {
        (bytes[0] as nat) + 256 * le_value(bytes.drop_first())
    }
}

/// A number has as many bytes as are asked for.
pub(crate) proof fn lemma_le_bytes_len(v: nat, n: nat)
    ensures
        le_bytes(v, n).len() == n,
    decreases n,
{
    if n > 0 {
        lemma_le_bytes_len(v / 256, (n - 1) as nat);
    }
}

/// The bytes of `v` in memory.
pub open spec fn word_bytes(v: usize, order: ByteOrder) -> Seq<u8> {
    match order {
        ByteOrder::LittleEndian => le_bytes(v as nat, word_size()),
        ByteOrder::BigEndian => le_bytes(v as nat, word_size()).reverse(),
    }
}

/// The number whose bytes in memory are `bytes`.
pub open spec fn word_value(bytes: Seq<u8>, order: ByteOrder) -> nat {
    match order {
        ByteOrder::LittleEndian => le_value(bytes),
        ByteOrder::BigEndian => le_value(bytes.reverse()),
    }
}

/// The bytes of `v`, least significant first.
fn to_le_bytes(v: usize) -> (out: Vec<u8>)
    ensures
        out@ == le_bytes(v as nat, word_size()),
        out@.len() == word_size(),
{
    let n: usize = (usize::BITS / 8) as usize;
    let mut out: Vec<u8> = Vec::new();
    let mut rest: usize = v;
    let mut i: usize = 0;
    while i < n
        invariant
            i <= n,
            le_bytes(v as nat, n as nat) == out@ + le_bytes(rest as nat, (n - i) as nat),
        decreases n - i,
    {
        let ghost before = out@;
        out.push((rest % 256) as u8);
        assert(before + le_bytes(rest as nat, (n - i) as nat) =~= out@ + le_bytes(
            (rest / 256) as nat,
            (n - i - 1) as nat,
        ));
        rest = rest / 256;
        i += 1;
    }
    proof {
        lemma_le_bytes_len(v as nat, n as nat);
    }
    out
}

/// Appends the bytes of `v` as they lie in memory.
pub(crate) fn push_bytes(out: &mut Vec<u8>, v: usize, order: ByteOrder)
    ensures
        final(out)@ == old(out)@ + word_bytes(v, order),
        final(out)@.len() == old(out)@.len() + word_size(),
{
    let bytes: Vec<u8> = to_le_bytes(v);
    let n: usize = bytes.len();
    let ghost before = out@;
    let ghost word = word_bytes(v, order);
    let mut i: usize = 0;
    while i < n
        invariant
            i <= n,
            n == bytes.len(),
            n == word_size(),
            bytes@ == le_bytes(v as nat, word_size()),
            word == word_bytes(v, order),
            word.len() == n,
            out@ == before + word.take(i as int),
        decreases n - i,
    {
        let at: usize = match order {
            ByteOrder::LittleEndian => i,
            ByteOrder::BigEndian => n - 1 - i,
        };
        out.push(bytes[at]);
        i += 1;
        assert(out@ =~= before + word.take(i as int));
    }
    assert(word.take(n as int) =~= word);
}

} // verus!
