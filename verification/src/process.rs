//! Process services: exit, yield, sleep, clock, tracing and memory.

use vstd::prelude::*;

use crate::bytes::{push_bytes, signed, to_signed, word_bytes, word_size, ByteOrder};
use crate::step::{KernelCall, Step, FAILURE};

verus! {

/// A point in time, as seconds and microseconds.
#[derive(Clone, Copy, Debug, PartialEq, Eq, Structural)]
pub struct TimeVal {
    pub sec: usize,
    pub usec: usize,
}

/// A range of user memory that the kernel is to translate. It replies with
/// the buffers that make up the range, in order, or with none where the
/// calling task has no such access to all of it.
#[derive(Clone, Copy, Debug, PartialEq, Eq, Structural)]
pub struct BufferRequest {
    pub ptr: usize,
    pub len: usize,
    pub writable: bool,
}

/// What a system call returns, and what is to be written to user memory
/// before that: the `i`-th chunk goes to the front of the `i`-th translated
/// buffer.
#[derive(Debug, PartialEq, Eq)]
pub struct UserWrite {
    pub ret: isize,
    pub chunks: Vec<Vec<u8>>,
}

/// Sum of the lengths in `lens`.
pub open spec fn total(lens: Seq<usize>) -> int
    decreases lens.len(),
{
    if lens.len() == 0 {
        0
    } else {
        total(lens.drop_last()) + lens.last()
    }
}

/// The part of `bytes` that belongs to buffer `i` where the buffers, of the
/// lengths `lens`, take up `bytes` one after another.
pub open spec fn chunk(bytes: Seq<u8>, lens: Seq<usize>, i: int) -> Seq<u8> {
    bytes.subrange(total(lens.take(i)), total(lens.take(i)) + lens[i])
}

/// The length of one buffer more.
pub(crate) proof fn lemma_total_take(lens: Seq<usize>, i: int)
    requires
        0 <= i < lens.len(),
    ensures
        total(lens.take(i + 1)) == total(lens.take(i)) + lens[i],
        0 <= total(lens.take(i)),
        total(lens.take(i + 1)) <= total(lens),
    decreases lens.len() - i,
{
    assert(lens.take(i + 1).drop_last() =~= lens.take(i));
    lemma_total_nonnegative(lens.take(i));
    if i + 1 < lens.len() {
        lemma_total_take(lens, i + 1);
    } else {
        assert(lens.take(i + 1) =~= lens);
    }
}

/// A sum of lengths is not negative.
proof fn lemma_total_nonnegative(lens: Seq<usize>)
    ensures
        0 <= total(lens),
    decreases lens.len(),
{
    if lens.len() > 0 {
        lemma_total_nonnegative(lens.drop_last());
    }
}

impl TimeVal {
    /// The bytes of the value in the memory of a machine of the given byte
    /// order: the two numbers, one behind the other.
    pub open spec fn bytes(self, order: ByteOrder) -> Seq<u8> {
        word_bytes(self.sec, order) + word_bytes(self.usec, order)
    }

    /// The point in time `us` microseconds after the start of the clock.
    pub fn from_micros(us: usize) -> (time: TimeVal)
        ensures
            time.sec == us / 1_000_000,
            time.usec == us % 1_000_000,
            time.sec * 1_000_000 + time.usec == us,
    {
        TimeVal { sec: us / 1_000_000, usec: us % 1_000_000 }
    }

    /// The bytes of the value in the memory of a machine of the given byte
    /// order.
    pub fn to_bytes(&self, order: ByteOrder) -> (bytes: Vec<u8>)
        ensures
            bytes@ == self.bytes(order),
            bytes@.len() == 2 * word_size(),
    {
        let mut out: Vec<u8> = Vec::new();
        push_bytes(&mut out, self.sec, order);
        push_bytes(&mut out, self.usec, order);
        assert(out@ =~= self.bytes(order));
        out
    }
}

/// Copies the bytes of `bytes` from `start` up to `end`.
fn copy_range(bytes: &Vec<u8>, start: usize, end: usize) -> (part: Vec<u8>)
    requires
        start <= end <= bytes.len(),
    ensures
        part@ == bytes@.subrange(start as int, end as int),
{
    let mut part: Vec<u8> = Vec::new();
    let mut i: usize = start;
    while i < end
        invariant
            start <= i <= end <= bytes.len(),
            part@ == bytes@.subrange(start as int, i as int),
        decreases end - i,
    {
        part.push(bytes[i]);
        i += 1;
        assert(part@ =~= bytes@.subrange(start as int, i as int));
    }
    part
}

/// Cuts `bytes` up for buffers of the lengths `lens`.
fn split(bytes: &Vec<u8>, lens: &Vec<usize>) -> (chunks: Vec<Vec<u8>>)
    requires
        total(lens@) <= bytes.len(),
    ensures
        chunks.len() == lens.len(),
        forall|i: int| 0 <= i < lens.len() ==> #[trigger] chunks@[i]@ == chunk(bytes@, lens@, i),
{
    let mut chunks: Vec<Vec<u8>> = Vec::new();
    let mut offset: usize = 0;
    let mut i: usize = 0;
    while i < lens.len()
        invariant
            i <= lens.len(),
            total(lens@) <= bytes.len(),
            chunks.len() == i,
            offset == total(lens@.take(i as int)),
            forall|j: int| 0 <= j < i ==> #[trigger] chunks@[j]@ == chunk(bytes@, lens@, j),
        decreases lens.len() - i,
    {
        proof {
            lemma_total_take(lens@, i as int);
        }
        let end: usize = offset + lens[i];
        chunks.push(copy_range(bytes, offset, end));
        offset = end;
        i += 1;
    }
    chunks
}

/// Ends the calling task with `exit_code`.
pub fn sys_exit(exit_code: i32) -> (step: Step)
    ensures
        step == Step::Exit(exit_code),
{
    Step::Exit(exit_code)
}

/// Lets other tasks run before the calling one goes on.
pub fn sys_yield() -> (step: Step)
    ensures
        step == Step::CallThenReturn(KernelCall::SuspendCurrent, 0),
{
    Step::CallThenReturn(KernelCall::SuspendCurrent, 0)
}

/// Puts the calling thread to sleep for `ms` milliseconds from `now_ms` on.
pub fn sys_sleep(ms: usize, now_ms: usize) -> (step: Step)
    requires
        now_ms + ms <= usize::MAX,
    ensures
        step == Step::CallThenReturn(
            KernelCall::SleepUntil { expire_ms: (now_ms + ms) as usize },
            0,
        ),
{
    Step::CallThenReturn(KernelCall::SleepUntil { expire_ms: now_ms + ms }, 0)
}

/// A write of the time to user memory.
#[derive(Clone, Copy, Debug, PartialEq, Eq, Structural)]
pub struct TimeRequest {
    /// Where the time goes.
    pub buffer: BufferRequest,
    pub time: TimeVal,
}

/// Writes the time, `us` microseconds on the clock, to the user's `TimeVal`
/// at `ts`. The time zone is not looked at.
pub fn sys_get_time(ts: usize, _tz: usize, us: usize) -> (request: TimeRequest)
    ensures
        request.buffer == (BufferRequest {
            ptr: ts,
            len: (2 * word_size()) as usize,
            writable: true,
        }),
        request.time.sec == us / 1_000_000,
        request.time.usec == us % 1_000_000,
        request.time.sec * 1_000_000 + request.time.usec == us,
{
    let len: usize = 2 * ((usize::BITS / 8) as usize);
    TimeRequest {
        buffer: BufferRequest { ptr: ts, len, writable: true },
        time: TimeVal::from_micros(us),
    }
}

impl TimeRequest {
    /// Goes on once the buffer is translated: `buffer_lens` are the lengths
    /// of its parts, if the task may write to it. `order` is the byte order
    /// of the machine.
    pub fn finish(self, order: ByteOrder, buffer_lens: Option<&Vec<usize>>) -> (write: UserWrite)
        requires
            buffer_lens matches Some(lens) ==> total(lens@) <= 2 * word_size(),
        ensures
            match buffer_lens {
                None => write.ret == FAILURE && write.chunks@.len() == 0,
                Some(lens) => {
                    &&& write.ret == 0
                    &&& write.chunks@.len() == lens@.len()
                    &&& forall|i: int|
                        0 <= i < lens@.len() ==> #[trigger] write.chunks@[i]@ == chunk(
                            self.time.bytes(order),
                            lens@,
                            i,
                        )
                },
            },
    {
        match buffer_lens {
            None => UserWrite { ret: FAILURE, chunks: Vec::new() },
            Some(lens) => {
                let bytes: Vec<u8> = self.time.to_bytes(order);
                UserWrite { ret: 0, chunks: split(&bytes, lens) }
            },
        }
    }
}

/// How a trace request goes on.
#[derive(Clone, Copy, Debug, PartialEq, Eq, Structural)]
pub enum TraceStep {
    /// Read the byte of the buffer; see [`finish_trace_read`].
    Read(BufferRequest),
    /// Write the byte to the buffer; see [`finish_trace_write`].
    Write(BufferRequest, u8),
    /// Look up how often the calling task has made this system call; see
    /// [`finish_trace_count`].
    CountSyscalls(usize),
    /// The call returns this value.
    Return(isize),
}

/// Reads (request 0) or writes (1) a byte of the calling task at address
/// `id`, or counts its system calls of number `id` (2).
pub fn sys_trace(trace_request: usize, id: usize, data: usize) -> (step: TraceStep)
    ensures
        step == (if trace_request == 0 {
            TraceStep::Read(BufferRequest { ptr: id, len: 1, writable: false })
        } else if trace_request == 1 {
            TraceStep::Write(
                BufferRequest { ptr: id, len: 1, writable: true },
                (data % 256) as u8,
            )
        } else if trace_request == 2 {
            TraceStep::CountSyscalls(id)
        } else {
            TraceStep::Return(FAILURE)
        }),
{
    match trace_request {
        0 => TraceStep::Read(BufferRequest { ptr: id, len: 1, writable: false }),
        1 => TraceStep::Write(
            BufferRequest { ptr: id, len: 1, writable: true },
            (data % 256) as u8,
        ),
        2 => TraceStep::CountSyscalls(id),
        _ => TraceStep::Return(FAILURE),
    }
}

/// What a trace read returns, given the translated buffers: the first byte,
/// or [`FAILURE`] where the task may not read it.
pub fn finish_trace_read(buffers: Option<&Vec<Vec<u8>>>) -> (ret: isize)
    requires
        buffers matches Some(bufs) ==> bufs@.len() > 0 && bufs@[0]@.len() > 0,
    ensures
        ret == match buffers {
            Some(bufs) => bufs@[0]@[0] as int,
            None => FAILURE as int,
        },
{
    match buffers {
        Some(bufs) => bufs[0][0] as isize,
        None => FAILURE,
    }
}

/// What a trace write does, given the lengths of the translated buffers: it
/// writes the byte, or returns [`FAILURE`] where the task may not write.
pub fn finish_trace_write(byte: u8, buffer_lens: Option<&Vec<usize>>) -> (write: UserWrite)
    requires
        buffer_lens matches Some(lens) ==> lens@.len() > 0 && lens@[0] > 0,
    ensures
        match buffer_lens {
            None => write.ret == FAILURE && write.chunks@.len() == 0,
            Some(lens) => {
                &&& write.ret == 0
                &&& write.chunks@.len() == 1
                &&& write.chunks@[0]@ == seq![byte]
            },
        },
{
    match buffer_lens {
        None => UserWrite { ret: FAILURE, chunks: Vec::new() },
        Some(_) => {
            let mut first: Vec<u8> = Vec::new();
            first.push(byte);
            assert(first@ =~= seq![byte]);
            let mut chunks: Vec<Vec<u8>> = Vec::new();
            chunks.push(first);
            UserWrite { ret: 0, chunks }
        },
    }
}

/// What a count request returns, given the count.
pub fn finish_trace_count(count: usize) -> (ret: isize)
    ensures
        ret == signed(count),
        count <= isize::MAX ==> ret == count,
{
    to_signed(count)
}

/// A mapping of memory that the kernel is to make for the calling task. It
/// replies whether it did.
#[derive(Clone, Copy, Debug, PartialEq, Eq, Structural)]
pub struct MapRequest {
    pub start: usize,
    pub len: usize,
    pub prot: usize,
}

/// Maps `len` bytes of memory at `start` with the protection bits `prot`.
pub fn sys_mmap(start: usize, len: usize, prot: usize) -> (request: MapRequest)
    ensures
        request == (MapRequest { start, len, prot }),
{
    MapRequest { start, len, prot }
}

impl MapRequest {
    /// What the system call returns once the kernel has replied.
    pub fn finish(self, mapped: bool) -> (ret: isize)
        ensures
            ret == if mapped {
                0
            } else {
                FAILURE
            },
    {
        if mapped {
            0
        } else {
            FAILURE
        }
    }
}

/// A mapping of memory that the kernel is to take back from the calling
/// task. It replies whether it did.
#[derive(Clone, Copy, Debug, PartialEq, Eq, Structural)]
pub struct UnmapRequest {
    pub start: usize,
    pub len: usize,
}

/// Unmaps `len` bytes of memory at `start`.
pub fn sys_munmap(start: usize, len: usize) -> (request: UnmapRequest)
    ensures
        request == (UnmapRequest { start, len }),
{
    UnmapRequest { start, len }
}

impl UnmapRequest {
    /// What the system call returns once the kernel has replied.
    pub fn finish(self, unmapped: bool) -> (ret: isize)
        ensures
            ret == if unmapped {
                0
            } else {
                FAILURE
            },
    {
        if unmapped {
            0
        } else {
            FAILURE
        }
    }
}

/// A change of the calling task's program break by `size` bytes. The kernel
/// replies with the break before the change, if it could make it.
#[derive(Clone, Copy, Debug, PartialEq, Eq, Structural)]
pub struct BrkRequest {
    pub size: i32,
}

/// Changes the size of the data segment by `size` bytes.
pub fn sys_sbrk(size: i32) -> (request: BrkRequest)
    ensures
        request == (BrkRequest { size }),
{
    BrkRequest { size }
}

impl BrkRequest {
    /// What the system call returns once the kernel has replied: the old
    /// break, or [`FAILURE`].
    pub fn finish(self, old_brk: Option<usize>) -> (ret: isize)
        ensures
            ret == match old_brk {
                Some(brk) => signed(brk),
                None => FAILURE as int,
            },
            old_brk matches Some(brk) ==> (brk <= isize::MAX ==> ret == brk),
    {
        match old_brk {
            Some(brk) => to_signed(brk),
            None => FAILURE,
        }
    }
}

} // verus!
