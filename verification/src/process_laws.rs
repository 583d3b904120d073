//! What process services give, call by call.

use vstd::prelude::*;

use crate::bytes::{word_size, word_value, ByteOrder};
use crate::process::{
    chunk, finish_trace_count, finish_trace_read, finish_trace_write, sys_exit, sys_get_time,
    sys_mmap, sys_munmap, sys_sbrk, sys_sleep, sys_trace, sys_yield, total, BrkRequest, MapRequest,
    TimeRequest, TraceStep, UnmapRequest, UserWrite,
};
use crate::step::{KernelCall, Step};
use crate::time_laws::{law_chunks_make_up_bytes, law_time_from_bytes, law_written_time};

verus! {

/// A task ends with the very exit code that it gave. One that yields lets
/// other tasks run and is then returned zero.
pub proof fn law_exit_code(code: i32, other: i32, exit: Step, other_exit: Step, yielded: Step)
    requires
        call_ensures(sys_exit, (code,), exit),
        call_ensures(sys_exit, (other,), other_exit),
        call_ensures(sys_yield, (), yielded),
    ensures
        exit is Exit,
        (exit == other_exit) == (code == other),
        exit matches Step::Exit(c) ==> c == code,
        yielded matches Step::CallThenReturn(call, ret) && call == KernelCall::SuspendCurrent
            && ret == 0,
{
}

/// A thread sleeps for as long as it asked: from now until the clock has gone
/// on by that much. The call then returns zero.
pub proof fn law_sleep_lasts(ms: usize, now_ms: usize, step: Step)
    requires
        now_ms + ms <= usize::MAX,
        call_ensures(sys_sleep, (ms, now_ms), step),
    ensures
        step matches Step::CallThenReturn(KernelCall::SleepUntil { expire_ms }, ret) && expire_ms
            - now_ms == ms && ret == 0,
{
}

/// A byte that was written through a trace request is what a trace request
/// reads at the same address: the low eight bits of the number given.
pub proof fn law_trace_reads_what_was_written(
    id: usize,
    data: usize,
    other: usize,
    write: TraceStep,
    read: TraceStep,
    lens: Vec<usize>,
    written: UserWrite,
    buffers: Vec<Vec<u8>>,
    ret: isize,
)
    requires
        call_ensures(sys_trace, (1usize, id, data), write),
        call_ensures(sys_trace, (0usize, id, other), read),
        write matches TraceStep::Write(to, byte) ==> call_ensures(
            finish_trace_write,
            (byte, Some(&lens)),
            written,
        ),
        buffers@.len() > 0,
        buffers@[0]@.len() > 0,
        buffers@[0]@[0] == written.chunks@[0]@[0],
        call_ensures(finish_trace_read, (Some(&buffers),), ret),
    ensures
        write is Write,
        read is Read,
        write matches TraceStep::Write(to, byte) ==> to.ptr == id && to.len == 1 && to.writable,
        read matches TraceStep::Read(from) ==> from.ptr == id && from.len == 1 && !from.writable,
        written.ret == 0,
        written.chunks@.len() == 1,
        written.chunks@[0]@.len() == 1,
        0 <= ret < 256,
        (data - ret) % 256 == 0,
{
}

/// Trace requests differ in what they ask for if they differ in kind, in
/// address or number, or in the byte to write. One of an unknown kind fails.
pub proof fn law_trace_requests_differ(
    kind: usize,
    id: usize,
    data: usize,
    step: TraceStep,
    other_kind: usize,
    other_id: usize,
    other_data: usize,
    other_step: TraceStep,
)
    requires
        call_ensures(sys_trace, (kind, id, data), step),
        call_ensures(sys_trace, (other_kind, other_id, other_data), other_step),
    ensures
        kind > 2 <==> step == TraceStep::Return(-1isize),
        kind <= 2 && step == other_step ==> kind == other_kind && id == other_id,
        kind == 1 && step == other_step ==> data % 256 == other_data % 256,
        kind == 2 ==> step == TraceStep::CountSyscalls(id),
{
}

/// A trace request for memory that the task may not touch returns -1 and
/// writes nothing, whatever the byte.
pub proof fn law_trace_refused(byte: u8, read: isize, write: UserWrite)
    requires
        call_ensures(finish_trace_read, (None::<&Vec<Vec<u8>>>,), read),
        call_ensures(finish_trace_write, (byte, None::<&Vec<usize>>), write),
    ensures
        read == -1,
        write.ret == -1,
        write.chunks@.len() == 0,
{
}

/// A count is returned as it is, as long as a signed word has room for it,
/// and different counts are never confused.
pub proof fn law_trace_counts(count: usize, other: usize, ret: isize, other_ret: isize)
    requires
        call_ensures(finish_trace_count, (count,), ret),
        call_ensures(finish_trace_count, (other,), other_ret),
    ensures
        count <= isize::MAX ==> ret == count,
        count > isize::MAX ==> ret == count - usize::MAX - 1,
        ret == other_ret ==> count == other,
{
}

/// What the user finds at the address given, once the buffers are written one
/// behind the other, says how many microseconds the clock showed: whole
/// seconds, and less than a second over. The time zone plays no part.
pub proof fn law_clock_reaches_user(
    ts: usize,
    tz: usize,
    other_tz: usize,
    us: usize,
    request: TimeRequest,
    other_request: TimeRequest,
    order: ByteOrder,
    lens: Vec<usize>,
    write: UserWrite,
)
    requires
        call_ensures(sys_get_time, (ts, tz, us), request),
        call_ensures(sys_get_time, (ts, other_tz, us), other_request),
        total(lens@) == 2 * word_size(),
        call_ensures(TimeRequest::finish, (request, order, Some(&lens)), write),
    ensures
        request == other_request,
        request.buffer.ptr == ts,
        request.buffer.len == total(lens@),
        request.buffer.writable,
        write.ret == 0,
        write.chunks@.len() == lens@.len(),
        ({
            let written = Seq::new(lens@.len(), |i: int| write.chunks@[i]@).flatten();
            let n = word_size() as int;
            &&& word_value(written.take(n), order) * 1_000_000 + word_value(written.skip(n), order)
                == us
            &&& word_value(written.skip(n), order) < 1_000_000
        }),
{
    let bytes = request.time.bytes(order);
    law_written_time(us, request.time, order, lens@);
    law_time_from_bytes(request.time, order);
    law_chunks_make_up_bytes(bytes, lens@);
    assert(Seq::new(lens@.len(), |i: int| write.chunks@[i]@) =~= Seq::new(
        lens@.len(),
        |i: int| chunk(bytes, lens@, i),
    ));
}

/// Where the task may not write to the address, the call returns -1 and
/// nothing is written.
pub proof fn law_clock_refused(request: TimeRequest, order: ByteOrder, write: UserWrite)
    requires
        call_ensures(TimeRequest::finish, (request, order, None::<&Vec<usize>>), write),
    ensures
        write.ret == -1,
        write.chunks@.len() == 0,
{
}

/// A mapping is asked for with the numbers given, and the call returns zero
/// if it was made and -1 if not.
pub proof fn law_mmap_reply(
    start: usize,
    len: usize,
    prot: usize,
    request: MapRequest,
    mapped: bool,
    ret: isize,
)
    requires
        call_ensures(sys_mmap, (start, len, prot), request),
        call_ensures(MapRequest::finish, (request, mapped), ret),
    ensures
        request.start == start,
        request.len == len,
        request.prot == prot,
        mapped <==> ret == 0,
        !mapped <==> ret == -1,
{
}

/// A mapping is given up with the numbers given, and the call returns zero if
/// it was undone and -1 if not.
pub proof fn law_munmap_reply(
    start: usize,
    len: usize,
    request: UnmapRequest,
    unmapped: bool,
    ret: isize,
)
    requires
        call_ensures(sys_munmap, (start, len), request),
        call_ensures(UnmapRequest::finish, (request, unmapped), ret),
    ensures
        request.start == start,
        request.len == len,
        unmapped <==> ret == 0,
        !unmapped <==> ret == -1,
{
}

/// The program break is moved by the size given. The call returns the break
/// before that as it is, as long as a signed word has room for it; different
/// breaks are never confused; and -1 says that it was not moved.
pub proof fn law_sbrk_reply(
    size: i32,
    request: BrkRequest,
    brk: usize,
    other_brk: usize,
    ret: isize,
    other_ret: isize,
    failed: isize,
)
    requires
        call_ensures(sys_sbrk, (size,), request),
        call_ensures(BrkRequest::finish, (request, Some(brk)), ret),
        call_ensures(BrkRequest::finish, (request, Some(other_brk)), other_ret),
        call_ensures(BrkRequest::finish, (request, None::<usize>), failed),
    ensures
        request.size == size,
        brk <= isize::MAX ==> ret == brk,
        brk > isize::MAX ==> ret == brk - usize::MAX - 1,
        ret == other_ret ==> brk == other_brk,
        failed == -1,
        ret == failed ==> brk == usize::MAX,
{
}

} // verus!
