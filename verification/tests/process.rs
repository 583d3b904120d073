use kernel_syscalls::{
    finish_trace_count, finish_trace_read, finish_trace_write, sys_exit, sys_get_time, sys_mmap,
    sys_munmap, sys_sbrk, sys_sleep, sys_trace, sys_yield, BufferRequest, ByteOrder, KernelCall,
    Step, TimeVal, TraceStep, FAILURE,
};

const WORD: usize = std::mem::size_of::<usize>();

fn native_order() -> ByteOrder {
    if 1usize.to_ne_bytes()[0] == 1 {
        ByteOrder::LittleEndian
    } else {
        ByteOrder::BigEndian
    }
}

fn native_bytes(time: &TimeVal) -> Vec<u8> {
    let mut bytes = time.sec.to_ne_bytes().to_vec();
    bytes.extend_from_slice(&time.usec.to_ne_bytes());
    bytes
}

#[test]
fn exit_carries_the_code() {
    assert_eq!(sys_exit(7), Step::Exit(7));
    assert_eq!(sys_exit(-1), Step::Exit(-1));
}

#[test]
fn yield_suspends_and_returns_zero() {
    assert_eq!(sys_yield(), Step::CallThenReturn(KernelCall::SuspendCurrent, 0));
}

#[test]
fn sleep_expires_after_the_given_time() {
    assert_eq!(
        sys_sleep(250, 1000),
        Step::CallThenReturn(KernelCall::SleepUntil { expire_ms: 1250 }, 0)
    );
    assert_eq!(
        sys_sleep(0, usize::MAX),
        Step::CallThenReturn(KernelCall::SleepUntil { expire_ms: usize::MAX }, 0)
    );
}

#[test]
fn time_is_split_into_seconds_and_microseconds() {
    let request = sys_get_time(0x1000, 9, 12_345_678);
    assert_eq!(request.time, TimeVal { sec: 12, usec: 345_678 });
    assert_eq!(request.buffer, BufferRequest { ptr: 0x1000, len: 2 * WORD, writable: true });
    assert_eq!(TimeVal::from_micros(999_999), TimeVal { sec: 0, usec: 999_999 });
    assert_eq!(TimeVal::from_micros(1_000_000), TimeVal { sec: 1, usec: 0 });
}

#[test]
fn time_bytes_are_those_in_memory() {
    let time = TimeVal { sec: 0x0102_0304, usec: 345_678 };
    assert_eq!(time.to_bytes(native_order()), native_bytes(&time));
    let largest = TimeVal { sec: usize::MAX, usec: 999_999 };
    assert_eq!(largest.to_bytes(native_order()), native_bytes(&largest));
}

#[test]
fn time_bytes_follow_the_byte_order() {
    let time = TimeVal { sec: 0x0102_0304, usec: 0x0a0b };
    let mut little = time.sec.to_le_bytes().to_vec();
    little.extend_from_slice(&time.usec.to_le_bytes());
    let mut big = time.sec.to_be_bytes().to_vec();
    big.extend_from_slice(&time.usec.to_be_bytes());
    assert_eq!(time.to_bytes(ByteOrder::LittleEndian), little);
    assert_eq!(time.to_bytes(ByteOrder::BigEndian), big);
    assert_eq!(little[..4].to_vec(), vec![4, 3, 2, 1]);
    assert_eq!(big[WORD - 4..WORD].to_vec(), vec![1, 2, 3, 4]);
}

#[test]
fn time_goes_to_one_buffer() {
    let request = sys_get_time(0x1000, 0, 3_000_007);
    let write = request.finish(native_order(), Some(&vec![2 * WORD]));
    assert_eq!(write.ret, 0);
    assert_eq!(write.chunks, vec![native_bytes(&TimeVal { sec: 3, usec: 7 })]);
}

#[test]
fn time_is_spread_over_two_pages() {
    let request = sys_get_time(0x1ffd, 0, 3_000_007);
    let write = request.finish(native_order(), Some(&vec![3, 2 * WORD - 3]));
    let bytes = native_bytes(&TimeVal { sec: 3, usec: 7 });
    assert_eq!(write.ret, 0);
    assert_eq!(write.chunks, vec![bytes[..3].to_vec(), bytes[3..].to_vec()]);
    assert_eq!(write.chunks.concat(), bytes);
}

#[test]
fn time_to_bad_pointer_fails() {
    let write = sys_get_time(0, 0, 3_000_007).finish(native_order(), None);
    assert_eq!(write.ret, -1);
    assert!(write.chunks.is_empty());
}

#[test]
fn trace_read_asks_for_one_readable_byte() {
    assert_eq!(
        sys_trace(0, 0x8000, 5),
        TraceStep::Read(BufferRequest { ptr: 0x8000, len: 1, writable: false })
    );
    assert_eq!(finish_trace_read(Some(&vec![vec![200]])), 200);
    assert_eq!(finish_trace_read(None), FAILURE);
}

#[test]
fn trace_write_writes_the_low_byte() {
    assert_eq!(
        sys_trace(1, 0x8000, 0x1ff),
        TraceStep::Write(BufferRequest { ptr: 0x8000, len: 1, writable: true }, 0xff)
    );
    let write = finish_trace_write(0xff, Some(&vec![1]));
    assert_eq!(write.ret, 0);
    assert_eq!(write.chunks, vec![vec![0xff]]);
    let refused = finish_trace_write(0xff, None);
    assert_eq!(refused.ret, -1);
    assert!(refused.chunks.is_empty());
}

#[test]
fn trace_counts_system_calls() {
    assert_eq!(sys_trace(2, 169, 0), TraceStep::CountSyscalls(169));
    assert_eq!(finish_trace_count(42), 42);
    assert_eq!(finish_trace_count(usize::MAX), -1);
}

#[test]
fn unknown_trace_request_fails() {
    assert_eq!(sys_trace(3, 0, 0), TraceStep::Return(-1));
    assert_eq!(sys_trace(usize::MAX, 0, 0), TraceStep::Return(-1));
}

#[test]
fn mmap_passes_on_its_arguments() {
    let request = sys_mmap(0x1000_0000, 4096, 3);
    assert_eq!((request.start, request.len, request.prot), (0x1000_0000, 4096, 3));
    assert_eq!(request.finish(true), 0);
    assert_eq!(request.finish(false), -1);
}

#[test]
fn munmap_passes_on_its_arguments() {
    let request = sys_munmap(0x1000_0000, 4096);
    assert_eq!((request.start, request.len), (0x1000_0000, 4096));
    assert_eq!(request.finish(true), 0);
    assert_eq!(request.finish(false), -1);
}

#[test]
fn sbrk_returns_the_old_break() {
    let request = sys_sbrk(-4096);
    assert_eq!(request.size, -4096);
    assert_eq!(request.finish(Some(0x2000)), 0x2000);
    assert_eq!(request.finish(Some(isize::MAX as usize + 1)), isize::MIN);
    assert_eq!(request.finish(None), -1);
}
