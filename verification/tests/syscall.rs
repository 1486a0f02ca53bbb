use os::syscall::{sys_sbrk, sys_yield, trace_action, trace_reply, TimeVal, TraceAction};

#[test]
fn time_is_split_into_seconds_and_microseconds() {
    let t = TimeVal::from_micros(3_250_000);
    assert_eq!(t.sec, 3);
    assert_eq!(t.usec, 250_000);
    let z = TimeVal::from_micros(999_999);
    assert_eq!(z.sec, 0);
    assert_eq!(z.usec, 999_999);
}

#[test]
fn yield_answers_zero() {
    assert_eq!(sys_yield(), 0);
}

#[test]
fn sbrk_reports_old_break_or_failure() {
    assert_eq!(sys_sbrk(Some(0x1000)), 0x1000);
    assert_eq!(sys_sbrk(None), -1);
    assert_eq!(sys_sbrk(Some(usize::MAX)), -1);
}

#[test]
fn trace_requests_are_decoded() {
    assert_eq!(trace_action(0, 0x10, 7), TraceAction::Read(0x10));
    assert_eq!(trace_action(1, 0x10, 0x1ff), TraceAction::ReadWrite(0x10, 0xff));
    assert_eq!(trace_action(2, 64, 0), TraceAction::CountSyscall(64));
    assert_eq!(trace_action(3, 64, 0), TraceAction::Reject);
}

#[test]
fn trace_replies() {
    assert_eq!(trace_reply(TraceAction::Read(1), Some(200), 0), 200);
    assert_eq!(trace_reply(TraceAction::Read(1), None, 0), -1);
    assert_eq!(trace_reply(TraceAction::ReadWrite(1, 5), Some(9), 0), 0);
    assert_eq!(trace_reply(TraceAction::ReadWrite(1, 5), None, 0), -1);
    assert_eq!(trace_reply(TraceAction::CountSyscall(64), None, 12), 12);
    assert_eq!(trace_reply(TraceAction::Reject, Some(1), 1), -1);
}
