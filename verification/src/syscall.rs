//! The computing parts of the process-management system calls. What they read
//! from and write to the running task's address space is done by the caller.
use vstd::prelude::*;

verus! {

/// Seconds and microseconds of a point in time.
#[derive(Debug)]
pub struct TimeVal {
    pub sec: usize,
    pub usec: usize,
}

impl TimeVal {
    /// The time `us` microseconds after the epoch, split into whole seconds
    /// and the microseconds that remain.
    pub fn from_micros(us: usize) -> (r: TimeVal)
        ensures
            r.sec == us / 1_000_000,
            r.usec == us % 1_000_000,
            r.sec * 1_000_000 + r.usec == us,
    {
        TimeVal { sec: us / 1_000_000, usec: us % 1_000_000 }
    }
}

/// current task gives up resources for other tasks: the call answers 0
pub fn sys_yield() -> (r: isize)
    ensures
        r == 0,
{
    0
}

/// change data segment size: the answer for the old break reported by the
/// memory set, or -1 when the change was refused
pub fn sys_sbrk(old_brk: Option<usize>) -> (r: isize)
    ensures
        r == match old_brk {
            Some(b) => b as isize,
            None => -1isize,
        },
{
    if let Some(old_brk) = old_brk {
        old_brk as isize
    } else {
        -1
    }
}

/// What a trace request asks of the running task's memory.
#[derive(Debug, Clone, Copy, PartialEq, Eq, Structural)]
pub enum TraceAction {
    /// Read the byte at this address
    Read(usize),
    /// Read the byte at this address, then write this value there
    ReadWrite(usize, u8),
    /// Count the calls of this system call
    CountSyscall(usize),
    /// An unknown request
    Reject,
}

/// The action that request `trace_request` asks for, with its address or
/// system call number `id` and the value `data` to write.
pub fn trace_action(trace_request: usize, id: usize, data: usize) -> (r: TraceAction)
    ensures
        r == match trace_request {
            0 => TraceAction::Read(id),
            1 => TraceAction::ReadWrite(id, data as u8),
            2 => TraceAction::CountSyscall(id),
            _ => TraceAction::Reject,
        },
{
    match trace_request {
        0 => TraceAction::Read(id),
        1 => TraceAction::ReadWrite(id, data as u8),
        2 => TraceAction::CountSyscall(id),
        _ => TraceAction::Reject,
    }
}

/// The answer of a trace request, given the byte read at the address (`None`
/// when the address is not mapped with the needed permission) and the number
/// of calls counted.
pub fn trace_reply(action: TraceAction, byte: Option<u8>, calls: usize) -> (r: isize)
    ensures
        r == match action {
            TraceAction::Read(_) => match byte {
                Some(b) => b as isize,
                None => -1isize,
            },
            TraceAction::ReadWrite(_, _) => match byte {
                Some(_) => 0isize,
                None => -1isize,
            },
            TraceAction::CountSyscall(_) => calls as isize,
            TraceAction::Reject => -1isize,
        },
{
    match action {
        TraceAction::Read(_) => match byte {
            Some(b) => b as isize,
            None => -1,
        },
        TraceAction::ReadWrite(_, _) => match byte {
            Some(_) => 0,
            None => -1,
        },
        TraceAction::CountSyscall(_) => calls as isize,
        TraceAction::Reject => -1,
    }
}

} // verus!
