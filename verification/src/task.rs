//! Types related to task management: stride-scheduling data and the task
//! control block.
use vstd::prelude::*;
use crate::config::{BIG_STRIDE, PRIORITY};

verus! {

/// `a + b`, wrapped around at `usize::MAX + 1`.
pub open spec fn wrapped_sum(a: usize, b: usize) -> usize {
    if a + b > usize::MAX {
        (a + b - (usize::MAX + 1)) as usize
    } else {
        (a + b) as usize
    }
}

/// Stride-scheduling data of a task: its priority, the pass derived from it,
/// and the stride accumulated so far.
#[derive(Clone, Copy)]
pub struct Pass {
    pass: usize,
    priority: usize,
    stride: usize,
}

impl Pass {
    /// The amount added to the stride at each scheduling.
    pub closed spec fn pass_value(self) -> usize {
        self.pass
    }

    /// The priority.
    pub closed spec fn priority_value(self) -> usize {
        self.priority
    }

    /// The accumulated stride.
    pub closed spec fn stride_value(self) -> usize {
        self.stride
    }

    /// Scheduling data for a task of priority `priority`, with stride 0.
    pub fn new(priority: usize) -> (r: Self)
        requires
            priority != 0,
        ensures
            r.pass_value() == BIG_STRIDE / priority,
            r.priority_value() == priority,
            r.stride_value() == 0,
    {
        Self { pass: BIG_STRIDE / priority, priority, stride: 0 }
    }

    /// get stride
    pub fn get_stride(&self) -> (r: usize)
        ensures
            r == self.stride_value(),
    {
        self.stride
    }

    /// get pass for stride
    pub fn get_pass(&self) -> (r: usize)
        ensures
            r == self.pass_value(),
    {
        self.pass
    }

    /// get priority
    pub fn get_priority(&self) -> (r: usize)
        ensures
            r == self.priority_value(),
    {
        self.priority
    }

    /// Set the priority; the pass becomes `BIG_STRIDE / priority` and the stride is kept.
    pub fn set_priority(&mut self, priority: usize)
        requires
            priority != 0,
        ensures
            final(self).pass_value() == BIG_STRIDE / priority,
            final(self).priority_value() == priority,
            final(self).stride_value() == old(self).stride_value(),
    {
        self.pass = BIG_STRIDE / priority;
        self.priority = priority
    }

    /// Advance the stride by the pass, wrapping around at `usize::MAX + 1`.
    pub fn add_stride(&mut self)
        ensures
            final(self).stride_value() == wrapped_sum(old(self).stride_value(), old(self).pass_value()),
            final(self).pass_value() == old(self).pass_value(),
            final(self).priority_value() == old(self).priority_value(),
    {
        self.stride = self.stride.wrapping_add(self.pass);
    }
}

impl Default for Pass {
    fn default() -> (r: Self)
        ensures
            r.pass_value() == BIG_STRIDE / PRIORITY,
            r.priority_value() == PRIORITY,
            r.stride_value() == 0,
    {
        Self { pass: BIG_STRIDE / PRIORITY, priority: PRIORITY, stride: 0 }
    }
}

/// The execution status of the current process
#[derive(Copy, Clone, PartialEq, Eq, Structural, Debug)]
pub enum TaskStatus {
    /// ready to run
    Ready,
    /// running
    Running,
    /// blocked
    Blocked,
}

/// The mutable part of a task control block.
pub struct TaskControlBlockInner {
    /// Stride-scheduling data
    pub pass_data: Pass,
    /// Maintain the execution status of the current process
    pub task_status: TaskStatus,
    /// It is set when active exit or execution error occurs
    pub exit_code: Option<i32>,
}

impl TaskControlBlockInner {
    /// add stride
    pub fn add_stride(&mut self)
        ensures
            final(self).pass_data.stride_value() == wrapped_sum(
                old(self).pass_data.stride_value(),
                old(self).pass_data.pass_value(),
            ),
            final(self).pass_data.pass_value() == old(self).pass_data.pass_value(),
            final(self).pass_data.priority_value() == old(self).pass_data.priority_value(),
            final(self).task_status == old(self).task_status,
            final(self).exit_code == old(self).exit_code,
    {
        self.pass_data.add_stride();
    }

    /// Set the priority; the stride is kept.
    pub fn set_priority(&mut self, priority: usize)
        requires
            priority != 0,
        ensures
            final(self).pass_data.pass_value() == BIG_STRIDE / priority,
            final(self).pass_data.priority_value() == priority,
            final(self).pass_data.stride_value() == old(self).pass_data.stride_value(),
            final(self).task_status == old(self).task_status,
            final(self).exit_code == old(self).exit_code,
    {
        self.pass_data.set_priority(priority);
    }

    #[allow(unused)]
    fn get_status(&self) -> (r: TaskStatus)
        ensures
            r == self.task_status,
    {
        self.task_status
    }
}

/// Task control block structure
pub struct TaskControlBlock {
    inner: TaskControlBlockInner,
}

impl TaskControlBlock {
    /// The mutable part of the block.
    pub closed spec fn inner_view(&self) -> TaskControlBlockInner {
        self.inner
    }

    /// The stride of the task.
    pub open spec fn stride(&self) -> usize {
        self.inner_view().pass_data.stride_value()
    }

    /// A ready task with the default priority and stride 0.
    pub fn new() -> (r: Self)
        ensures
            r.inner_view().pass_data.pass_value() == BIG_STRIDE / PRIORITY,
            r.inner_view().pass_data.priority_value() == PRIORITY,
            r.stride() == 0,
            r.inner_view().task_status == TaskStatus::Ready,
            r.inner_view().exit_code == None::<i32>,
    {
        Self {
            inner: TaskControlBlockInner {
                pass_data: Pass::default(),
                task_status: TaskStatus::Ready,
                exit_code: None,
            },
        }
    }

    /// Get the mutable reference of the inner TCB
    pub fn inner_exclusive_access(&mut self) -> (r: &mut TaskControlBlockInner)
        ensures
            *r == old(self).inner_view(),
            final(self).inner_view() == *final(r),
    {
        &mut self.inner
    }

    /// get priority
    pub fn get_priority(&self) -> (r: usize)
        ensures
            r == self.inner_view().pass_data.priority_value(),
    {
        self.inner.pass_data.get_priority()
    }

    /// get current stride
    pub fn get_stride(&self) -> (r: usize)
        ensures
            r == self.stride(),
    {
        self.inner.pass_data.get_stride()
    }
}

} // verus!
