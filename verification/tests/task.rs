use os::config::{BIG_STRIDE, PRIORITY};
use os::manager::{TaskManagerDeque, TaskManagerHeap};
use os::task::{Pass, TaskControlBlock, TaskStatus};
use std::cmp::Ordering;
use std::sync::Arc;

fn task_with_stride(priority: usize, steps: usize) -> TaskControlBlock {
    let mut t = TaskControlBlock::new();
    t.inner_exclusive_access().set_priority(priority);
    for _ in 0..steps {
        t.inner_exclusive_access().add_stride();
    }
    t
}

#[test]
fn default_pass_uses_default_priority() {
    let p = Pass::default();
    assert_eq!(p.get_priority(), PRIORITY);
    assert_eq!(p.get_pass(), BIG_STRIDE / PRIORITY);
    assert_eq!(p.get_stride(), 0);
}

#[test]
fn set_priority_recomputes_pass_and_keeps_stride() {
    let mut p = Pass::new(4);
    assert_eq!(p.get_pass(), BIG_STRIDE / 4);
    p.add_stride();
    assert_eq!(p.get_stride(), BIG_STRIDE / 4);
    p.set_priority(3);
    assert_eq!(p.get_priority(), 3);
    assert_eq!(p.get_pass(), BIG_STRIDE / 3);
    assert_eq!(p.get_stride(), BIG_STRIDE / 4);
    p.add_stride();
    assert_eq!(p.get_stride(), BIG_STRIDE / 4 + BIG_STRIDE / 3);
}

#[test]
fn stride_wraps_around() {
    let mut p = Pass::new(1);
    let steps = usize::MAX / BIG_STRIDE + 1;
    for _ in 0..steps {
        p.add_stride();
    }
    assert_eq!(p.get_stride(), BIG_STRIDE.wrapping_mul(steps));
    assert!(p.get_stride() < BIG_STRIDE);
}

#[test]
fn new_task_is_ready() {
    let mut t = TaskControlBlock::new();
    assert_eq!(t.get_priority(), PRIORITY);
    assert_eq!(t.get_stride(), 0);
    let inner = t.inner_exclusive_access();
    assert!(inner.task_status == TaskStatus::Ready);
    assert_eq!(inner.exit_code, None);
    inner.task_status = TaskStatus::Running;
    inner.exit_code = Some(3);
    assert!(t.inner_exclusive_access().task_status == TaskStatus::Running);
    assert_eq!(t.inner_exclusive_access().exit_code, Some(3));
}

#[test]
fn tasks_compare_in_reverse_stride_order() {
    let a = task_with_stride(2, 1);
    let b = task_with_stride(2, 2);
    assert!(a > b);
    assert!(b < a);
    assert_eq!(a.partial_cmp(&b), Some(Ordering::Greater));
    let c = task_with_stride(4, 2);
    assert!(a == c);
    assert!(a != b);
}

#[test]
fn heap_hands_out_smallest_stride_first() {
    let mut m = TaskManagerHeap::new();
    assert!(m.fetch().is_none());
    m.add(Arc::new(task_with_stride(2, 3)));
    m.add(Arc::new(task_with_stride(2, 1)));
    m.add(Arc::new(task_with_stride(2, 2)));
    assert_eq!(m.fetch().unwrap().get_stride(), BIG_STRIDE / 2);
    assert_eq!(m.fetch().unwrap().get_stride(), 2 * (BIG_STRIDE / 2));
    assert_eq!(m.fetch().unwrap().get_stride(), 3 * (BIG_STRIDE / 2));
    assert!(m.fetch().is_none());
}

#[test]
fn heap_returns_the_only_task() {
    let mut m = TaskManagerHeap::new();
    let t = Arc::new(task_with_stride(5, 2));
    m.add(t.clone());
    let got = m.fetch().unwrap();
    assert!(Arc::ptr_eq(&got, &t));
    assert!(m.fetch().is_none());
}

#[test]
fn deque_is_first_in_first_out() {
    let mut m = TaskManagerDeque::new();
    assert!(m.fetch().is_none());
    m.add(Arc::new(task_with_stride(2, 3)));
    m.add(Arc::new(task_with_stride(2, 1)));
    assert_eq!(m.fetch().unwrap().get_stride(), 3 * (BIG_STRIDE / 2));
    assert_eq!(m.fetch().unwrap().get_stride(), BIG_STRIDE / 2);
    assert!(m.fetch().is_none());
}
