//! Ready queues of the scheduler: a stride queue that hands out the task with
//! the smallest stride, and a first-in first-out queue.
use vstd::prelude::*;
use vstd::multiset::Multiset;
use std::collections::VecDeque;
use std::sync::Arc;
use crate::task::TaskControlBlock;

verus! {

broadcast use vstd::seq_lib::group_to_multiset_ensures;

#[allow(unused)]
trait TaskManager {
    fn fetch(&mut self) -> Option<Arc<TaskControlBlock>>;

    fn add(&mut self, task: Arc<TaskControlBlock>);
}

/// Ready queue of the stride scheduler.
pub struct TaskManagerHeap {
    /// The tasks that are ready to run, in no particular order
    ready_queue: Vec<Arc<TaskControlBlock>>,
}

impl TaskManagerHeap {
    /// The queued tasks, in the order in which they are stored.
    pub closed spec fn tasks(&self) -> Seq<Arc<TaskControlBlock>> {
        self.ready_queue@
    }

    /// The queued tasks.
    pub open spec fn queued(&self) -> Multiset<Arc<TaskControlBlock>> {
        self.tasks().to_multiset()
    }

    ///Creat an empty TaskManager
    pub fn new() -> (r: Self)
        ensures
            r.queued() == Multiset::<Arc<TaskControlBlock>>::empty(),
    {
        let r = Self { ready_queue: Vec::new() };
        assert(r.tasks() =~= Seq::<Arc<TaskControlBlock>>::empty());
        r
    }

    /// Add a task to the queue.
    pub fn add(&mut self, task: Arc<TaskControlBlock>)
        ensures
            final(self).queued() == old(self).queued().insert(task),
    {
        self.ready_queue.push(task);
    }

    /// Take out a task with the smallest stride; `None` when the queue is empty.
    pub fn fetch(&mut self) -> (r: Option<Arc<TaskControlBlock>>)
        ensures
            match r {
                None => old(self).queued().len() == 0 && final(self).queued() == old(self).queued(),
                Some(t) => {
                    &&& old(self).queued().count(t) > 0
                    &&& final(self).queued() == old(self).queued().remove(t)
                    &&& forall|u: Arc<TaskControlBlock>|
                        old(self).queued().count(u) > 0 ==> (*t).stride() <= (*u).stride()
                },
            },
    {
        let n = self.ready_queue.len();
        if n == 0 {
            return None;
        }
        let mut best: usize = 0;
        let mut i: usize = 1;
        while i < n
            invariant
                n == self.ready_queue@.len(),
                0 <= best < i <= n,
                forall|j: int|
                    0 <= j < i ==> (*self.ready_queue@[best as int]).stride() <= (
                    *#[trigger] self.ready_queue@[j]).stride(),
            decreases n - i,
        {
            if self.ready_queue[i].get_stride() < self.ready_queue[best].get_stride() {
                best = i;
            }
            i += 1;
        }
        let ghost q = self.ready_queue@;
        let t = self.ready_queue.remove(best);
        proof {
            assert(q.contains(t));
            assert forall|u: Arc<TaskControlBlock>| q.to_multiset().count(u) > 0 implies (*t).stride()
                <= (*u).stride() by {
                assert(q.contains(u));
            }
        }
        Some(t)
    }
}

/// Ready queue of the first-in first-out scheduler.
pub struct TaskManagerDeque {
    ready_queue: VecDeque<Arc<TaskControlBlock>>,
}

/// A simple FIFO scheduler.
impl TaskManagerDeque {
    /// The queued tasks, oldest first.
    pub closed spec fn tasks(&self) -> Seq<Arc<TaskControlBlock>> {
        self.ready_queue@
    }

    ///Creat an empty TaskManager
    pub fn new() -> (r: Self)
        ensures
            r.tasks() == Seq::<Arc<TaskControlBlock>>::empty(),
    {
        Self { ready_queue: VecDeque::new() }
    }

    /// Add process back to ready queue
    pub fn add(&mut self, task: Arc<TaskControlBlock>)
        ensures
            final(self).tasks() == old(self).tasks().push(task),
    {
        self.ready_queue.push_back(task);
    }

    /// Take a process out of the ready queue
    pub fn fetch(&mut self) -> (r: Option<Arc<TaskControlBlock>>)
        ensures
            match r {
                None => old(self).tasks().len() == 0 && final(self).tasks() == old(self).tasks(),
                Some(t) => {
                    &&& old(self).tasks().len() > 0
                    &&& t == old(self).tasks()[0]
                    &&& final(self).tasks() == old(self).tasks().drop_first()
                },
            },
    {
        self.ready_queue.pop_front()
    }
}

impl TaskManager for TaskManagerHeap {
    fn add(&mut self, task: Arc<TaskControlBlock>)
        ensures
            final(self).queued() == old(self).queued().insert(task),
    {
        TaskManagerHeap::add(self, task);
    }

    fn fetch(&mut self) -> (r: Option<Arc<TaskControlBlock>>)
        ensures
            match r {
                None => old(self).queued().len() == 0 && final(self).queued() == old(self).queued(),
                Some(t) => {
                    &&& old(self).queued().count(t) > 0
                    &&& final(self).queued() == old(self).queued().remove(t)
                    &&& forall|u: Arc<TaskControlBlock>|
                        old(self).queued().count(u) > 0 ==> (*t).stride() <= (*u).stride()
                },
            },
    {
        TaskManagerHeap::fetch(self)
    }
}

impl TaskManager for TaskManagerDeque {
    /// Add process back to ready queue
    fn add(&mut self, task: Arc<TaskControlBlock>)
        ensures
            final(self).tasks() == old(self).tasks().push(task),
    {
        TaskManagerDeque::add(self, task);
    }

    /// Take a process out of the ready queue
    fn fetch(&mut self) -> (r: Option<Arc<TaskControlBlock>>)
        ensures
            match r {
                None => old(self).tasks().len() == 0 && final(self).tasks() == old(self).tasks(),
                Some(t) => {
                    &&& old(self).tasks().len() > 0
                    &&& t == old(self).tasks()[0]
                    &&& final(self).tasks() == old(self).tasks().drop_first()
                },
            },
    {
        TaskManagerDeque::fetch(self)
    }
}

} // verus!
