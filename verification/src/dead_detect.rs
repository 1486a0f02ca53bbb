//! Deadlock avoidance for mutexes and semaphores by the banker's safety check.
//!
//! The detector keeps, for every resource it knows, how many units are
//! available, and for every thread how many units of each resource it holds
//! (`alloc`) and has asked for so far (`need`). A request is granted only when
//! the state that granting it leaves behind passes the safety check.
use vstd::prelude::*;
use crate::dead_detect_model::{
    DetectorView, count_false, zeros, same_kind, flagged_units, marks, prefix_units,
    lemma_first_entry, lemma_first_id, lemma_row_changed, lemma_count_false_all,
    lemma_count_false_none, lemma_count_false_update, lemma_flagged_none, lemma_flagged_set,
    lemma_flagged_mono, lemma_flagged_all, lemma_prefix_push, lemma_prefix_as_marks,
    lemma_identity_order, lemma_stuck_is_unsafe, lemma_held_units_update,
};

verus! {

/// Error code returned when a request is refused to avoid a deadlock.
pub const DEAD: isize = -0xdead;

/// Resource Type
#[derive(Debug, Clone, Copy, PartialEq, Eq, Structural)]
pub enum ResourceType {
    /// Mutex
    Mutex,
    /// Semaphore, with its initial count
    Semaphore(usize),
}

/// The banker's tables of a detector.
#[derive(Debug)]
pub struct DeadDetectorImpl {
    // Maps Resource ID (for mutex or semaphore) to internal resource index
    resource_map: Vec<(usize, ResourceType)>,
    avail: Vec<usize>,  // m (available resources)
    alloc: Vec<Vec<usize>>,  // n*m (allocated resources per thread)
    need: Vec<Vec<usize>>,  // n*m (needed resources per thread)
    max: Vec<usize>,  // m (max resources available)
}

impl View for DeadDetectorImpl {
    type V = DetectorView;

    closed spec fn view(&self) -> DetectorView {
        DetectorView {
            resources: self.resource_map@,
            avail: self.avail@,
            alloc: self.alloc@.map_values(|row: Vec<usize>| row@),
            need: self.need@.map_values(|row: Vec<usize>| row@),
            max: self.max@,
        }
    }
}

impl DeadDetectorImpl {
    /// The tables have a consistent shape.
    pub open spec fn wf(&self) -> bool {
        self@.wf()
    }

    /// An empty detector: no resource and no thread.
    pub fn new() -> (r: Self)
        ensures
            r.wf(),
            r@.resources.len() == 0,
            r@.threads() == 0,
    {
        let r = DeadDetectorImpl {
            resource_map: Vec::new(),
            avail: Vec::new(),
            alloc: Vec::new(),
            need: Vec::new(),
            max: Vec::new(),
        };
        assert(r@.alloc =~= Seq::<Seq<usize>>::empty());
        assert(r@.need =~= Seq::<Seq<usize>>::empty());
        r
    }

    // Find the type of an existing resource by ID
    fn find_resource_type(&self, res_id: usize) -> (r: Result<ResourceType, isize>)
        requires
            self.wf(),
        ensures
            match r {
                Ok(t) => self@.has_id(res_id) && t == self@.resources[self@.id_index(res_id)].1,
                Err(e) => !self@.has_id(res_id) && e == -1,
            },
    {
        let mut i: usize = 0;
        while i < self.resource_map.len()
            invariant
                0 <= i <= self.resource_map@.len(),
                forall|k: int| 0 <= k < i ==> (#[trigger] self.resource_map@[k]).0 != res_id,
            decreases self.resource_map@.len() - i,
        {
            let (id, res_type) = self.resource_map[i];
            if id == res_id {
                proof {
                    assert(self@.is_first_id(res_id, i as int));
                    let c = self@.id_index(res_id);
                    assert(self@.is_first_id(res_id, c));
                    assert(c == i) by {
                        if c < i {
                            assert(self@.resources[c].0 != res_id);
                        } else if c > i {
                            assert(self@.resources[i as int].0 != res_id);
                        }
                    }
                }
                return Ok(res_type);
            }
            i += 1;
        }
        Err(-1)
    }

    // Find the internal index of a resource or add it if it doesn't exist
    fn get_resource_index(&mut self, res_id: usize, res_type: ResourceType) -> (index: usize)
        requires
            old(self).wf(),
        ensures
            final(self).wf(),
            (final(self)@, index as int) == old(self)@.with_entry(res_id, res_type),
            index < final(self)@.res_count(),
            final(self)@.resources[index as int].0 == res_id,
            final(self)@.threads() == old(self)@.threads(),
    {
        let mut i: usize = 0;
        while i < self.resource_map.len()
            invariant
                *self == *old(self),
                self.wf(),
                0 <= i <= self.resource_map@.len(),
                forall|k: int|
                    0 <= k < i ==> !((#[trigger] self.resource_map@[k]).0 == res_id && same_kind(
                        self.resource_map@[k].1,
                        res_type,
                    )),
            decreases self.resource_map@.len() - i,
        {
            let (id, tp) = self.resource_map[i];
            if id == res_id {
                let found = match (tp, res_type) {
                    (ResourceType::Mutex, ResourceType::Mutex) => true,
                    (ResourceType::Semaphore(_), ResourceType::Semaphore(_)) => true,
                    _ => false,
                };
                if found {
                    proof {
                        assert(self@.is_first_entry(res_id, res_type, i as int));
                        let c = self@.entry_index(res_id, res_type);
                        assert(self@.is_first_entry(res_id, res_type, c));
                        assert(c == i) by {
                            if c < i {
                                assert(!(self@.resources[c].0 == res_id && same_kind(
                                    self@.resources[c].1,
                                    res_type,
                                )));
                            } else if c > i {
                                assert(!(self@.resources[i as int].0 == res_id && same_kind(
                                    self@.resources[i as int].1,
                                    res_type,
                                )));
                            }
                        }
                    }
                    return i;
                }
            }
            i += 1;
        }
        assert(!old(self)@.has_entry(res_id, res_type));

        // Not found, add new resource
        let index = self.resource_map.len();
        self.resource_map.push((res_id, res_type));

        self.avail.push(0);
        self.max.push(0);

        let ghost old_alloc = self.alloc@;
        let mut t: usize = 0;
        while t < self.alloc.len()
            invariant
                self.alloc@.len() == old_alloc.len(),
                old_alloc == old(self).alloc@,
                self.need == old(self).need,
                self.resource_map@ == old(self).resource_map@.push((res_id, res_type)),
                self.avail@ == old(self).avail@.push(0),
                self.max@ == old(self).max@.push(0),
                0 <= t <= old_alloc.len(),
                forall|tt: int| 0 <= tt < t ==> #[trigger] self.alloc@[tt]@ == old_alloc[tt]@.push(0),
                forall|tt: int| t <= tt < old_alloc.len() ==> #[trigger] self.alloc@[tt] == old_alloc[tt],
            decreases old_alloc.len() - t,
        {
            self.alloc[t].push(0);
            t += 1;
        }
        let ghost old_need = self.need@;
        let mut t: usize = 0;
        while t < self.need.len()
            invariant
                self.need@.len() == old_need.len(),
                old_need == old(self).need@,
                self.alloc@.len() == old_alloc.len(),
                forall|tt: int| 0 <= tt < old_alloc.len() ==> #[trigger] self.alloc@[tt]@ == old_alloc[tt]@.push(0),
                old_alloc == old(self).alloc@,
                self.resource_map@ == old(self).resource_map@.push((res_id, res_type)),
                self.avail@ == old(self).avail@.push(0),
                self.max@ == old(self).max@.push(0),
                0 <= t <= old_need.len(),
                forall|tt: int| 0 <= tt < t ==> #[trigger] self.need@[tt]@ == old_need[tt]@.push(0),
                forall|tt: int| t <= tt < old_need.len() ==> #[trigger] self.need@[tt] == old_need[tt],
            decreases old_need.len() - t,
        {
            self.need[t].push(0);
            t += 1;
        }
        proof {
            let g = old(self)@.grown(res_id, res_type);
            assert(old_alloc == old(self).alloc@);
            assert(old_need == old(self).need@);
            assert forall|tt: int| 0 <= tt < g.alloc.len() implies #[trigger] self@.alloc[tt] == g.alloc[tt] by {
                assert(self@.alloc[tt] == self.alloc@[tt]@);
            }
            assert forall|tt: int| 0 <= tt < g.need.len() implies #[trigger] self@.need[tt] == g.need[tt] by {
                assert(self@.need[tt] == self.need@[tt]@);
            }
            assert(self@.alloc =~= g.alloc);
            assert(self@.need =~= g.need);
            assert(self@ =~= g);
            assert forall|i: int, j: int|
                0 <= i < self@.need.len() && 0 <= j < self@.resources.len() implies #[trigger] self@.need[i][j]
                < usize::MAX by {
                if j < old(self)@.resources.len() {
                    assert(self@.need[i][j] == old(self)@.need[i][j]);
                }
            }
        }
        index
    }

    /// Register resource `res_id`, or reset it if an entry of the same kind
    /// exists: its available units and its maximum become the unit count of `res`.
    pub fn add_resource(&mut self, res_id: usize, res: ResourceType)
        requires
            old(self).wf(),
        ensures
            final(self).wf(),
            final(self)@ == old(self)@.registered(res_id, res),
    {
        let count = match res {
            ResourceType::Mutex => 1,
            ResourceType::Semaphore(count) => count,
        };

        proof {
            if old(self)@.has_entry(res_id, res) {
                lemma_first_entry(old(self)@, res_id, res);
            }
        }
        let internal_idx = self.get_resource_index(res_id, res);
        self.avail.set(internal_idx, count);
        self.max.set(internal_idx, count);
        assert(self@ =~= old(self)@.registered(res_id, res));
    }

    /// Make sure thread `tid` has a row, adding rows of zeros as needed.
    pub fn add_thread(&mut self, tid: usize)
        requires
            old(self).wf(),
            tid < usize::MAX,
        ensures
            final(self).wf(),
            final(self)@ == old(self)@.with_thread(tid),
    {
        let ghost n0 = self.alloc@.len();
        let ghost m = self.avail@.len();
        while self.alloc.len() <= tid
            invariant
                self.wf(),
                n0 == old(self)@.threads(),
                m == old(self)@.res_count(),
                n0 <= self.alloc@.len(),
                self.alloc@.len() <= n0 || self.alloc@.len() <= tid + 1,
                self@ == (DetectorView {
                    alloc: old(self)@.alloc + Seq::new((self.alloc@.len() - n0) as nat, |i: int| zeros(m)),
                    need: old(self)@.need + Seq::new((self.alloc@.len() - n0) as nat, |i: int| zeros(m)),
                    ..old(self)@
                }),
            decreases tid + 1 - self.alloc@.len(),
        {
            let ghost before = self@;
            let ghost before_alloc = self.alloc@;
            let ghost before_need = self.need@;
            let resource_count = self.avail.len();
            let alloc_vec: Vec<usize> = vec![0; resource_count];
            self.alloc.push(alloc_vec);

            let need_vec: Vec<usize> = vec![0; resource_count];
            self.need.push(need_vec);
            proof {
                assert(alloc_vec@ =~= zeros(m));
                assert(need_vec@ =~= zeros(m));
                assert forall|tt: int| 0 <= tt < self@.alloc.len() implies #[trigger] self@.alloc[tt]
                    == before.alloc.push(zeros(m))[tt] by {
                    assert(self@.alloc[tt] == self.alloc@[tt]@);
                    if tt < before_alloc.len() {
                        assert(self.alloc@[tt] == before_alloc[tt]);
                        assert(before.alloc[tt] == before_alloc[tt]@);
                    }
                }
                assert forall|tt: int| 0 <= tt < self@.need.len() implies #[trigger] self@.need[tt]
                    == before.need.push(zeros(m))[tt] by {
                    assert(self@.need[tt] == self.need@[tt]@);
                    if tt < before_need.len() {
                        assert(self.need@[tt] == before_need[tt]);
                        assert(before.need[tt] == before_need[tt]@);
                    }
                }
                assert(self@.alloc =~= before.alloc.push(zeros(m)));
                assert(self@.need =~= before.need.push(zeros(m)));
                let k = (self.alloc@.len() - n0) as nat;
                assert(self@.alloc =~= old(self)@.alloc + Seq::new(k, |i: int| zeros(m)));
                assert(self@.need =~= old(self)@.need + Seq::new(k, |i: int| zeros(m)));
            }
        }
        proof {
            let k = (self.alloc@.len() - n0) as nat;
            if tid < n0 {
                assert(self@.alloc =~= old(self)@.alloc);
                assert(self@.need =~= old(self)@.need);
            }
            assert(self@ =~= old(self)@.with_thread(tid));
        }
    }

    // Ensure a thread exists in our matrices
    fn ensure_thread(&mut self, tid: usize)
        requires
            old(self).wf(),
            tid < usize::MAX,
        ensures
            final(self).wf(),
            final(self)@ == old(self)@.with_thread(tid),
    {
        if tid >= self.alloc.len() {
            self.add_thread(tid);
        }
    }

    /// Thread `tid` gives back one unit of resource `res_id`.
    pub fn free_resource(&mut self, tid: usize, res_id: usize) -> (r: Result<(), isize>)
        requires
            old(self).wf(),
            old(self)@.release_fits(tid, res_id),
        ensures
            final(self).wf(),
            (final(self)@, r) == old(self)@.released(tid, res_id),
    {
        // Ensure thread exists
        if tid >= self.alloc.len() {
            return Err(-1);
        }

        let res_type = match self.find_resource_type(res_id) {
            Ok(t) => t,
            Err(e) => return Err(e),
        };
        proof {
            lemma_first_id(self@, res_id);
        }
        let internal_idx = self.get_resource_index(res_id, res_type);
        proof {
            assert(self.alloc@[tid as int]@ == self@.alloc[tid as int]);
        }

        if self.alloc[tid][internal_idx] < 1 {
            return Err(-1);
        }

        let a = self.avail[internal_idx] + 1;
        self.avail.set(internal_idx, a);
        let h = self.alloc[tid][internal_idx] - 1;
        self.alloc[tid].set(internal_idx, h);
        proof {
            let e = old(self)@.released(tid, res_id).0;
            assert forall|t: int| 0 <= t < e.alloc.len() implies #[trigger] self@.alloc[t] == e.alloc[t] by {
                assert(self@.alloc[t] == self.alloc@[t]@);
                assert(old(self)@.alloc[t] == old(self).alloc@[t]@);
            }
            assert(self@.alloc =~= e.alloc);
            assert(self@ =~= e);
        }
        Ok(())
    }

    /// Thread `tid` gives back every unit it holds; its rows are cleared.
    pub fn remove_thread(&mut self, tid: usize)
        requires
            old(self).wf(),
            old(self)@.return_fits(tid),
        ensures
            final(self).wf(),
            final(self)@ == old(self)@.without_thread(tid),
    {
        if tid < self.alloc.len() {
            let ghost m = self.avail@.len();
            proof {
                assert(self.alloc@[tid as int]@ == self@.alloc[tid as int]);
                assert(self.need@[tid as int]@ == self@.need[tid as int]);
            }
            let mut internal_idx: usize = 0;
            while internal_idx < self.avail.len()
                invariant
                    tid < old(self).alloc@.len(),
                    m == old(self).avail@.len(),
                    old(self)@.wf(),
                    old(self)@.return_fits(tid),
                    0 <= internal_idx <= m,
                    self.resource_map == old(self).resource_map,
                    self.max == old(self).max,
                    self.avail@.len() == m,
                    self.alloc@.len() == old(self).alloc@.len(),
                    self.need@.len() == old(self).need@.len(),
                    forall|t: int|
                        0 <= t < self.alloc@.len() && t != tid ==> #[trigger] self.alloc@[t] == old(self).alloc@[t],
                    forall|t: int|
                        0 <= t < self.need@.len() && t != tid ==> #[trigger] self.need@[t] == old(self).need@[t],
                    self.alloc@[tid as int]@.len() == m,
                    self.need@[tid as int]@.len() == m,
                    forall|j: int|
                        0 <= j < m ==> #[trigger] self.alloc@[tid as int]@[j] == if j < internal_idx {
                            0usize
                        } else {
                            old(self)@.alloc[tid as int][j]
                        },
                    forall|j: int|
                        0 <= j < m ==> #[trigger] self.need@[tid as int]@[j] == if j < internal_idx {
                            0usize
                        } else {
                            old(self)@.need[tid as int][j]
                        },
                    forall|j: int|
                        0 <= j < m ==> #[trigger] self.avail@[j] == if j < internal_idx {
                            (old(self)@.avail[j] + old(self)@.alloc[tid as int][j]) as usize
                        } else {
                            old(self)@.avail[j]
                        },
                decreases m - internal_idx,
            {
                assert(self.alloc@[tid as int]@[internal_idx as int] == old(self)@.alloc[tid as int][internal_idx as int]);
                let a = self.avail[internal_idx] + self.alloc[tid][internal_idx];
                self.avail.set(internal_idx, a);

                // Clear
                self.alloc[tid].set(internal_idx, 0);
                self.need[tid].set(internal_idx, 0);
                internal_idx += 1;
            }
            proof {
                let e = old(self)@.without_thread(tid);
                assert forall|t: int| 0 <= t < e.alloc.len() implies #[trigger] self@.alloc[t] == e.alloc[t] by {
                    assert(self@.alloc[t] == self.alloc@[t]@);
                    assert(old(self)@.alloc[t] == old(self).alloc@[t]@);
                    if t == tid {
                        assert(self@.alloc[t] =~= e.alloc[t]);
                    }
                }
                assert forall|t: int| 0 <= t < e.need.len() implies #[trigger] self@.need[t] == e.need[t] by {
                    assert(self@.need[t] == self.need@[t]@);
                    assert(old(self)@.need[t] == old(self).need@[t]@);
                    if t == tid {
                        assert(self@.need[t] =~= e.need[t]);
                    }
                }
                assert(self@.alloc =~= e.alloc);
                assert(self@.need =~= e.need);
                assert(self@.avail =~= e.avail);
                assert(self@ =~= e);
            }
        }
    }

    /// The banker's safety check: whether the threads can finish one after
    /// another, each once what it still asks for is covered by the available
    /// units and what the threads finished before it give back.
    pub fn is_safe(&self) -> (r: bool)
        requires
            self.wf(),
            self@.check_fits(),
        ensures
            r == self@.safe(),
    {
        // Empty system is safe
        if self.alloc.len() == 0 || self.avail.len() == 0 {
            proof {
                lemma_identity_order(self@);
                assert(self@.can_finish_in(Seq::new(self@.alloc.len(), |i: int| i)));
            }
            return true;
        }
        // resource count
        let m = self.avail.len();
        // thread count
        let n = self.alloc.len();
        proof {
            assert forall|t: int| 0 <= t < n implies #[trigger] self.alloc@[t]@ == self@.alloc[t] by {}
            assert forall|t: int| 0 <= t < n implies #[trigger] self.need@[t]@ == self@.need[t] by {}
        }

        let mut work: Vec<usize> = Vec::new();
        let mut j: usize = 0;
        while j < m
            invariant
                m == self.avail@.len(),
                0 <= j <= m,
                work@ == self.avail@.subrange(0, j as int),
            decreases m - j,
        {
            work.push(self.avail[j]);
            j += 1;
        }
        assert(work@ =~= self.avail@);
        let mut finish: Vec<bool> = Vec::new();
        let mut t: usize = 0;
        while t < n
            invariant
                0 <= t <= n,
                finish@ == Seq::new(t as nat, |i: int| false),
            decreases n - t,
        {
            finish.push(false);
            t += 1;
            assert(finish@ =~= Seq::new(t as nat, |i: int| false));
        }
        let mut remain_need: Vec<Vec<usize>> = Vec::new();
        let mut tid: usize = 0;
        while tid < n
            invariant
                n == self.alloc@.len(),
                m == self.avail@.len(),
                self@.wf(),
                forall|t: int| 0 <= t < n ==> #[trigger] self.alloc@[t]@ == self@.alloc[t],
                forall|t: int| 0 <= t < n ==> #[trigger] self.need@[t]@ == self@.need[t],
                0 <= tid <= n,
                remain_need@.len() == tid,
                forall|t: int|
                    0 <= t < tid ==> (#[trigger] remain_need@[t])@.len() == m && forall|j: int|
                        0 <= j < m ==> #[trigger] remain_need@[t]@[j] == self@.need[t][j] - self@.alloc[t][j],
            decreases n - tid,
        {
            let mut row: Vec<usize> = Vec::new();
            let mut res_id: usize = 0;
            while res_id < m
                invariant
                    n == self.alloc@.len(),
                    m == self.avail@.len(),
                    self@.wf(),
                    0 <= tid < n,
                    self.alloc@[tid as int]@ == self@.alloc[tid as int],
                    self.need@[tid as int]@ == self@.need[tid as int],
                    0 <= res_id <= m,
                    row@.len() == res_id,
                    forall|j: int|
                        0 <= j < res_id ==> #[trigger] row@[j] == self@.need[tid as int][j] - self@.alloc[tid as int][j],
                decreases m - res_id,
            {
                assert(self@.alloc[tid as int][res_id as int] <= self@.need[tid as int][res_id as int]);
                row.push(self.need[tid][res_id] - self.alloc[tid][res_id]);
                res_id += 1;
            }
            remain_need.push(row);
            tid += 1;
        }

        // The threads in the order in which they are marked finished.
        let ghost mut order: Seq<int> = Seq::empty();
        proof {
            lemma_count_false_all(n as nat);
            assert forall|j: int| 0 <= j < m implies #[trigger] work@[j] == self@.avail[j] + flagged_units(
                self@.alloc,
                finish@,
                j,
                n as int,
            ) by {
                lemma_flagged_none(self@.alloc, finish@, j, n as int);
            }
            assert(finish@ =~= marks(order, 0, n as nat));
        }
        loop
            invariant
                n == self.alloc@.len(),
                m == self.avail@.len(),
                n > 0,
                m > 0,
                self@.wf(),
                self@.check_fits(),
                forall|t: int| 0 <= t < n ==> #[trigger] self.alloc@[t]@ == self@.alloc[t],
                remain_need@.len() == n,
                forall|t: int|
                    0 <= t < n ==> (#[trigger] remain_need@[t])@.len() == m && forall|j: int|
                        0 <= j < m ==> #[trigger] remain_need@[t]@[j] == self@.need[t][j] - self@.alloc[t][j],
                finish@.len() == n,
                work@.len() == m,
                forall|j: int|
                    0 <= j < m ==> #[trigger] work@[j] == self@.avail[j] + flagged_units(
                        self@.alloc,
                        finish@,
                        j,
                        n as int,
                    ),
                order.len() + count_false(finish@) == n,
                forall|k: int| 0 <= k < order.len() ==> 0 <= #[trigger] order[k] < n,
                forall|k1: int, k2: int|
                    0 <= k1 < order.len() && 0 <= k2 < order.len() && k1 != k2 ==> #[trigger] order[k1]
                        != #[trigger] order[k2],
                finish@ == marks(order, order.len() as int, n as nat),
                self@.can_finish_in(order),
            ensures
                finish@.len() == n,
                work@.len() == m,
                forall|j: int|
                    0 <= j < m ==> #[trigger] work@[j] == self@.avail[j] + flagged_units(
                        self@.alloc,
                        finish@,
                        j,
                        n as int,
                    ),
                order.len() + count_false(finish@) == n,
                forall|k: int| 0 <= k < order.len() ==> 0 <= #[trigger] order[k] < n,
                forall|k1: int, k2: int|
                    0 <= k1 < order.len() && 0 <= k2 < order.len() && k1 != k2 ==> #[trigger] order[k1]
                        != #[trigger] order[k2],
                finish@ == marks(order, order.len() as int, n as nat),
                self@.can_finish_in(order),
                forall|i: int| 0 <= i < n && !finish@[i] ==> !#[trigger] self@.covered_by(i, work@),
            decreases count_false(finish@),
        {
            let ghost c0 = count_false(finish@);
            let mut progress = false;
            let mut i: usize = 0;
            while i < n
                invariant
                    n == self.alloc@.len(),
                    m == self.avail@.len(),
                    self@.wf(),
                    self@.check_fits(),
                    forall|t: int| 0 <= t < n ==> #[trigger] self.alloc@[t]@ == self@.alloc[t],
                    remain_need@.len() == n,
                    forall|t: int|
                        0 <= t < n ==> (#[trigger] remain_need@[t])@.len() == m && forall|j: int|
                            0 <= j < m ==> #[trigger] remain_need@[t]@[j] == self@.need[t][j]
                                - self@.alloc[t][j],
                    finish@.len() == n,
                    work@.len() == m,
                    forall|j: int|
                        0 <= j < m ==> #[trigger] work@[j] == self@.avail[j] + flagged_units(
                            self@.alloc,
                            finish@,
                            j,
                            n as int,
                        ),
                    order.len() + count_false(finish@) == n,
                    forall|k: int| 0 <= k < order.len() ==> 0 <= #[trigger] order[k] < n,
                    forall|k1: int, k2: int|
                        0 <= k1 < order.len() && 0 <= k2 < order.len() && k1 != k2 ==> #[trigger] order[k1]
                            != #[trigger] order[k2],
                    finish@ == marks(order, order.len() as int, n as nat),
                    self@.can_finish_in(order),
                    0 <= i <= n,
                    progress ==> count_false(finish@) < c0,
                    !progress ==> count_false(finish@) == c0,
                    !progress ==> forall|x: int|
                        0 <= x < i && !finish@[x] ==> !#[trigger] self@.covered_by(x, work@),
                decreases n - i,
            {
                if !finish[i] {
                    let can_finish = covers(&remain_need[i], &work);
                    proof {
                        let row = remain_need@[i as int]@;
                        if can_finish {
                            assert forall|j: int| 0 <= j < m implies #[trigger] self@.need[i as int][j]
                                - self@.alloc[i as int][j] <= work@[j] by {
                                assert(row[j] <= work@[j]);
                            }
                        } else {
                            let j = choose|j: int| 0 <= j < work@.len() && !(#[trigger] row[j] <= work@[j]);
                            assert(!(self@.need[i as int][j] - self@.alloc[i as int][j] <= work@[j]));
                        }
                        assert(can_finish == self@.covered_by(i as int, work@));
                    }
                    if can_finish {
                        let ghost f = finish@;
                        let ghost f2 = f.update(i as int, true);
                        proof {
                            assert forall|j: int| 0 <= j < m implies work@[j] + self@.alloc[i as int][j]
                                <= usize::MAX by {
                                lemma_flagged_set(self@.alloc, f, i as int, j, n as int);
                                lemma_flagged_mono(self@.alloc, f2, Seq::new(n as nat, |x: int| true), j, n as int);
                                lemma_flagged_all(self@.alloc, j);
                                assert(self@.units(j) <= usize::MAX);
                            }
                        }
                        let ghost wb = work@;
                        add_into(&mut work, &self.alloc[i]);
                        finish.set(i, true);
                        proof {
                            let o = order;
                            let len = o.len() as int;
                            assert(!marks(o, len, n as nat)[i as int]);
                            assert forall|j: int| 0 <= j < m implies #[trigger] work@[j] == self@.avail[j]
                                + flagged_units(self@.alloc, finish@, j, n as int) by {
                                lemma_flagged_set(self@.alloc, f, i as int, j, n as int);
                            }
                            lemma_count_false_update(f, i as int);
                            order = o.push(i as int);
                            assert forall|k1: int, k2: int|
                                0 <= k1 < order.len() && 0 <= k2 < order.len() && k1 != k2 implies #[trigger] order[k1]
                                    != #[trigger] order[k2] by {
                                if k1 == len {
                                    if order[k2] == order[k1] {
                                        assert(o[k2] == i);
                                    }
                                } else if k2 == len {
                                    if order[k2] == order[k1] {
                                        assert(o[k1] == i);
                                    }
                                }
                            }
                            assert forall|x: int| 0 <= x < n implies #[trigger] marks(order, order.len() as int, n as nat)[x]
                                == finish@[x] by {
                                if x == i {
                                    assert(order[len] == x);
                                } else {
                                    if marks(order, order.len() as int, n as nat)[x] {
                                        let l = choose|l: int| 0 <= l < order.len() && order[l] == x;
                                        assert(l < len && o[l] == x);
                                    }
                                    if f[x] {
                                        let l = choose|l: int| 0 <= l < len && o[l] == x;
                                        assert(order[l] == x);
                                    }
                                }
                            }
                            assert(finish@ =~= marks(order, order.len() as int, n as nat));
                            assert forall|k: int, j: int|
                                0 <= k < order.len() && 0 <= j < m implies #[trigger] self@.need[order[k]][j]
                                    - self@.alloc[order[k]][j] <= self@.avail[j] + prefix_units(self@.alloc, order, j, k) by {
                                lemma_prefix_push(self@.alloc, o, i as int, j, k);
                                if k == len {
                                    lemma_prefix_as_marks(self@.alloc, o, j, len, n as nat);
                                    assert(flagged_units(self@.alloc, marks(o, len, n as nat), j, n as int)
                                        == flagged_units(self@.alloc, f, j, n as int));
                                    assert(wb[j] == self@.avail[j] + flagged_units(self@.alloc, f, j, n as int));
                                } else {
                                    assert(o[k] == order[k]);
                                    assert(self@.need[o[k]][j] - self@.alloc[o[k]][j] <= self@.avail[j] + prefix_units(self@.alloc, o, j, k));
                                }
                            }
                        }
                        progress = true;
                    }
                }
                i += 1;
            }
            if !progress {
                break;
            }
        }

        let mut i: usize = 0;
        while i < n
            invariant
                n == self.alloc@.len(),
                m == self.avail@.len(),
                self@.wf(),
                finish@.len() == n,
                work@.len() == m,
                forall|j: int|
                    0 <= j < m ==> #[trigger] work@[j] == self@.avail[j] + flagged_units(
                        self@.alloc,
                        finish@,
                        j,
                        n as int,
                    ),
                forall|x: int| 0 <= x < n && !finish@[x] ==> !#[trigger] self@.covered_by(x, work@),
                order.len() + count_false(finish@) == n,
                forall|k: int| 0 <= k < order.len() ==> 0 <= #[trigger] order[k] < n,
                forall|k1: int, k2: int|
                    0 <= k1 < order.len() && 0 <= k2 < order.len() && k1 != k2 ==> #[trigger] order[k1]
                        != #[trigger] order[k2],
                finish@ == marks(order, order.len() as int, n as nat),
                self@.can_finish_in(order),
                0 <= i <= n,
                forall|t: int| 0 <= t < i ==> #[trigger] finish@[t],
            decreases n - i,
        {
            if !finish[i] {
                proof {
                    lemma_stuck_is_unsafe(self@, finish@, work@);
                }
                return false;
            }
            i += 1;
        }
        proof {
            lemma_count_false_none(finish@);
            assert(self@.is_order(order));
        }
        true
    }

    /// Thread `tid` asks for one unit of resource `res_id`; the unit is granted
    /// only if the state it leaves is safe.
    pub fn alloc_resource(&mut self, tid: usize, res_id: usize) -> (r: Result<(), isize>)
        requires
            old(self).wf(),
            tid < usize::MAX,
            old(self)@.request_fits(tid, res_id),
        ensures
            final(self).wf(),
            (final(self)@, r) == old(self)@.requested(tid, res_id),
    {
        // Ensure thread exists
        self.ensure_thread(tid);
        let ghost s1 = self@;

        // Find the resource type from existing resources
        let res_type = match self.find_resource_type(res_id) {
            Ok(t) => t,
            Err(e) => return Err(e),
        };
        proof {
            lemma_first_id(self@, res_id);
        }
        let internal_idx = self.get_resource_index(res_id, res_type);
        let ghost idx = internal_idx as int;
        assert(self@ == s1);
        assert(self.need@[tid as int]@ == s1.need[tid as int]);

        // Update need
        match res_type {
            ResourceType::Mutex => {
                let ghost before = self.need@;
                self.need[tid].set(internal_idx, 1);
                proof {
                    lemma_row_changed(before, self.need@, tid as int);
                }
            },
            ResourceType::Semaphore(max) => {
                if self.need[tid][internal_idx] + 1 >= max {
                    return Err(DEAD);
                }
                let v = self.need[tid][internal_idx] + 1;
                let ghost before = self.need@;
                self.need[tid].set(internal_idx, v);
                proof {
                    lemma_row_changed(before, self.need@, tid as int);
                }
            },
        }
        let ghost s2 = self@;
        assert(s2 =~= match res_type {
            ResourceType::Mutex => s1.set_need(tid as int, idx, 1usize),
            ResourceType::Semaphore(_) => s1.set_need(tid as int, idx, (s1.need[tid as int][idx] + 1) as usize),
        });
        assert(old(self)@.grant_point(tid, res_id) == Some((s2, idx)) || self.avail[internal_idx as int] < 1);

        if self.avail[internal_idx] < 1 {
            return Err(DEAD);
        }

        // Simulate allocation
        let a = self.avail[internal_idx] - 1;
        self.avail.set(internal_idx, a);
        assert(self.alloc@[tid as int]@ == s2.alloc[tid as int]);
        let h = self.alloc[tid][internal_idx] + 1;
        let ghost before = self.alloc@;
        self.alloc[tid].set(internal_idx, h);
        proof {
            lemma_row_changed(before, self.alloc@, tid as int);
            assert(self@ =~= s2.granted(tid as int, idx));
            assert forall|j: int| 0 <= j < s2.avail.len() implies #[trigger] self@.units(j) == s2.units(j) by {
                lemma_held_units_update(s2.alloc, tid as int, self@.alloc[tid as int], j);
            }
        }

        // Check if allocation is safe
        if self.is_safe() {
            Ok(())
        } else {
            // restore
            let a = self.avail[internal_idx] + 1;
            self.avail.set(internal_idx, a);
            let h = self.alloc[tid][internal_idx] - 1;
            let ghost before = self.alloc@;
            self.alloc[tid].set(internal_idx, h);
            proof {
                lemma_row_changed(before, self.alloc@, tid as int);
                assert(self@.alloc[tid as int] =~= s2.alloc[tid as int]);
                assert(self@.alloc =~= s2.alloc);
                assert(self@.avail =~= s2.avail);
                assert(self@ =~= s2);
            }
            Err(DEAD)
        }
    }
}

/// Whether every entry of `row` is at most the entry of `work` at the same position.
fn covers(row: &Vec<usize>, work: &Vec<usize>) -> (r: bool)
    requires
        row@.len() == work@.len(),
    ensures
        r == forall|j: int| 0 <= j < work@.len() ==> #[trigger] row@[j] <= work@[j],
{
    let mut j: usize = 0;
    while j < work.len()
        invariant
            row@.len() == work@.len(),
            0 <= j <= work@.len(),
            forall|jj: int| 0 <= jj < j ==> #[trigger] row@[jj] <= work@[jj],
        decreases work@.len() - j,
    {
        if row[j] > work[j] {
            return false;
        }
        j += 1;
    }
    true
}

/// Add `row` to `work`, entry by entry.
fn add_into(work: &mut Vec<usize>, row: &Vec<usize>)
    requires
        row@.len() == old(work)@.len(),
        forall|j: int| 0 <= j < row@.len() ==> old(work)@[j] + #[trigger] row@[j] <= usize::MAX,
    ensures
        final(work)@.len() == old(work)@.len(),
        forall|j: int|
            0 <= j < row@.len() ==> #[trigger] final(work)@[j] == old(work)@[j] + row@[j],
{
    let mut j: usize = 0;
    while j < work.len()
        invariant
            row@.len() == old(work)@.len(),
            forall|jj: int| 0 <= jj < row@.len() ==> old(work)@[jj] + #[trigger] row@[jj] <= usize::MAX,
            work@.len() == old(work)@.len(),
            0 <= j <= work@.len(),
            forall|jj: int| 0 <= jj < j ==> #[trigger] work@[jj] == old(work)@[jj] + row@[jj],
            forall|jj: int| j <= jj < work@.len() ==> #[trigger] work@[jj] == old(work)@[jj],
        decreases work@.len() - j,
    {
        let v = work[j] + row[j];
        work.set(j, v);
        j += 1;
    }
}

/// DeadDetector
#[derive(Debug)]
pub struct DeadDetector {
    /// is enabled?
    pub enabled: bool,
    inner: DeadDetectorImpl,
}

impl DeadDetector {
    /// The detector's tables.
    pub closed spec fn tables(&self) -> DetectorView {
        self.inner@
    }

    /// The tables have a consistent shape.
    pub open spec fn wf(&self) -> bool {
        self.tables().wf()
    }

    /// Whether requests are answered by the safety check.
    pub closed spec fn is_enabled(&self) -> bool {
        self.enabled
    }

    /// Turn the safety check on or off; the tables are kept.
    pub fn set_enabled(&mut self, on: bool)
        ensures
            final(self).is_enabled() == on,
            final(self).tables() == old(self).tables(),
    {
        self.enabled = on;
    }

    /// new
    pub fn new() -> (r: Self)
        ensures
            r.wf(),
            !r.is_enabled(),
            r.tables().resources.len() == 0,
            r.tables().threads() == 0,
    {
        DeadDetector { enabled: false, inner: DeadDetectorImpl::new() }
    }

    /// add resource of mutex and semaphore
    pub fn add_resource(&mut self, id: usize, res: ResourceType)
        requires
            old(self).wf(),
        ensures
            final(self).wf(),
            final(self).is_enabled() == old(self).is_enabled(),
            final(self).tables() == old(self).tables().registered(id, res),
    {
        // always record in case
        self.inner.add_resource(id, res);
    }

    /// alloc resource and check safety; a disabled detector records the
    /// request the same way but always answers `Ok`.
    pub fn alloc_resource(&mut self, tid: usize, res_id: usize) -> (r: Result<(), isize>)
        requires
            old(self).wf(),
            tid < usize::MAX,
            old(self).tables().request_fits(tid, res_id),
        ensures
            final(self).wf(),
            final(self).is_enabled() == old(self).is_enabled(),
            final(self).tables() == old(self).tables().requested(tid, res_id).0,
            r == if old(self).is_enabled() {
                old(self).tables().requested(tid, res_id).1
            } else {
                Ok(())
            },
    {
        if self.enabled {
            return self.inner.alloc_resource(tid, res_id);
        } else {
            let _ = self.inner.alloc_resource(tid, res_id);
            Ok(())
        }
    }

    /// free resource; a disabled detector records the release the same way
    /// but always answers `Ok`.
    pub fn free_resource(&mut self, tid: usize, res_id: usize) -> (r: Result<(), isize>)
        requires
            old(self).wf(),
            old(self).tables().release_fits(tid, res_id),
        ensures
            final(self).wf(),
            final(self).is_enabled() == old(self).is_enabled(),
            final(self).tables() == old(self).tables().released(tid, res_id).0,
            r == if old(self).is_enabled() {
                old(self).tables().released(tid, res_id).1
            } else {
                Ok(())
            },
    {
        if self.enabled {
            return self.inner.free_resource(tid, res_id);
        } else {
            let _ = self.inner.free_resource(tid, res_id);
            Ok(())
        }
    }

    /// add thread
    pub fn add_thread(&mut self, tid: usize)
        requires
            old(self).wf(),
            tid < usize::MAX,
        ensures
            final(self).wf(),
            final(self).is_enabled() == old(self).is_enabled(),
            final(self).tables() == old(self).tables().with_thread(tid),
    {
        self.inner.add_thread(tid);
    }

    /// remove thread
    pub fn remove_thread(&mut self, tid: usize)
        requires
            old(self).wf(),
            old(self).tables().return_fits(tid),
        ensures
            final(self).wf(),
            final(self).is_enabled() == old(self).is_enabled(),
            final(self).tables() == old(self).tables().without_thread(tid),
    {
        self.inner.remove_thread(tid);
    }

    /// is safe: `None` when the detector is disabled.
    pub fn is_safe(&self) -> (r: Option<bool>)
        requires
            self.wf(),
            self.is_enabled() ==> self.tables().check_fits(),
        ensures
            r == if self.is_enabled() {
                Some(self.tables().safe())
            } else {
                None
            },
    {
        if self.enabled {
            Some(self.inner.is_safe())
        } else {
            None
        }
    }
}

impl Default for DeadDetector {
    fn default() -> (r: Self)
        ensures
            r.wf(),
            !r.is_enabled(),
            r.tables().resources.len() == 0,
            r.tables().threads() == 0,
    {
        DeadDetector::new()
    }
}

} // verus!
