//! The abstract state of a deadlock detector, the banker's safety condition
//! on it, and the laws that the detector's operations obey.
use vstd::prelude::*;
use crate::dead_detect::{ResourceType, DEAD};

verus! {

/// The number of units a resource of this type starts with.
pub open spec fn unit_count(res: ResourceType) -> usize {
    match res {
        ResourceType::Mutex => 1,
        ResourceType::Semaphore(count) => count,
    }
}

/// Whether two resource types are of the same kind (the semaphore counts may differ).
pub open spec fn same_kind(a: ResourceType, b: ResourceType) -> bool {
    match (a, b) {
        (ResourceType::Mutex, ResourceType::Mutex) => true,
        (ResourceType::Semaphore(_), ResourceType::Semaphore(_)) => true,
        _ => false,
    }
}

/// A row of `m` zeros.
pub open spec fn zeros(m: nat) -> Seq<usize> {
    Seq::new(m, |j: int| 0usize)
}

/// `i` is the first position in `rs` of an entry with identifier `id`.
pub open spec fn first_id_at(rs: Seq<(usize, ResourceType)>, id: usize, i: int) -> bool {
    &&& 0 <= i < rs.len()
    &&& rs[i].0 == id
    &&& forall|k: int| 0 <= k < i ==> (#[trigger] rs[k]).0 != id
}

/// The first position in `rs` of an entry with identifier `id`.
pub open spec fn first_id(rs: Seq<(usize, ResourceType)>, id: usize) -> int {
    choose|i: int| first_id_at(rs, id, i)
}

/// `i` is the first position in `rs` of an entry with identifier `id` and the kind of `kind`.
pub open spec fn first_entry_at(rs: Seq<(usize, ResourceType)>, id: usize, kind: ResourceType, i: int) -> bool {
    &&& 0 <= i < rs.len()
    &&& rs[i].0 == id
    &&& same_kind(rs[i].1, kind)
    &&& forall|k: int| 0 <= k < i ==> !((#[trigger] rs[k]).0 == id && same_kind(rs[k].1, kind))
}

/// The first position in `rs` of an entry with identifier `id` and the kind of `kind`.
pub open spec fn first_entry(rs: Seq<(usize, ResourceType)>, id: usize, kind: ResourceType) -> int {
    choose|i: int| first_entry_at(rs, id, kind, i)
}

/// The abstract state of a detector: one entry per resource in `resources`,
/// `avail` and `max`, and one row per thread in `alloc` and `need`.
#[verifier::ext_equal]
pub struct DetectorView {
    pub resources: Seq<(usize, ResourceType)>,
    pub avail: Seq<usize>,
    pub alloc: Seq<Seq<usize>>,
    pub need: Seq<Seq<usize>>,
    pub max: Seq<usize>,
}

impl DetectorView {
    /// Number of threads known to the detector.
    pub open spec fn threads(self) -> nat {
        self.alloc.len()
    }

    /// Number of resources known to the detector.
    pub open spec fn res_count(self) -> nat {
        self.resources.len()
    }

    /// The shape of the tables; no request count has reached `usize::MAX`; no
    /// thread holds more units than it has asked for; and a thread has asked
    /// for a mutex at most once.
    pub open spec fn wf(self) -> bool {
        let m = self.resources.len();
        &&& self.avail.len() == m
        &&& self.max.len() == m
        &&& self.need.len() == self.alloc.len()
        &&& forall|i: int| 0 <= i < self.alloc.len() ==> (#[trigger] self.alloc[i]).len() == m
        &&& forall|i: int| 0 <= i < self.need.len() ==> (#[trigger] self.need[i]).len() == m
        &&& forall|i: int, j: int|
            0 <= i < self.need.len() && 0 <= j < m ==> #[trigger] self.need[i][j] < usize::MAX
        &&& forall|i: int, j: int|
            0 <= i < self.need.len() && 0 <= j < m ==> self.alloc[i][j] <= #[trigger] self.need[i][j]
        &&& forall|i: int, j: int|
            0 <= i < self.need.len() && 0 <= j < m && self.resources[j].1 == ResourceType::Mutex
                ==> #[trigger] self.need[i][j] <= 1
    }

    /// Some resource has the identifier `id`.
    pub open spec fn has_id(self, id: usize) -> bool {
        exists|i: int| 0 <= i < self.resources.len() && (#[trigger] self.resources[i]).0 == id
    }

    /// `i` is the first position of a resource with identifier `id`.
    pub open spec fn is_first_id(self, id: usize, i: int) -> bool {
        first_id_at(self.resources, id, i)
    }

    /// The first position of a resource with identifier `id` (meaningful when `has_id`).
    pub open spec fn id_index(self, id: usize) -> int {
        first_id(self.resources, id)
    }

    /// Some resource has the identifier `id` and the kind of `kind`.
    pub open spec fn has_entry(self, id: usize, kind: ResourceType) -> bool {
        exists|i: int|
            0 <= i < self.resources.len() && (#[trigger] self.resources[i]).0 == id && same_kind(
                self.resources[i].1,
                kind,
            )
    }

    /// `i` is the first position of a resource with identifier `id` and the kind of `kind`.
    pub open spec fn is_first_entry(self, id: usize, kind: ResourceType, i: int) -> bool {
        first_entry_at(self.resources, id, kind, i)
    }

    /// The first position of a resource with identifier `id` and the kind of `kind`.
    pub open spec fn entry_index(self, id: usize, kind: ResourceType) -> int {
        first_entry(self.resources, id, kind)
    }

    /// The state with one more resource `(id, kind)` at the end, with no units and
    /// a zero column in both thread tables.
    pub open spec fn grown(self, id: usize, kind: ResourceType) -> DetectorView {
        DetectorView {
            resources: self.resources.push((id, kind)),
            avail: self.avail.push(0),
            alloc: self.alloc.map_values(|row: Seq<usize>| row.push(0)),
            need: self.need.map_values(|row: Seq<usize>| row.push(0)),
            max: self.max.push(0),
        }
    }

    /// The state in which `(id, kind)` has an entry, and the position of that entry.
    pub open spec fn with_entry(self, id: usize, kind: ResourceType) -> (DetectorView, int) {
        if self.has_entry(id, kind) {
            (self, self.entry_index(id, kind))
        } else {
            (self.grown(id, kind), self.resources.len() as int)
        }
    }

    /// The state after registering resource `id` of type `res`: its entry holds
    /// `unit_count(res)` available units, which is also its maximum.
    pub open spec fn registered(self, id: usize, res: ResourceType) -> DetectorView {
        let (s, idx) = self.with_entry(id, res);
        DetectorView {
            avail: s.avail.update(idx, unit_count(res)),
            max: s.max.update(idx, unit_count(res)),
            ..s
        }
    }

    /// The state in which thread `tid` has a row: rows of zeros are appended
    /// until there are `tid + 1` of them.
    pub open spec fn with_thread(self, tid: usize) -> DetectorView {
        if tid < self.alloc.len() {
            self
        } else {
            let extra = Seq::new(
                (tid + 1 - self.alloc.len()) as nat,
                |i: int| zeros(self.resources.len()),
            );
            DetectorView { alloc: self.alloc + extra, need: self.need + extra, ..self }
        }
    }

    /// The state with `need[tid][idx]` set to `v`.
    pub open spec fn set_need(self, tid: int, idx: int, v: usize) -> DetectorView {
        DetectorView { need: self.need.update(tid, self.need[tid].update(idx, v)), ..self }
    }

    /// The state with one unit of resource `idx` moved from `avail` to thread `tid`.
    pub open spec fn granted(self, tid: int, idx: int) -> DetectorView {
        DetectorView {
            avail: self.avail.update(idx, (self.avail[idx] - 1) as usize),
            alloc: self.alloc.update(tid, self.alloc[tid].update(idx, (self.alloc[tid][idx] + 1) as usize)),
            ..self
        }
    }

    /// The state with the units that thread `tid` holds given back, and its row cleared.
    pub open spec fn without_thread(self, tid: usize) -> DetectorView {
        if tid < self.alloc.len() {
            DetectorView {
                avail: Seq::new(
                    self.avail.len(),
                    |j: int| (self.avail[j] + self.alloc[tid as int][j]) as usize,
                ),
                alloc: self.alloc.update(tid as int, zeros(self.resources.len())),
                need: self.need.update(tid as int, zeros(self.resources.len())),
                ..self
            }
        } else {
            self
        }
    }

    /// The state and the result when thread `tid` gives back one unit of `res_id`:
    /// refused with `-1` for an unknown thread or resource, or when the thread
    /// holds no unit of it.
    pub open spec fn released(self, tid: usize, res_id: usize) -> (DetectorView, Result<(), isize>) {
        if tid >= self.alloc.len() || !self.has_id(res_id) {
            (self, Err(-1isize))
        } else {
            let idx = self.id_index(res_id);
            if self.alloc[tid as int][idx] < 1 {
                (self, Err(-1isize))
            } else {
                (
                    DetectorView {
                        avail: self.avail.update(idx, (self.avail[idx] + 1) as usize),
                        alloc: self.alloc.update(
                            tid as int,
                            self.alloc[tid as int].update(idx, (self.alloc[tid as int][idx] - 1) as usize),
                        ),
                        ..self
                    },
                    Ok(()),
                )
            }
        }
    }

    /// Giving a unit back stays within `usize`.
    pub open spec fn release_fits(self, tid: usize, res_id: usize) -> bool {
        (tid < self.alloc.len() && self.has_id(res_id) && self.alloc[tid as int][self.id_index(res_id)]
            >= 1) ==> self.avail[self.id_index(res_id)] < usize::MAX
    }

    /// Giving back everything that thread `tid` holds stays within `usize`.
    pub open spec fn return_fits(self, tid: usize) -> bool {
        tid < self.alloc.len() ==> forall|j: int|
            0 <= j < self.avail.len() ==> self.avail[j] + #[trigger] self.alloc[tid as int][j]
                <= usize::MAX
    }

    /// The intermediate state at which a request of thread `tid` for `res_id`
    /// tentatively takes a unit, with the resource's position; `None` when the
    /// request is refused before that.
    pub open spec fn grant_point(self, tid: usize, res_id: usize) -> Option<(DetectorView, int)> {
        let s1 = self.with_thread(tid);
        if !s1.has_id(res_id) {
            None
        } else {
            let idx = s1.id_index(res_id);
            let cell = s1.need[tid as int][idx];
            match s1.resources[idx].1 {
                ResourceType::Mutex => {
                    let s2 = s1.set_need(tid as int, idx, 1usize);
                    if s2.avail[idx] < 1 {
                        None
                    } else {
                        Some((s2, idx))
                    }
                },
                ResourceType::Semaphore(count) => {
                    if cell + 1 >= count {
                        None
                    } else {
                        let s2 = s1.set_need(tid as int, idx, (cell + 1) as usize);
                        if s2.avail[idx] < 1 {
                            None
                        } else {
                            Some((s2, idx))
                        }
                    }
                },
            }
        }
    }

    /// The state and the result when thread `tid` asks for one unit of `res_id`.
    ///
    /// The thread gets a row if it has none. An unknown resource is refused with
    /// `-1`. Otherwise the thread's request count is updated (a mutex's becomes 1;
    /// a semaphore's grows by one, unless that would reach the semaphore's count,
    /// which is refused with `DEAD` and no update). With no unit available the
    /// request is refused with `DEAD`, keeping the updated count. Otherwise one
    /// unit moves to the thread if the resulting state is safe; if it is not,
    /// the unit stays and the request is refused with `DEAD`.
    pub open spec fn requested(self, tid: usize, res_id: usize) -> (DetectorView, Result<(), isize>) {
        let s1 = self.with_thread(tid);
        if !s1.has_id(res_id) {
            (s1, Err(-1isize))
        } else {
            let idx = s1.id_index(res_id);
            let cell = s1.need[tid as int][idx];
            let s2 = match s1.resources[idx].1 {
                ResourceType::Mutex => s1.set_need(tid as int, idx, 1usize),
                ResourceType::Semaphore(count) => s1.set_need(tid as int, idx, (cell + 1) as usize),
            };
            if s1.resources[idx].1 matches ResourceType::Semaphore(count) && cell + 1 >= count {
                (s1, Err(DEAD))
            } else if s2.avail[idx] < 1 {
                (s2, Err(DEAD))
            } else if s2.granted(tid as int, idx).safe() {
                (s2.granted(tid as int, idx), Ok(()))
            } else {
                (s2, Err(DEAD))
            }
        }
    }

    /// A request stays within the machine: where a unit is tentatively taken,
    /// the thread holds fewer units than its updated request count (the safety
    /// check subtracts the one from the other), and the units of every
    /// resource fit in `usize`.
    pub open spec fn request_fits(self, tid: usize, res_id: usize) -> bool {
        match self.grant_point(tid, res_id) {
            Some((s2, idx)) => s2.alloc[tid as int][idx] < s2.need[tid as int][idx] && s2.check_fits(),
            None => true,
        }
    }

    /// `p` lists every thread exactly once.
    pub open spec fn is_order(self, p: Seq<int>) -> bool {
        &&& p.len() == self.alloc.len()
        &&& forall|k: int| 0 <= k < p.len() ==> 0 <= #[trigger] p[k] < self.alloc.len()
        &&& forall|k1: int, k2: int|
            0 <= k1 < p.len() && 0 <= k2 < p.len() && k1 != k2 ==> #[trigger] p[k1] != #[trigger] p[k2]
        &&& forall|i: int| 0 <= i < self.alloc.len() ==> #[trigger] marks(p, p.len() as int, self.alloc.len())[i]
    }

    /// Taking the threads in the order `p`, what each still asks for (`need -
    /// alloc`) is covered by the available units together with what the
    /// threads before it hold, which they give back when they finish.
    pub open spec fn can_finish_in(self, p: Seq<int>) -> bool {
        forall|k: int, j: int|
            0 <= k < p.len() && 0 <= j < self.avail.len() ==> #[trigger] self.need[p[k]][j]
                - self.alloc[p[k]][j] <= self.avail[j] + prefix_units(self.alloc, p, j, k)
    }

    /// The banker's safety condition: the threads can finish one after another
    /// in some order.
    pub open spec fn safe(self) -> bool {
        exists|p: Seq<int>| self.is_order(p) && self.can_finish_in(p)
    }

    /// The safety check stays within `usize`: for every resource, the units
    /// available and held together fit in it.
    pub open spec fn check_fits(self) -> bool {
        self.alloc.len() == 0 || self.avail.len() == 0 || forall|j: int|
            0 <= j < self.avail.len() ==> #[trigger] self.units(j) <= usize::MAX
    }

    /// Thread `i`'s outstanding requests are covered by `work`.
    pub open spec fn covered_by(self, i: int, work: Seq<usize>) -> bool {
        forall|j: int|
            0 <= j < self.avail.len() ==> #[trigger] self.need[i][j] - self.alloc[i][j] <= work[j]
    }
}

/// Units of resource `j` held by the first `k` rows whose flag is set.
pub open spec fn flagged_units(rows: Seq<Seq<usize>>, flags: Seq<bool>, j: int, k: int) -> int
    decreases k,
{
    if k <= 0 {
        0
    } else {
        flagged_units(rows, flags, j, k - 1) + if flags[k - 1] {
            rows[k - 1][j] as int
        } else {
            0
        }
    }
}

/// Units of resource `j` held by the threads `p[0]`, ..., `p[k - 1]`.
pub open spec fn prefix_units(rows: Seq<Seq<usize>>, p: Seq<int>, j: int, k: int) -> int
    decreases k,
{
    if k <= 0 {
        0
    } else {
        prefix_units(rows, p, j, k - 1) + rows[p[k - 1]][j]
    }
}

/// Flags over `0..n` that mark the threads among `p[0]`, ..., `p[k - 1]`.
pub open spec fn marks(p: Seq<int>, k: int, n: nat) -> Seq<bool> {
    Seq::new(n, |i: int| exists|l: int| 0 <= l < k && p[l] == i)
}

/// The number of `false` entries.
pub open spec fn count_false(s: Seq<bool>) -> nat
    decreases s.len(),
{
    if s.len() == 0 {
        0
    } else {
        count_false(s.drop_last()) + if s.last() {
            0nat
        } else {
            1nat
        }
    }
}


pub(crate) proof fn lemma_count_false_update(s: Seq<bool>, i: int)
    requires
        0 <= i < s.len(),
        !s[i],
    ensures
        count_false(s.update(i, true)) + 1 == count_false(s),
    decreases s.len(),
{
    let t = s.update(i, true);
    if i == s.len() - 1 {
        assert(t.drop_last() =~= s.drop_last());
    } else {
        assert(t.drop_last() =~= s.drop_last().update(i, true));
        lemma_count_false_update(s.drop_last(), i);
    }
}

pub(crate) proof fn lemma_count_false_all(n: nat)
    ensures
        count_false(Seq::new(n, |i: int| false)) == n,
    decreases n,
{
    if n > 0 {
        assert(Seq::new(n, |i: int| false).drop_last() =~= Seq::new((n - 1) as nat, |i: int| false));
        lemma_count_false_all((n - 1) as nat);
    }
}

pub(crate) proof fn lemma_first_entry_from(v: DetectorView, id: usize, kind: ResourceType, w: int)
    requires
        0 <= w < v.resources.len(),
        v.resources[w].0 == id,
        same_kind(v.resources[w].1, kind),
    ensures
        v.is_first_entry(id, kind, v.entry_index(id, kind)),
    decreases w,
{
    if exists|k: int| 0 <= k < w && v.resources[k].0 == id && same_kind(v.resources[k].1, kind) {
        let k = choose|k: int| 0 <= k < w && v.resources[k].0 == id && same_kind(v.resources[k].1, kind);
        lemma_first_entry_from(v, id, kind, k);
    } else {
        assert(v.is_first_entry(id, kind, w));
    }
}

/// When an entry of the given kind exists, `entry_index` is the first one.
pub(crate) proof fn lemma_first_entry(v: DetectorView, id: usize, kind: ResourceType)
    requires
        v.has_entry(id, kind),
    ensures
        v.is_first_entry(id, kind, v.entry_index(id, kind)),
{
    let w = choose|i: int|
        0 <= i < v.resources.len() && (#[trigger] v.resources[i]).0 == id && same_kind(v.resources[i].1, kind);
    lemma_first_entry_from(v, id, kind, w);
}

pub(crate) proof fn lemma_first_id_from(v: DetectorView, id: usize, w: int)
    requires
        0 <= w < v.resources.len(),
        v.resources[w].0 == id,
    ensures
        v.is_first_id(id, v.id_index(id)),
    decreases w,
{
    if exists|k: int| 0 <= k < w && v.resources[k].0 == id {
        let k = choose|k: int| 0 <= k < w && v.resources[k].0 == id;
        lemma_first_id_from(v, id, k);
    } else {
        assert(v.is_first_id(id, w));
    }
}

/// When some resource has identifier `id`, `id_index` is the first one, and it is
/// also the first entry of its own kind.
pub(crate) proof fn lemma_first_id(v: DetectorView, id: usize)
    requires
        v.has_id(id),
    ensures
        v.is_first_id(id, v.id_index(id)),
        v.has_entry(id, v.resources[v.id_index(id)].1),
        v.entry_index(id, v.resources[v.id_index(id)].1) == v.id_index(id),
{
    let w = choose|i: int| 0 <= i < v.resources.len() && (#[trigger] v.resources[i]).0 == id;
    lemma_first_id_from(v, id, w);
    let i = v.id_index(id);
    let kind = v.resources[i].1;
    assert(v.is_first_entry(id, kind, i));
    lemma_first_entry(v, id, kind);
    let c = v.entry_index(id, kind);
    if c < i {
        assert(v.resources[c].0 != id);
    } else if c > i {
        assert(!(v.resources[i].0 == id && same_kind(v.resources[i].1, kind)));
    }
}

/// The view of a table in which only row `t` changed.
pub(crate) proof fn lemma_row_changed(rows: Seq<Vec<usize>>, new_rows: Seq<Vec<usize>>, t: int)
    requires
        0 <= t < rows.len(),
        new_rows.len() == rows.len(),
        forall|tt: int| 0 <= tt < rows.len() && tt != t ==> #[trigger] new_rows[tt] == rows[tt],
    ensures
        new_rows.map_values(|r: Vec<usize>| r@) == rows.map_values(|r: Vec<usize>| r@).update(
            t,
            new_rows[t]@,
        ),
{
    let a = new_rows.map_values(|r: Vec<usize>| r@);
    let b = rows.map_values(|r: Vec<usize>| r@).update(t, new_rows[t]@);
    assert forall|tt: int| 0 <= tt < a.len() implies a[tt] == b[tt] by {}
    assert(a =~= b);
}

/// Units of resource `j` held by the rows of a table.
pub open spec fn held_units(rows: Seq<Seq<usize>>, j: int) -> int
    decreases rows.len(),
{
    if rows.len() == 0 {
        0
    } else {
        held_units(rows.drop_last(), j) + rows.last()[j]
    }
}

impl DetectorView {
    /// Units of resource `j` that are available or held by some thread.
    pub open spec fn units(self, j: int) -> int {
        self.avail[j] + held_units(self.alloc, j)
    }
}

pub(crate) proof fn lemma_held_units_update(rows: Seq<Seq<usize>>, t: int, row: Seq<usize>, j: int)
    requires
        0 <= t < rows.len(),
    ensures
        held_units(rows.update(t, row), j) == held_units(rows, j) - rows[t][j] + row[j],
    decreases rows.len(),
{
    if t == rows.len() - 1 {
        assert(rows.update(t, row).drop_last() =~= rows.drop_last());
    } else {
        assert(rows.update(t, row).drop_last() =~= rows.drop_last().update(t, row));
        lemma_held_units_update(rows.drop_last(), t, row, j);
    }
}

pub(crate) proof fn lemma_held_units_zero_rows(rows: Seq<Seq<usize>>, k: nat, m: nat, j: int)
    requires
        0 <= j < m,
    ensures
        held_units(rows + Seq::new(k, |i: int| zeros(m)), j) == held_units(rows, j),
    decreases k,
{
    if k == 0 {
        assert(rows + Seq::new(k, |i: int| zeros(m)) =~= rows);
    } else {
        let r2 = rows + Seq::new(k, |i: int| zeros(m));
        assert(r2.drop_last() =~= rows + Seq::new((k - 1) as nat, |i: int| zeros(m)));
        lemma_held_units_zero_rows(rows, (k - 1) as nat, m, j);
    }
}

pub(crate) proof fn lemma_with_thread_units(v: DetectorView, tid: usize)
    requires
        v.wf(),
    ensures
        v.with_thread(tid).wf(),
        v.with_thread(tid).resources == v.resources,
        v.with_thread(tid).avail == v.avail,
        v.with_thread(tid).threads() > tid,
        forall|j: int| 0 <= j < v.res_count() ==> #[trigger] v.with_thread(tid).units(j) == v.units(j),
{
    if tid >= v.alloc.len() {
        let k = (tid + 1 - v.alloc.len()) as nat;
        assert forall|j: int| 0 <= j < v.res_count() implies #[trigger] v.with_thread(tid).units(j) == v.units(j) by {
            lemma_held_units_zero_rows(v.alloc, k, v.res_count(), j);
        }
    }
}

pub(crate) proof fn lemma_count_false_none(s: Seq<bool>)
    requires
        forall|i: int| 0 <= i < s.len() ==> #[trigger] s[i],
    ensures
        count_false(s) == 0,
    decreases s.len(),
{
    if s.len() > 0 {
        lemma_count_false_none(s.drop_last());
    }
}

/// `flagged_units` reads only the first `k` rows and flags.
pub(crate) proof fn lemma_flagged_ext(
    r1: Seq<Seq<usize>>,
    f1: Seq<bool>,
    r2: Seq<Seq<usize>>,
    f2: Seq<bool>,
    j: int,
    k: int,
)
    requires
        forall|i: int| 0 <= i < k ==> #[trigger] f1[i] == f2[i] && (f1[i] ==> r1[i][j] == r2[i][j]),
    ensures
        flagged_units(r1, f1, j, k) == flagged_units(r2, f2, j, k),
    decreases k,
{
    if k > 0 {
        lemma_flagged_ext(r1, f1, r2, f2, j, k - 1);
    }
}

/// No flag set: no unit counted.
pub(crate) proof fn lemma_flagged_none(rows: Seq<Seq<usize>>, flags: Seq<bool>, j: int, k: int)
    requires
        forall|i: int| 0 <= i < k ==> !#[trigger] flags[i],
    ensures
        flagged_units(rows, flags, j, k) == 0,
    decreases k,
{
    if k > 0 {
        lemma_flagged_none(rows, flags, j, k - 1);
    }
}

/// Setting one more flag counts that row's units too.
pub(crate) proof fn lemma_flagged_set(rows: Seq<Seq<usize>>, flags: Seq<bool>, i: int, j: int, k: int)
    requires
        0 <= i < k <= flags.len(),
        !flags[i],
    ensures
        flagged_units(rows, flags.update(i, true), j, k) == flagged_units(rows, flags, j, k) + rows[i][j],
    decreases k,
{
    if k - 1 == i {
        lemma_flagged_ext(rows, flags.update(i, true), rows, flags, j, k - 1);
    } else {
        lemma_flagged_set(rows, flags, i, j, k - 1);
    }
}

/// More flags count at least as many units.
pub(crate) proof fn lemma_flagged_mono(rows: Seq<Seq<usize>>, f1: Seq<bool>, f2: Seq<bool>, j: int, k: int)
    requires
        forall|i: int| 0 <= i < k ==> (#[trigger] f1[i] ==> f2[i]),
    ensures
        flagged_units(rows, f1, j, k) <= flagged_units(rows, f2, j, k),
    decreases k,
{
    if k > 0 {
        lemma_flagged_mono(rows, f1, f2, j, k - 1);
    }
}

/// With every flag set, all the units held are counted.
pub(crate) proof fn lemma_flagged_all(rows: Seq<Seq<usize>>, j: int)
    ensures
        flagged_units(rows, Seq::new(rows.len(), |i: int| true), j, rows.len() as int) == held_units(rows, j),
    decreases rows.len(),
{
    if rows.len() > 0 {
        let d = rows.drop_last();
        lemma_flagged_all(d, j);
        lemma_flagged_ext(
            rows,
            Seq::new(rows.len(), |i: int| true),
            d,
            Seq::new(d.len(), |i: int| true),
            j,
            d.len() as int,
        );
    }
}

/// Appending to an order does not change the units held before position `k`.
pub(crate) proof fn lemma_prefix_push(rows: Seq<Seq<usize>>, p: Seq<int>, x: int, j: int, k: int)
    requires
        0 <= k <= p.len(),
    ensures
        prefix_units(rows, p.push(x), j, k) == prefix_units(rows, p, j, k),
    decreases k,
{
    if k > 0 {
        lemma_prefix_push(rows, p, x, j, k - 1);
    }
}

/// For distinct threads, the units held by `p[0..k)` are the units held by
/// the threads that `marks` flags.
pub(crate) proof fn lemma_prefix_as_marks(rows: Seq<Seq<usize>>, p: Seq<int>, j: int, k: int, n: nat)
    requires
        0 <= k <= p.len(),
        forall|l: int| 0 <= l < p.len() ==> 0 <= #[trigger] p[l] < n,
        forall|l1: int, l2: int|
            0 <= l1 < p.len() && 0 <= l2 < p.len() && l1 != l2 ==> #[trigger] p[l1] != #[trigger] p[l2],
    ensures
        prefix_units(rows, p, j, k) == flagged_units(rows, marks(p, k, n), j, n as int),
    decreases k,
{
    if k == 0 {
        lemma_flagged_none(rows, marks(p, 0, n), j, n as int);
    } else {
        lemma_prefix_as_marks(rows, p, j, k - 1, n);
        let x = p[k - 1];
        let before = marks(p, k - 1, n);
        assert(!before[x]) by {
            if before[x] {
                let l = choose|l: int| 0 <= l < k - 1 && p[l] == x;
                assert(p[l] != p[k - 1]);
            }
        }
        assert forall|i: int| 0 <= i < n implies #[trigger] marks(p, k, n)[i] == before.update(x, true)[i] by {
            if i == x {
                assert(p[k - 1] == i);
            } else {
                if marks(p, k, n)[i] {
                    let l = choose|l: int| 0 <= l < k && p[l] == i;
                    assert(l < k - 1);
                }
                if before[i] {
                    let l = choose|l: int| 0 <= l < k - 1 && p[l] == i;
                    assert(0 <= l < k && p[l] == i);
                }
            }
        }
        assert(marks(p, k, n) =~= before.update(x, true));
        lemma_flagged_set(rows, before, x, j, n as int);
    }
}

/// The threads in index order form an order of all threads.
pub(crate) proof fn lemma_identity_order(v: DetectorView)
    ensures
        v.is_order(Seq::new(v.alloc.len(), |i: int| i)),
{
    let p = Seq::new(v.alloc.len(), |i: int| i);
    assert forall|i: int| 0 <= i < v.alloc.len() implies #[trigger] marks(p, p.len() as int, v.alloc.len())[i] by {
        assert(p[i] == i);
    }
}

proof fn lemma_first_unfinished(p: Seq<int>, finish: Seq<bool>, k0: int) -> (k: int)
    requires
        0 <= k0 < p.len(),
        forall|l: int| 0 <= l < p.len() ==> 0 <= #[trigger] p[l] < finish.len(),
        !finish[p[k0]],
    ensures
        0 <= k <= k0,
        !finish[p[k]],
        forall|l: int| 0 <= l < k ==> #[trigger] finish[p[l]],
    decreases k0,
{
    if exists|l: int| 0 <= l < k0 && !finish[p[l]] {
        let l = choose|l: int| 0 <= l < k0 && !finish[p[l]];
        lemma_first_unfinished(p, finish, l)
    } else {
        k0
    }
}

/// When no unfinished thread's requests are covered by the available units
/// plus what the finished threads hold, the state is not safe.
pub(crate) proof fn lemma_stuck_is_unsafe(v: DetectorView, finish: Seq<bool>, work: Seq<usize>)
    requires
        v.wf(),
        finish.len() == v.alloc.len(),
        work.len() == v.avail.len(),
        forall|j: int|
            0 <= j < v.avail.len() ==> #[trigger] work[j] == v.avail[j] + flagged_units(
                v.alloc,
                finish,
                j,
                v.alloc.len() as int,
            ),
        forall|i: int| 0 <= i < v.alloc.len() && !finish[i] ==> !#[trigger] v.covered_by(i, work),
        exists|i: int| 0 <= i < v.alloc.len() && !finish[i],
    ensures
        !v.safe(),
{
    if v.safe() {
        let n = v.alloc.len();
        let p = choose|p: Seq<int>| v.is_order(p) && v.can_finish_in(p);
        let i0 = choose|i: int| 0 <= i < n && !finish[i];
        assert(marks(p, p.len() as int, n)[i0]);
        let k0 = choose|l: int| 0 <= l < p.len() && p[l] == i0;
        let k = lemma_first_unfinished(p, finish, k0);
        let x = p[k];
        assert forall|i: int| 0 <= i < n && #[trigger] marks(p, k, n)[i] implies finish[i] by {
            let l = choose|l: int| 0 <= l < k && p[l] == i;
            assert(finish[p[l]]);
        }
        assert forall|j: int| 0 <= j < v.avail.len() implies #[trigger] v.need[x][j] - v.alloc[x][j]
            <= work[j] by {
            lemma_prefix_as_marks(v.alloc, p, j, k, n);
            lemma_flagged_mono(v.alloc, marks(p, k, n), finish, j, n as int);
            assert(v.need[p[k]][j] - v.alloc[p[k]][j] <= v.avail[j] + prefix_units(v.alloc, p, j, k));
        }
        assert(v.covered_by(x, work));
    }
}

/// A state with no thread or no resource passes the safety check.
pub proof fn law_empty_is_safe(v: DetectorView)
    requires
        v.threads() == 0 || v.avail.len() == 0,
    ensures
        v.safe(),
{
    lemma_identity_order(v);
    assert(v.can_finish_in(Seq::new(v.alloc.len(), |i: int| i)));
}

/// More available units never turn a safe state unsafe.
pub proof fn law_more_units_stay_safe(v1: DetectorView, v2: DetectorView)
    requires
        v1.alloc == v2.alloc,
        v1.need == v2.need,
        v1.avail.len() == v2.avail.len(),
        forall|j: int| 0 <= j < v1.avail.len() ==> #[trigger] v1.avail[j] <= v2.avail[j],
        v1.safe(),
    ensures
        v2.safe(),
{
    let p = choose|p: Seq<int>| v1.is_order(p) && v1.can_finish_in(p);
    assert(v2.is_order(p));
    assert(v2.can_finish_in(p));
}

/// A granted request leaves a state that passes the safety check.
pub proof fn law_granted_state_is_safe(v: DetectorView, tid: usize, res_id: usize)
    requires
        v.wf(),
        v.requested(tid, res_id).1 is Ok,
    ensures
        v.requested(tid, res_id).0.safe(),
{
}

/// A refused request moves no unit: the available and held counts are those
/// of the state before it (with the thread's row added if it had none).
pub proof fn law_refused_request_moves_no_unit(v: DetectorView, tid: usize, res_id: usize)
    requires
        v.wf(),
        v.requested(tid, res_id).1 is Err,
    ensures
        v.requested(tid, res_id).0.avail == v.with_thread(tid).avail,
        v.requested(tid, res_id).0.alloc == v.with_thread(tid).alloc,
{
}

/// Giving back the unit that a granted request took restores the available and
/// held counts.
pub proof fn law_release_undoes_grant(v: DetectorView, tid: usize, res_id: usize)
    requires
        v.wf(),
        v.request_fits(tid, res_id),
        v.requested(tid, res_id).1 is Ok,
    ensures
        v.requested(tid, res_id).0.release_fits(tid, res_id),
        v.requested(tid, res_id).0.released(tid, res_id).1 is Ok,
        v.requested(tid, res_id).0.released(tid, res_id).0.avail =~= v.with_thread(tid).avail,
        v.requested(tid, res_id).0.released(tid, res_id).0.alloc =~= v.with_thread(tid).alloc,
        v.requested(tid, res_id).0.released(tid, res_id).0.max == v.max,
        v.requested(tid, res_id).0.released(tid, res_id).0.resources == v.resources,
{
    lemma_with_thread_units(v, tid);
    let s1 = v.with_thread(tid);
    lemma_first_id(s1, res_id);
    let s = v.requested(tid, res_id).0;
    assert(s.resources == s1.resources);
    assert(s.has_id(res_id));
    assert(s.id_index(res_id) == s1.id_index(res_id));
    let idx = s1.id_index(res_id);
    let t = s.released(tid, res_id).0;
    assert(t.alloc[tid as int] =~= s1.alloc[tid as int]);
}

/// A request keeps, for every resource, the number of units that are
/// available or held.
pub proof fn law_request_keeps_units(v: DetectorView, tid: usize, res_id: usize)
    requires
        v.wf(),
        v.request_fits(tid, res_id),
    ensures
        forall|j: int|
            0 <= j < v.res_count() ==> #[trigger] v.requested(tid, res_id).0.units(j) == v.units(j),
{
    lemma_with_thread_units(v, tid);
    let s1 = v.with_thread(tid);
    if s1.has_id(res_id) {
        lemma_first_id(s1, res_id);
        let idx = s1.id_index(res_id);
        let cell = s1.need[tid as int][idx];
        let s2 = match s1.resources[idx].1 {
            ResourceType::Mutex => s1.set_need(tid as int, idx, 1usize),
            ResourceType::Semaphore(count) => s1.set_need(tid as int, idx, (cell + 1) as usize),
        };
        assert forall|j: int| 0 <= j < v.res_count() implies #[trigger] s2.units(j) == v.units(j) by {
            assert(s2.units(j) == s1.units(j));
        }
        if v.grant_point(tid, res_id) is Some {
            assert(v.grant_point(tid, res_id) == Some((s2, idx)));
            assert(s2.avail[idx] >= 1);
            assert(s2.alloc[tid as int][idx] < usize::MAX);
            let g = s2.granted(tid as int, idx);
            let row = s2.alloc[tid as int].update(idx, (s2.alloc[tid as int][idx] + 1) as usize);
            assert(s2.alloc == s1.alloc);
            assert(tid < s2.alloc.len());
            assert(g.alloc == s2.alloc.update(tid as int, row));
            assert forall|j: int| 0 <= j < v.res_count() implies #[trigger] g.units(j) == v.units(j) by {
                lemma_held_units_update(s2.alloc, tid as int, row, j);
                assert(s2.units(j) == v.units(j));
                if j == idx {
                    assert(row[j] == s2.alloc[tid as int][j] + 1);
                    assert(g.avail[j] == s2.avail[j] - 1);
                } else {
                    assert(row[j] == s2.alloc[tid as int][j]);
                    assert(g.avail[j] == s2.avail[j]);
                }
            }
        }
    }
}

/// Giving a unit back keeps, for every resource, the number of units that are
/// available or held.
pub proof fn law_release_keeps_units(v: DetectorView, tid: usize, res_id: usize)
    requires
        v.wf(),
        v.release_fits(tid, res_id),
    ensures
        forall|j: int|
            0 <= j < v.res_count() ==> #[trigger] v.released(tid, res_id).0.units(j) == v.units(j),
{
    if tid < v.alloc.len() && v.has_id(res_id) {
        lemma_first_id(v, res_id);
        let idx = v.id_index(res_id);
        if v.alloc[tid as int][idx] >= 1 {
            assert forall|j: int| 0 <= j < v.res_count() implies #[trigger] v.released(tid, res_id).0.units(j)
                == v.units(j) by {
                lemma_held_units_update(
                    v.alloc,
                    tid as int,
                    v.alloc[tid as int].update(idx, (v.alloc[tid as int][idx] - 1) as usize),
                    j,
                );
            }
        }
    }
}

/// Removing a thread keeps, for every resource, the number of units that are
/// available or held: what the thread held becomes available.
pub proof fn law_removal_keeps_units(v: DetectorView, tid: usize)
    requires
        v.wf(),
        v.return_fits(tid),
    ensures
        forall|j: int| 0 <= j < v.res_count() ==> #[trigger] v.without_thread(tid).units(j) == v.units(j),
{
    if tid < v.alloc.len() {
        assert forall|j: int| 0 <= j < v.res_count() implies #[trigger] v.without_thread(tid).units(j)
            == v.units(j) by {
            lemma_held_units_update(v.alloc, tid as int, zeros(v.res_count()), j);
        }
    }
}

/// Adding a thread twice is the same as adding it once.
pub proof fn law_add_thread_idempotent(v: DetectorView, tid: usize)
    ensures
        v.with_thread(tid).with_thread(tid) == v.with_thread(tid),
{
}

/// Adding two threads is adding the one with the larger number.
pub proof fn law_add_threads_is_add_larger(v: DetectorView, t1: usize, t2: usize)
    ensures
        v.with_thread(t1).with_thread(t2) == v.with_thread(if t1 < t2 {
            t2
        } else {
            t1
        }),
{
    let n = v.alloc.len();
    let m = v.resources.len();
    let a = v.with_thread(t1).with_thread(t2);
    let t = if t1 < t2 { t2 } else { t1 };
    let b = v.with_thread(t);
    if t1 >= n && t2 >= n && t2 > t1 {
        let e1 = Seq::new((t1 + 1 - n) as nat, |i: int| zeros(m));
        let e2 = Seq::new((t2 - t1) as nat, |i: int| zeros(m));
        let e = Seq::new((t2 + 1 - n) as nat, |i: int| zeros(m));
        assert(v.alloc + e1 + e2 =~= v.alloc + e);
        assert(v.need + e1 + e2 =~= v.need + e);
    }
    assert(a =~= b);
}

/// `i` is the first position of a resource with identifier `id`, then `id_index` names it.
proof fn lemma_id_index_is(v: DetectorView, id: usize, i: int)
    requires
        0 <= i < v.resources.len(),
        v.resources[i].0 == id,
        forall|k: int| 0 <= k < i ==> (#[trigger] v.resources[k]).0 != id,
    ensures
        v.has_id(id),
        v.id_index(id) == i,
{
    assert(v.is_first_id(id, i));
    let c = v.id_index(id);
    assert(v.is_first_id(id, c));
    if c < i {
        assert(v.resources[c].0 != id);
    } else if c > i {
        assert(v.resources[i].0 != id);
    }
}

/// A request of an existing thread for a semaphore is granted whenever nothing
/// refuses it: its claim stays below the semaphore's count, a unit is
/// available, and the state with the claim raised by one and one unit moved
/// to the thread is safe. The thread then holds one more unit, whatever it
/// held before, and one unit fewer is available.
pub proof fn law_request_granted_when_allowed(v: DetectorView, tid: usize, res_id: usize, idx: int, c: usize)
    requires
        v.wf(),
        tid < v.alloc.len(),
        0 <= idx < v.resources.len(),
        v.resources[idx].0 == res_id,
        forall|k: int| 0 <= k < idx ==> (#[trigger] v.resources[k]).0 != res_id,
        v.resources[idx].1 == ResourceType::Semaphore(c),
        v.need[tid as int][idx] + 1 < c,
        v.avail[idx] >= 1,
        (DetectorView {
            avail: v.avail.update(idx, (v.avail[idx] - 1) as usize),
            alloc: v.alloc.update(tid as int, v.alloc[tid as int].update(idx, (v.alloc[tid as int][idx] + 1) as usize)),
            need: v.need.update(tid as int, v.need[tid as int].update(idx, (v.need[tid as int][idx] + 1) as usize)),
            ..v
        }).safe(),
    ensures
        v.requested(tid, res_id).1 == Ok::<(), isize>(()),
        v.requested(tid, res_id).0.alloc[tid as int][idx] == v.alloc[tid as int][idx] + 1,
        v.requested(tid, res_id).0.avail[idx] == v.avail[idx] - 1,
        v.requested(tid, res_id).0.need[tid as int][idx] == v.need[tid as int][idx] + 1,
{
    lemma_id_index_is(v, res_id, idx);
    assert(v.with_thread(tid) == v);
    let t = DetectorView {
        avail: v.avail.update(idx, (v.avail[idx] - 1) as usize),
        alloc: v.alloc.update(tid as int, v.alloc[tid as int].update(idx, (v.alloc[tid as int][idx] + 1) as usize)),
        need: v.need.update(tid as int, v.need[tid as int].update(idx, (v.need[tid as int][idx] + 1) as usize)),
        ..v
    };
    let s2 = v.set_need(tid as int, idx, (v.need[tid as int][idx] + 1) as usize);
    assert(s2.granted(tid as int, idx) =~= t);
}

/// A request of an existing thread for a mutex it does not hold is granted
/// whenever a unit is available and the state with its claim at 1 and the
/// mutex moved to it is safe; the thread then holds the mutex.
pub proof fn law_mutex_request_granted_when_allowed(v: DetectorView, tid: usize, res_id: usize, idx: int)
    requires
        v.wf(),
        tid < v.alloc.len(),
        0 <= idx < v.resources.len(),
        v.resources[idx].0 == res_id,
        forall|k: int| 0 <= k < idx ==> (#[trigger] v.resources[k]).0 != res_id,
        v.resources[idx].1 == ResourceType::Mutex,
        v.avail[idx] >= 1,
        (DetectorView {
            avail: v.avail.update(idx, (v.avail[idx] - 1) as usize),
            alloc: v.alloc.update(tid as int, v.alloc[tid as int].update(idx, (v.alloc[tid as int][idx] + 1) as usize)),
            need: v.need.update(tid as int, v.need[tid as int].update(idx, 1usize)),
            ..v
        }).safe(),
    ensures
        v.requested(tid, res_id).1 == Ok::<(), isize>(()),
        v.requested(tid, res_id).0.alloc[tid as int][idx] == v.alloc[tid as int][idx] + 1,
        v.requested(tid, res_id).0.avail[idx] == v.avail[idx] - 1,
        v.requested(tid, res_id).0.need[tid as int][idx] == 1,
{
    lemma_id_index_is(v, res_id, idx);
    assert(v.with_thread(tid) == v);
    let t = DetectorView {
        avail: v.avail.update(idx, (v.avail[idx] - 1) as usize),
        alloc: v.alloc.update(tid as int, v.alloc[tid as int].update(idx, (v.alloc[tid as int][idx] + 1) as usize)),
        need: v.need.update(tid as int, v.need[tid as int].update(idx, 1usize)),
        ..v
    };
    assert(v.alloc[tid as int][idx] <= v.need[tid as int][idx]);
    assert(v.need[tid as int][idx] <= 1);
    let s2 = v.set_need(tid as int, idx, 1usize);
    assert(s2.granted(tid as int, idx) =~= t);
}

/// Removing a known thread makes everything it held available again and clears
/// its holdings and its claims, whichever thread it is; the other threads'
/// rows and the resource table are kept. Removing an unknown thread changes
/// nothing.
pub proof fn law_removal_returns_and_clears(v: DetectorView, tid: usize)
    requires
        v.wf(),
    ensures
        tid < v.alloc.len() ==> {
            let r = v.without_thread(tid);
            &&& r.alloc.len() == v.alloc.len()
            &&& r.need.len() == v.need.len()
            &&& r.avail.len() == v.avail.len()
            &&& r.resources == v.resources
            &&& r.max == v.max
            &&& forall|j: int|
                0 <= j < v.avail.len() && v.avail[j] + v.alloc[tid as int][j] <= usize::MAX ==> #[trigger] r.avail[j]
                    == v.avail[j] + v.alloc[tid as int][j]
            &&& forall|j: int| 0 <= j < v.avail.len() ==> #[trigger] r.alloc[tid as int][j] == 0
            &&& forall|j: int| 0 <= j < v.avail.len() ==> #[trigger] r.need[tid as int][j] == 0
            &&& forall|t: int|
                0 <= t < v.alloc.len() && t != tid ==> #[trigger] r.alloc[t] == v.alloc[t] && r.need[t]
                    == v.need[t]
        },
        tid >= v.alloc.len() ==> v.without_thread(tid) == v,
{
}

/// Registering a resource leaves, at the first entry with its identifier and
/// kind (new or existing), exactly the resource's unit count available and as
/// the maximum: 1 for a mutex, the count for a semaphore. An existing entry
/// keeps its place; a new one is added at the end.
pub proof fn law_register_sets_units(v: DetectorView, id: usize, res: ResourceType)
    requires
        v.wf(),
    ensures
        ({
            let r = v.registered(id, res);
            let count: usize = match res {
                ResourceType::Mutex => 1usize,
                ResourceType::Semaphore(n) => n,
            };
            &&& exists|idx: int|
                0 <= idx < r.resources.len() && r.resources[idx].0 == id && (r.resources[idx].1 is Mutex
                    <==> res is Mutex) && #[trigger] r.avail[idx] == count && r.max[idx] == count
                    && forall|k: int|
                    0 <= k < idx ==> !((#[trigger] r.resources[k]).0 == id && (r.resources[k].1 is Mutex
                        <==> res is Mutex))
            &&& forall|k: int|
                0 <= k < v.resources.len() ==> #[trigger] r.resources[k] == v.resources[k]
            &&& r.resources.len() == v.resources.len() || r.resources.len() == v.resources.len() + 1
            &&& r.alloc.len() == v.alloc.len()
        }),
{
    let r = v.registered(id, res);
    if v.has_entry(id, res) {
        lemma_first_entry(v, id, res);
        let idx = v.entry_index(id, res);
        assert(r.avail[idx] == unit_count(res));
        assert forall|k: int| 0 <= k < idx implies !((#[trigger] r.resources[k]).0 == id && (r.resources[k].1 is Mutex
            <==> res is Mutex)) by {
            assert(!(v.resources[k].0 == id && same_kind(v.resources[k].1, res)));
        }
    } else {
        let idx = v.resources.len() as int;
        assert(r.resources[idx] == (id, res));
        assert(r.avail[idx] == unit_count(res));
        assert forall|k: int| 0 <= k < idx implies !((#[trigger] r.resources[k]).0 == id && (r.resources[k].1 is Mutex
            <==> res is Mutex)) by {
            assert(r.resources[k] == v.resources[k]);
            if v.resources[k].0 == id && same_kind(v.resources[k].1, res) {
                assert(v.has_entry(id, res));
            }
        }
    }
}

/// Giving back a unit never changes any thread's claims, the resource table or
/// the maxima. It succeeds exactly when the thread is known, the resource is
/// known and the thread holds a unit of the first entry with that identifier;
/// then that unit becomes available again and nothing else changes.
pub proof fn law_release_keeps_claims(v: DetectorView, tid: usize, res_id: usize, idx: int)
    requires
        v.wf(),
        0 <= idx < v.resources.len(),
        v.resources[idx].0 == res_id,
        forall|k: int| 0 <= k < idx ==> (#[trigger] v.resources[k]).0 != res_id,
    ensures
        v.released(tid, res_id).0.need == v.need,
        v.released(tid, res_id).0.resources == v.resources,
        v.released(tid, res_id).0.max == v.max,
        v.released(tid, res_id).1 is Ok <==> tid < v.alloc.len() && v.alloc[tid as int][idx] >= 1,
        v.released(tid, res_id).1 is Ok && v.avail[idx] < usize::MAX ==> {
            let r = v.released(tid, res_id).0;
            &&& r.avail == v.avail.update(idx, (v.avail[idx] + 1) as usize)
            &&& r.alloc == v.alloc.update(tid as int, v.alloc[tid as int].update(idx, (v.alloc[tid as int][idx] - 1) as usize))
            &&& r.avail[idx] == v.avail[idx] + 1
            &&& r.alloc[tid as int][idx] == v.alloc[tid as int][idx] - 1
        },
        v.released(tid, res_id).1 is Err ==> v.released(tid, res_id) == (v, Err::<(), isize>(-1isize)),
{
    lemma_id_index_is(v, res_id, idx);
}

/// Giving back a unit of an unknown resource, or for an unknown thread, is
/// refused with `-1` and changes nothing.
pub proof fn law_release_unknown_refused(v: DetectorView, tid: usize, res_id: usize)
    requires
        v.wf(),
        tid >= v.alloc.len() || forall|k: int| 0 <= k < v.resources.len() ==> (#[trigger] v.resources[k]).0 != res_id,
    ensures
        v.released(tid, res_id) == (v, Err::<(), isize>(-1isize)),
{
}

} // verus!
