use vstd::prelude::*;

use crate::model::{Task, TaskView, task_active, task_wf};
use vstd::multiset::Multiset;
use vstd::slice::SliceAdditionalExecFns;

verus! {

broadcast use vstd::seq_lib::group_to_multiset_ensures, vstd::multiset::group_multiset_axioms;

/// Failures a store operation can report: inserting an identifier that is
/// already present, or updating an identifier that no active task carries.
#[derive(Debug, Clone, Copy, PartialEq, Eq, Structural)]
pub enum StoreError {
    DuplicateId,
    NotFound,
}

/// The views of a sequence of task records.
pub open spec fn map_views(s: Seq<Task>) -> Seq<TaskView> {
    s.map_values(|t: Task| t@)
}

/// No two records carry the same identifier.
pub open spec fn ids_unique(s: Seq<TaskView>) -> bool {
    forall|i: int, j: int| 0 <= i < j < s.len() ==> s[i].id != s[j].id
}

/// Every record satisfies the task invariants.
pub open spec fn tasks_wf(s: Seq<TaskView>) -> bool {
    forall|i: int| 0 <= i < s.len() ==> task_wf(#[trigger] s[i])
}

/// The store invariant: unique identifiers, well-formed records.
pub open spec fn db_wf(s: Seq<TaskView>) -> bool {
    ids_unique(s) && tasks_wf(s)
}

/// Some record (active or soft-deleted) carries this identifier.
pub open spec fn has_id(s: Seq<TaskView>, id: u128) -> bool {
    exists|k: int| 0 <= k < s.len() && (#[trigger] s[k]).id == id
}

/// Some active record carries this identifier.
pub open spec fn has_active_id(s: Seq<TaskView>, id: u128) -> bool {
    exists|k: int| 0 <= k < s.len() && (#[trigger] s[k]).id == id && task_active(s[k])
}

/// The active (not soft-deleted) records, in store order.
pub open spec fn active_views(s: Seq<TaskView>) -> Seq<TaskView> {
    s.filter(|t: TaskView| task_active(t))
}

pub open spec fn max_int(a: int, b: int) -> int {
    if a >= b {
        a
    } else {
        b
    }
}

/// What deletion by identifier does to one record: an active record with the
/// identifier is soft-deleted at `now` (never earlier than its last update);
/// every other record is left alone.
pub open spec fn del_one(t: TaskView, id: u128, now: int) -> TaskView {
    if t.id == id && task_active(t) {
        TaskView { deleted_at: Some(max_int(now, t.updated_at)), ..t }
    } else {
        t
    }
}

/// Deletion by identifier over the whole store.
pub open spec fn spec_delete(s: Seq<TaskView>, id: u128, now: int) -> Seq<TaskView> {
    s.map_values(|t: TaskView| del_one(t, id, now))
}

/// What an update does to one record: the active record with the update's
/// identifier takes the new title, notes, status, project and author, and its
/// `updated_at` becomes `now` (never earlier than its creation); every other
/// record is left alone.
pub open spec fn upd_one(t: TaskView, u: TaskView, now: int) -> TaskView {
    if t.id == u.id && task_active(t) {
        TaskView {
            title: u.title,
            notes: u.notes,
            status: u.status,
            project: u.project,
            updated_at: max_int(now, t.created_at),
            updated_by: u.updated_by,
            ..t
        }
    } else {
        t
    }
}

/// Update by identifier over the whole store.
pub open spec fn spec_update(s: Seq<TaskView>, u: TaskView, now: int) -> Seq<TaskView> {
    s.map_values(|t: TaskView| upd_one(t, u, now))
}

/// Most recently updated first.
pub open spec fn sorted_desc(s: Seq<TaskView>) -> bool {
    forall|i: int, j: int| 0 <= i < j < s.len() ==> s[i].updated_at >= s[j].updated_at
}

proof fn lemma_map_views_push(s: Seq<Task>, t: Task)
    ensures
        map_views(s.push(t)) == map_views(s).push(t@),
{
    assert(map_views(s.push(t)) =~= map_views(s).push(t@));
}

proof fn lemma_map_views_insert(s: Seq<Task>, i: int, t: Task)
    requires
        0 <= i <= s.len(),
    ensures
        map_views(s.insert(i, t)) == map_views(s).insert(i, t@),
{
    s.insert_ensures(i, t);
    map_views(s).insert_ensures(i, t@);
    assert(map_views(s.insert(i, t)) =~= map_views(s).insert(i, t@));
}

proof fn lemma_filter_push<A>(s: Seq<A>, x: A, pred: spec_fn(A) -> bool)
    ensures
        s.push(x).filter(pred) == if pred(x) {
            s.filter(pred).push(x)
        } else {
            s.filter(pred)
        },
{
    reveal(Seq::filter);
    assert(s.push(x).drop_last() =~= s);
    assert(s.push(x).last() == x);
}

proof fn lemma_subrange_push<A>(s: Seq<A>, i: int)
    requires
        0 <= i < s.len(),
    ensures
        s.subrange(0, i + 1) == s.subrange(0, i).push(s[i]),
{
    assert(s.subrange(0, i + 1) =~= s.subrange(0, i).push(s[i]));
}

fn max64(a: i64, b: i64) -> (r: i64)
    ensures
        r as int == max_int(a as int, b as int),
{
    if a >= b {
        a
    } else {
        b
    }
}

/// The task store: the canonical sequence of task records, active and
/// soft-deleted alike, in insertion order.
pub struct Db {
    rows: Vec<Task>,
}

impl View for Db {
    type V = Seq<TaskView>;

    closed spec fn view(&self) -> Seq<TaskView> {
        map_views(self.rows@)
    }
}

impl Db {
    /// A store with no records.
    pub fn init() -> (d: Db)
        ensures
            d@ == Seq::<TaskView>::empty(),
            db_wf(d@),
    {
        let d = Db { rows: Vec::new() };
        proof {
            assert(d@ =~= Seq::<TaskView>::empty());
        }
        d
    }

    /// Whether any record, active or soft-deleted, carries this identifier.
    pub fn contains_id(&self, id: u128) -> (r: bool)
        ensures
            r == has_id(self@, id),
    {
        let n = self.rows.len();
        let mut k: usize = 0;
        while k < n
            invariant
                0 <= k <= n,
                n == self.rows@.len(),
                forall|j: int| 0 <= j < k ==> (#[trigger] self@[j]).id != id,
            decreases n - k,
        {
            if self.rows[k].id == id {
                proof {
                    assert(self@[k as int].id == id);
                }
                return true;
            }
            k = k + 1;
        }
        false
    }

    /// Persists a new record as given; refuses an identifier that is already
    /// present, and succeeds exactly when the identifier is fresh.
    pub fn insert_task(&mut self, t: &Task) -> (r: Result<(), StoreError>)
        requires
            task_wf(t@),
            db_wf(old(self)@),
        ensures
            has_id(old(self)@, t@.id) ==> r == Err::<(), StoreError>(StoreError::DuplicateId)
                && final(self)@ == old(self)@,
            !has_id(old(self)@, t@.id) ==> r == Ok::<(), StoreError>(()) && final(self)@ == old(
                self,
            )@.push(t@),
            db_wf(final(self)@),
    {
        if self.contains_id(t.id) {
            Err(StoreError::DuplicateId)
        } else {
            let ghost pre = self.rows@;
            self.rows.push(t.clone());
            proof {
                lemma_map_views_push(pre, self.rows@.last());
            }
            Ok(())
        }
    }

    /// Overwrites title, notes, status, project and author of the active
    /// record with the given task's identifier, moving its `updated_at`
    /// forward to `now`; reports `NotFound` when no active record carries the
    /// identifier, and succeeds exactly when one does.
    pub fn update_task(&mut self, t: &Task, now: i64) -> (r: Result<(), StoreError>)
        requires
            task_wf(t@),
            db_wf(old(self)@),
        ensures
            final(self)@ == spec_update(old(self)@, t@, now as int),
            r == if has_active_id(old(self)@, t@.id) {
                Ok::<(), StoreError>(())
            } else {
                Err::<(), StoreError>(StoreError::NotFound)
            },
            db_wf(final(self)@),
    {
        let n = self.rows.len();
        let mut k: usize = 0;
        while k < n
            invariant
                0 <= k <= n,
                n == self.rows@.len(),
                self@ == old(self)@,
                task_wf(t@),
                db_wf(self@),
                forall|j: int|
                    0 <= j < k ==> !((#[trigger] self@[j]).id == t@.id && task_active(self@[j])),
            decreases n - k,
        {
            if self.rows[k].id == t.id && self.rows[k].deleted_at.is_none() {
                let upd = Task {
                    id: self.rows[k].id,
                    title: t.title.clone(),
                    notes: t.notes.clone(),
                    status: t.status,
                    project: t.project.clone(),
                    created_at: self.rows[k].created_at,
                    updated_at: max64(now, self.rows[k].created_at),
                    deleted_at: None,
                    updated_by: t.updated_by.clone(),
                };
                let ghost pre = self@;
                proof {
                    assert(pre[k as int].id == t@.id && task_active(pre[k as int]));
                }
                self.rows[k] = upd;
                proof {
                    let posts = self@;
                    assert forall|j: int| 0 <= j < posts.len() implies posts[j] == upd_one(
                        pre[j],
                        t@,
                        now as int,
                    ) by {
                        if j != k as int {
                            assert(pre[j].id != pre[k as int].id);
                        }
                    }
                    assert(posts =~= spec_update(pre, t@, now as int));
                }
                return Ok(());
            }
            k = k + 1;
        }
        proof {
            let pre = old(self)@;
            assert forall|j: int| 0 <= j < pre.len() implies pre[j] == upd_one(
                pre[j],
                t@,
                now as int,
            ) by {}
            assert(self@ =~= spec_update(pre, t@, now as int));
        }
        Err(StoreError::NotFound)
    }

    /// Soft-deletes the active record with this identifier by setting its
    /// `deleted_at`, and returns the timestamp it stored; returns `None`, and
    /// changes nothing, when no active record carries the identifier, so
    /// deletion is idempotent and never an error.
    pub fn delete_task(&mut self, id: u128, now: i64) -> (r: Option<i64>)
        requires
            db_wf(old(self)@),
        ensures
            final(self)@ == spec_delete(old(self)@, id, now as int),
            db_wf(final(self)@),
            (r is Some) == has_active_id(old(self)@, id),
            match r {
                Some(at) => exists|k: int|
                    0 <= k < old(self)@.len() && (#[trigger] old(self)@[k]).id == id && task_active(
                        old(self)@[k],
                    ) && at as int == max_int(now as int, old(self)@[k].updated_at),
                None => true,
            },
    {
        let n = self.rows.len();
        let mut k: usize = 0;
        while k < n
            invariant
                0 <= k <= n,
                n == self.rows@.len(),
                self@ == old(self)@,
                db_wf(self@),
                forall|j: int|
                    0 <= j < k ==> !((#[trigger] self@[j]).id == id && task_active(self@[j])),
            decreases n - k,
        {
            if self.rows[k].id == id && self.rows[k].deleted_at.is_none() {
                let at = max64(now, self.rows[k].updated_at);
                let del = Task {
                    id: self.rows[k].id,
                    title: self.rows[k].title.clone(),
                    notes: self.rows[k].notes.clone(),
                    status: self.rows[k].status,
                    project: self.rows[k].project.clone(),
                    created_at: self.rows[k].created_at,
                    updated_at: self.rows[k].updated_at,
                    deleted_at: Some(at),
                    updated_by: self.rows[k].updated_by.clone(),
                };
                let ghost pre = self@;
                proof {
                    assert(pre[k as int].id == id && task_active(pre[k as int]));
                }
                self.rows[k] = del;
                proof {
                    let posts = self@;
                    assert forall|j: int| 0 <= j < posts.len() implies posts[j] == del_one(
                        pre[j],
                        id,
                        now as int,
                    ) by {
                        if j != k as int {
                            assert(pre[j].id != pre[k as int].id);
                        }
                    }
                    assert(posts =~= spec_delete(pre, id, now as int));
                }
                return Some(at);
            }
            k = k + 1;
        }
        proof {
            let pre = old(self)@;
            assert forall|j: int| 0 <= j < pre.len() implies pre[j] == del_one(
                pre[j],
                id,
                now as int,
            ) by {}
            assert(self@ =~= spec_delete(pre, id, now as int));
        }
        None
    }

    /// All active records, most recently updated first: the result holds
    /// exactly the active records (as a multiset) and is sorted by
    /// `updated_at` descending.
    pub fn list_active_tasks(&self) -> (r: Vec<Task>)
        ensures
            map_views(r@).to_multiset() == active_views(self@).to_multiset(),
            sorted_desc(map_views(r@)),
            r@.len() == active_views(self@).len(),
    {
        let n = self.rows.len();
        let mut out: Vec<Task> = Vec::new();
        proof {
            assert(map_views(out@) =~= Seq::<TaskView>::empty());
            assert(active_views(self@.subrange(0, 0)) =~= Seq::<TaskView>::empty());
        }
        let mut i: usize = 0;
        while i < n
            invariant
                0 <= i <= n,
                n == self.rows@.len(),
                map_views(out@).to_multiset() == active_views(
                    self@.subrange(0, i as int),
                ).to_multiset(),
                sorted_desc(map_views(out@)),
            decreases n - i,
        {
            proof {
                lemma_subrange_push(self@, i as int);
                lemma_filter_push(
                    self@.subrange(0, i as int),
                    self@[i as int],
                    |t: TaskView| task_active(t),
                );
            }
            if self.rows[i].deleted_at.is_none() {
                proof {
                    assert(task_active(self@[i as int]));
                }
                let t = self.rows[i].clone();
                let ghost tv = t;
                let mut idx: usize = 0;
                let m = out.len();
                while idx < m && out[idx].updated_at >= t.updated_at
                    invariant
                        0 <= idx <= m,
                        m == out@.len(),
                        forall|j: int|
                            0 <= j < idx ==> (#[trigger] map_views(out@)[j]).updated_at
                                >= t@.updated_at,
                    decreases m - idx,
                {
                    idx = idx + 1;
                }
                let ghost ov = map_views(out@);
                let ghost pre = out@;
                out.insert(idx, t);
                proof {
                    lemma_map_views_insert(pre, idx as int, tv);
                    ov.insert_ensures(idx as int, tv@);
                    let nv = map_views(out@);
                    assert(nv == ov.insert(idx as int, tv@));
                    assert(nv.to_multiset() =~= ov.to_multiset().insert(tv@));
                    assert(tv@ == self@[i as int]);
                    assert forall|a: int, b: int|
                        0 <= a < b < nv.len() implies nv[a].updated_at >= nv[b].updated_at by {
                        if b < idx {
                            assert(nv[a] == ov[a] && nv[b] == ov[b]);
                        } else if a < idx && b == idx {
                            assert(nv[a] == ov[a] && nv[b] == tv@);
                        } else if a < idx && b > idx {
                            assert(nv[a] == ov[a]);
                            assert(nv[b] == ov[b - 1]);
                            if b - 1 > a {
                                assert(ov[a].updated_at >= ov[b - 1].updated_at);
                            }
                        } else if a == idx {
                            assert(nv[a] == tv@);
                            assert(nv[b] == ov[b - 1]);
                            assert((idx as int) < ov.len());
                            assert(ov[idx as int].updated_at < tv@.updated_at);
                            if b - 1 > idx {
                                assert(ov[idx as int].updated_at >= ov[b - 1].updated_at);
                            }
                        } else {
                            assert(nv[a] == ov[a - 1]);
                            assert(nv[b] == ov[b - 1]);
                        }
                    }
                }
            } else {
                proof {
                    assert(!task_active(self@[i as int]));
                }
            }
            i = i + 1;
        }
        proof {
            assert(self@.subrange(0, n as int) =~= self@);
            assert(map_views(out@).to_multiset().len() == active_views(self@).to_multiset().len());
        }
        out
    }
}

/// Whatever the filter keeps was in the sequence.
pub proof fn lemma_filter_subset<A>(s: Seq<A>, pred: spec_fn(A) -> bool)
    ensures
        forall|x: A| #[trigger] s.filter(pred).contains(x) ==> s.contains(x),
    decreases s.len(),
{
    reveal(Seq::filter);
    if s.len() > 0 {
        let sl = s.drop_last();
        lemma_filter_subset(sl, pred);
        assert forall|x: A| s.filter(pred).contains(x) implies s.contains(x) by {
            let f = s.filter(pred);
            if pred(s.last()) && x == s.last() {
                assert(s[s.len() - 1] == x);
            } else {
                let i = choose|i: int| 0 <= i < f.len() && f[i] == x;
                assert(sl.filter(pred).contains(x)) by {
                    if pred(s.last()) {
                        assert(f == sl.filter(pred).push(s.last()));
                        assert(i < f.len() - 1);
                        assert(sl.filter(pred)[i] == x);
                    } else {
                        assert(f == sl.filter(pred));
                        assert(sl.filter(pred)[i] == x);
                    }
                }
                let j = choose|j: int| 0 <= j < sl.len() && sl[j] == x;
                assert(s[j] == x);
            }
        }
    }
}

/// Appending an active record extends the active listing by that record.
pub proof fn lemma_active_views_push(s: Seq<TaskView>, t: TaskView)
    requires
        task_active(t),
    ensures
        active_views(s.push(t)) == active_views(s).push(t),
        active_views(s.push(t)).len() == active_views(s).len() + 1,
{
    lemma_filter_push(s, t, |t: TaskView| task_active(t));
}

/// Soft-deleting the one active record that carries an identifier removes
/// exactly that record from the active listing.
pub proof fn lemma_active_views_delete(s: Seq<TaskView>, id: u128, now: int, k: int)
    requires
        ids_unique(s),
        0 <= k < s.len(),
        s[k].id == id,
        task_active(s[k]),
    ensures
        active_views(spec_delete(s, id, now)).to_multiset() == active_views(
            s,
        ).to_multiset().remove(s[k]),
        active_views(spec_delete(s, id, now)).len() + 1 == active_views(s).len(),
    decreases s.len(),
{
    let d = spec_delete(s, id, now);
    let sl = s.drop_last();
    let x = s.last();
    let dl = spec_delete(sl, id, now);
    let dx = del_one(x, id, now);
    assert(s =~= sl.push(x));
    assert(d =~= dl.push(dx));
    lemma_filter_push(sl, x, |t: TaskView| task_active(t));
    lemma_filter_push(dl, dx, |t: TaskView| task_active(t));
    assert(active_views(s) == active_views(sl.push(x)));
    assert(active_views(d) == active_views(dl.push(dx)));
    if k == s.len() - 1 {
        assert(x == s[k]);
        assert(!task_active(dx));
        assert forall|j: int| 0 <= j < sl.len() implies (#[trigger] sl[j]).id != id by {
            assert(s[j].id != s[k].id);
        }
        assert forall|j: int| 0 <= j < dl.len() implies dl[j] == sl[j] by {}
        assert(dl =~= sl);
        assert(active_views(d) == active_views(sl));
        assert(active_views(s) == active_views(sl).push(x));
        assert(active_views(s).to_multiset() == active_views(sl).to_multiset().insert(x));
        assert(active_views(s).to_multiset().remove(x) =~= active_views(sl).to_multiset());
    } else {
        assert(x.id != s[k].id) by {
            assert(ids_unique(s));
        }
        assert(dx == x);
        assert forall|i: int, j: int| 0 <= i < j < sl.len() implies sl[i].id != sl[j].id by {
            assert(s[i].id != s[j].id);
        }
        assert(sl[k] == s[k]);
        lemma_active_views_delete(sl, id, now, k);
        if task_active(x) {
            assert(active_views(d) == active_views(dl).push(x));
            assert(active_views(s) == active_views(sl).push(x));
            assert(active_views(d).to_multiset() == active_views(dl).to_multiset().insert(x));
            assert(active_views(s).to_multiset() == active_views(sl).to_multiset().insert(x));
            assert(x != s[k]);
            assert(active_views(dl).to_multiset().insert(x) =~= active_views(
                sl,
            ).to_multiset().insert(x).remove(s[k]));
        } else {
            assert(active_views(d) == active_views(dl));
            assert(active_views(s) == active_views(sl));
        }
    }
}

/// Deleting an identifier that no active record carries changes nothing:
/// deleting an already-deleted or never-existing task is a no-op, not an
/// error.
pub proof fn lemma_delete_absent(s: Seq<TaskView>, id: u128, now: int)
    requires
        !has_active_id(s, id),
    ensures
        spec_delete(s, id, now) == s,
{
    assert forall|j: int| 0 <= j < s.len() implies del_one(#[trigger] s[j], id, now) == s[j] by {
        if s[j].id == id && task_active(s[j]) {
            assert(has_active_id(s, id));
        }
    }
    assert(spec_delete(s, id, now) =~= s);
}

/// Deletion is idempotent: deleting the same identifier a second time, at
/// any later clock reading, leaves the store exactly as the first deletion
/// left it.
pub proof fn lemma_delete_idempotent(s: Seq<TaskView>, id: u128, n1: int, n2: int)
    ensures
        spec_delete(spec_delete(s, id, n1), id, n2) == spec_delete(s, id, n1),
{
    let d = spec_delete(s, id, n1);
    assert(!has_active_id(d, id)) by {
        if has_active_id(d, id) {
            let k = choose|k: int| 0 <= k < d.len() && d[k].id == id && task_active(d[k]);
            assert(d[k] == del_one(s[k], id, n1));
        }
    }
    lemma_delete_absent(d, id, n2);
}

/// Round-trip: an active task pushed into the store stands, equal in every
/// field, in the active listing of the store.
pub proof fn lemma_insert_round_trip(s: Seq<TaskView>, t: TaskView)
    requires
        task_active(t),
    ensures
        active_views(s.push(t)).contains(t),
        active_views(s.push(t)).to_multiset().count(t) > 0,
{
    lemma_active_views_push(s, t);
    let a = active_views(s.push(t));
    assert(a[a.len() - 1] == t);
}

/// One store operation, for reasoning about whole histories of them.
pub ghost enum StoreEvent {
    Add(TaskView),
    Delete(u128, int),
}

pub open spec fn event_deletes(e: StoreEvent, id: u128) -> bool {
    match e {
        StoreEvent::Delete(d, _) => d == id,
        _ => false,
    }
}

pub open spec fn apply_event(s: Seq<TaskView>, e: StoreEvent) -> Seq<TaskView> {
    match e {
        StoreEvent::Add(t) => s.push(t),
        StoreEvent::Delete(id, now) => spec_delete(s, id, now),
    }
}

pub open spec fn run_events(s: Seq<TaskView>, ops: Seq<StoreEvent>) -> Seq<TaskView>
    decreases ops.len(),
{
    if ops.len() == 0 {
        s
    } else {
        run_events(apply_event(s, ops[0]), ops.drop_first())
    }
}

/// The runs of operations the store accepts: an addition brings a
/// well-formed, active task under an identifier the store does not hold yet
/// (exactly what `insert_task` succeeds on); a deletion is always accepted.
pub open spec fn events_valid(s: Seq<TaskView>, ops: Seq<StoreEvent>) -> bool
    decreases ops.len(),
{
    if ops.len() == 0 {
        true
    } else {
        (match ops[0] {
            StoreEvent::Add(t) => task_wf(t) && task_active(t) && !has_id(s, t.id),
            StoreEvent::Delete(_, _) => true,
        }) && events_valid(apply_event(s, ops[0]), ops.drop_first())
    }
}

pub open spec fn deleted_later(ops: Seq<StoreEvent>, id: u128) -> bool {
    exists|k: int| 0 <= k < ops.len() && event_deletes(#[trigger] ops[k], id)
}

/// The tasks a run of operations creates and never deletes afterwards.
pub open spec fn survivors(ops: Seq<StoreEvent>) -> Seq<TaskView>
    decreases ops.len(),
{
    if ops.len() == 0 {
        Seq::empty()
    } else {
        match ops[0] {
            StoreEvent::Add(t) => if deleted_later(ops.drop_first(), t.id) {
                survivors(ops.drop_first())
            } else {
                survivors(ops.drop_first()).push(t)
            },
            StoreEvent::Delete(_, _) => survivors(ops.drop_first()),
        }
    }
}

/// The active records of the starting store whose identifier the run never
/// deletes.
pub open spec fn kept(s: Seq<TaskView>, ops: Seq<StoreEvent>) -> Seq<TaskView> {
    s.filter(|t: TaskView| task_active(t) && !deleted_later(ops, t.id))
}

proof fn lemma_filter_congr<A>(s: Seq<A>, p: spec_fn(A) -> bool, q: spec_fn(A) -> bool)
    requires
        forall|x: A| #[trigger] p(x) == q(x),
    ensures
        s.filter(p) == s.filter(q),
    decreases s.len(),
{
    reveal(Seq::filter);
    if s.len() > 0 {
        lemma_filter_congr(s.drop_last(), p, q);
    }
}

proof fn lemma_filter_align<A>(s1: Seq<A>, s2: Seq<A>, p: spec_fn(A) -> bool, q: spec_fn(A) -> bool)
    requires
        s1.len() == s2.len(),
        forall|j: int|
            0 <= j < s1.len() ==> (p(#[trigger] s1[j]) == q(s2[j]) && (p(s1[j]) ==> s1[j]
                == s2[j])),
    ensures
        s1.filter(p) == s2.filter(q),
    decreases s1.len(),
{
    reveal(Seq::filter);
    if s1.len() > 0 {
        let t1 = s1.drop_last();
        let t2 = s2.drop_last();
        assert forall|j: int|
            0 <= j < t1.len() implies (p(#[trigger] t1[j]) == q(t2[j]) && (p(t1[j]) ==> t1[j]
                == t2[j])) by {
            assert(t1[j] == s1[j]);
            assert(t2[j] == s2[j]);
        }
        lemma_filter_align(t1, t2, p, q);
        assert(s1.last() == s1[s1.len() - 1]);
        assert(s2.last() == s2[s2.len() - 1]);
    }
}

proof fn lemma_deleted_later_cons(ops: Seq<StoreEvent>, id: u128)
    requires
        ops.len() > 0,
    ensures
        deleted_later(ops, id) == (event_deletes(ops[0], id) || deleted_later(
            ops.drop_first(),
            id,
        )),
{
    let rest = ops.drop_first();
    if deleted_later(ops, id) {
        let k = choose|k: int| 0 <= k < ops.len() && event_deletes(ops[k], id);
        if k != 0 {
            assert(rest[k - 1] == ops[k]);
            assert(event_deletes(rest[k - 1], id));
        }
    }
    if event_deletes(ops[0], id) {
        assert(event_deletes(ops[0], id));
        assert(deleted_later(ops, id));
    }
    if deleted_later(rest, id) {
        let k = choose|k: int| 0 <= k < rest.len() && event_deletes(rest[k], id);
        assert(ops[k + 1] == rest[k]);
        assert(event_deletes(ops[k + 1], id));
    }
}

/// After any accepted run of additions and deletions, the active records are
/// exactly the kept part of the starting store together with the added tasks
/// that were not deleted afterwards.
pub proof fn lemma_run_events_active(s: Seq<TaskView>, ops: Seq<StoreEvent>)
    requires
        ids_unique(s),
        events_valid(s, ops),
    ensures
        active_views(run_events(s, ops)).to_multiset() == kept(s, ops).to_multiset().add(
            survivors(ops).to_multiset(),
        ),
    decreases ops.len(),
{
    let pops = |t: TaskView| task_active(t) && !deleted_later(ops, t.id);
    if ops.len() == 0 {
        let pact = |t: TaskView| task_active(t);
        assert forall|x: TaskView| #[trigger] pops(x) == pact(x) by {
            assert(!deleted_later(ops, x.id));
        }
        lemma_filter_congr(s, pops, pact);
        assert(active_views(s).to_multiset() =~= kept(s, ops).to_multiset().add(
            survivors(ops).to_multiset(),
        ));
    } else {
        let e = ops[0];
        let rest = ops.drop_first();
        let prest = |t: TaskView| task_active(t) && !deleted_later(rest, t.id);
        match e {
            StoreEvent::Add(t) => {
                let s2 = s.push(t);
                assert forall|i: int, j: int| 0 <= i < j < s2.len() implies s2[i].id != s2[j].id by {
                    if j == s2.len() - 1 {
                        assert(s2[j] == t);
                        assert(s2[i] == s[i]);
                        if s[i].id == t.id {
                            assert(has_id(s, t.id));
                        }
                    } else {
                        assert(s2[i] == s[i] && s2[j] == s[j]);
                    }
                }
                lemma_run_events_active(s2, rest);
                lemma_filter_push(s, t, prest);
                assert forall|x: TaskView| #[trigger] pops(x) == prest(x) by {
                    lemma_deleted_later_cons(ops, x.id);
                }
                lemma_filter_congr(s, pops, prest);
                assert(kept(s, ops) == s.filter(prest));
                assert(kept(s2, rest) == s2.filter(prest));
                lemma_deleted_later_cons(ops, t.id);
                if deleted_later(rest, t.id) {
                    assert(!prest(t));
                    assert(s2.filter(prest) == s.filter(prest));
                    assert(survivors(ops) == survivors(rest));
                } else {
                    assert(prest(t));
                    assert(s2.filter(prest) == s.filter(prest).push(t));
                    assert(survivors(ops) == survivors(rest).push(t));
                    assert(s.filter(prest).push(t).to_multiset() == s.filter(
                        prest,
                    ).to_multiset().insert(t));
                    assert(survivors(rest).push(t).to_multiset() == survivors(
                        rest,
                    ).to_multiset().insert(t));
                    assert(s.filter(prest).to_multiset().insert(t).add(
                        survivors(rest).to_multiset(),
                    ) =~= s.filter(prest).to_multiset().add(
                        survivors(rest).to_multiset().insert(t),
                    ));
                }
            },
            StoreEvent::Delete(id, now) => {
                let s2 = spec_delete(s, id, now);
                assert(s2.len() == s.len());
                assert forall|j: int| 0 <= j < s2.len() implies (#[trigger] s2[j]).id == s[j].id by {
                    assert(s2[j] == del_one(s[j], id, now));
                }
                assert forall|i: int, j: int| 0 <= i < j < s2.len() implies s2[i].id != s2[j].id by {
                    assert(s[i].id != s[j].id);
                }
                lemma_run_events_active(s2, rest);
                assert forall|j: int|
                    0 <= j < s2.len() implies (prest(#[trigger] s2[j]) == pops(s[j]) && (prest(
                    s2[j],
                ) ==> s2[j] == s[j])) by {
                    assert(s2[j] == del_one(s[j], id, now));
                    lemma_deleted_later_cons(ops, s[j].id);
                    assert(event_deletes(ops[0], s[j].id) == (s[j].id == id));
                }
                lemma_filter_align(s2, s, prest, pops);
                assert(kept(s2, rest) == kept(s, ops));
                assert(survivors(ops) == survivors(rest));
            },
        }
    }
}

/// From an empty store, the active records after any accepted run are
/// exactly the tasks it added and never deleted: what was created, minus
/// what was deleted.
pub proof fn lemma_history_from_empty(ops: Seq<StoreEvent>)
    requires
        events_valid(Seq::empty(), ops),
    ensures
        active_views(run_events(Seq::empty(), ops)).to_multiset() == survivors(ops).to_multiset(),
{
    lemma_run_events_active(Seq::empty(), ops);
    assert(kept(Seq::empty(), ops) =~= Seq::<TaskView>::empty());
    assert(kept(Seq::empty(), ops).to_multiset() =~= Multiset::<TaskView>::empty());
    assert(kept(Seq::empty(), ops).to_multiset().add(survivors(ops).to_multiset())
        =~= survivors(ops).to_multiset());
}

} // verus!
