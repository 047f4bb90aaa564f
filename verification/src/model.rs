use vstd::prelude::*;

use crate::text::{trim_spec, trim_str, str_eq, trim_front_spec, trim_back_spec, is_ws};

verus! {

/// Lifecycle stage of a task.
#[derive(Debug, Clone, Copy, PartialEq, Eq, Structural)]
pub enum Status {
    Todo,
    Doing,
    Done,
    Archived,
}

/// The name under which a status is stored in the task table's text column.
pub open spec fn spec_status_name(s: Status) -> Seq<char> {
    match s {
        Status::Todo => "Todo"@,
        Status::Doing => "Doing"@,
        Status::Done => "Done"@,
        Status::Archived => "Archived"@,
    }
}

/// The status a stored name decodes to; unknown names fall back to `Todo`.
pub open spec fn spec_status_of_name(n: Seq<char>) -> Status {
    if n == "Doing"@ {
        Status::Doing
    } else if n == "Done"@ {
        Status::Done
    } else if n == "Archived"@ {
        Status::Archived
    } else {
        Status::Todo
    }
}

pub fn status_name(s: &Status) -> (r: &'static str)
    ensures
        r@ == spec_status_name(*s),
{
    match s {
        Status::Todo => "Todo",
        Status::Doing => "Doing",
        Status::Done => "Done",
        Status::Archived => "Archived",
    }
}

pub fn status_from_name(name: &str) -> (r: Status)
    ensures
        r == spec_status_of_name(name@),
{
    if str_eq(name, "Doing") {
        Status::Doing
    } else if str_eq(name, "Done") {
        Status::Done
    } else if str_eq(name, "Archived") {
        Status::Archived
    } else {
        Status::Todo
    }
}

/// Encoding a status and decoding the name again yields the same status.
pub proof fn lemma_status_name_round_trip(s: Status)
    ensures
        spec_status_of_name(spec_status_name(s)) == s,
{
    reveal_strlit("Todo");
    reveal_strlit("Doing");
    reveal_strlit("Done");
    reveal_strlit("Archived");
    assert("Todo"@.len() == 4);
    assert("Doing"@.len() == 5);
    assert("Done"@.len() == 4);
    assert("Archived"@.len() == 8);
    assert("Todo"@[0] == 'T');
    assert("Done"@[0] == 'D');
}

/// The durable unit of work. Timestamps are milliseconds since the epoch;
/// `deleted_at` of `None` marks the task as active, `Some` as soft-deleted.
#[derive(Debug)]
pub struct Task {
    pub id: u128,
    pub title: String,
    pub notes: String,
    pub status: Status,
    pub project: String,
    pub created_at: i64,
    pub updated_at: i64,
    pub deleted_at: Option<i64>,
    pub updated_by: String,
}

/// Mathematical image of a task: strings as character sequences.
pub ghost struct TaskView {
    pub id: u128,
    pub title: Seq<char>,
    pub notes: Seq<char>,
    pub status: Status,
    pub project: Seq<char>,
    pub created_at: int,
    pub updated_at: int,
    pub deleted_at: Option<int>,
    pub updated_by: Seq<char>,
}

impl View for Task {
    type V = TaskView;

    open spec fn view(&self) -> TaskView {
        TaskView {
            id: self.id,
            title: self.title@,
            notes: self.notes@,
            status: self.status,
            project: self.project@,
            created_at: self.created_at as int,
            updated_at: self.updated_at as int,
            deleted_at: match self.deleted_at {
                Some(d) => Some(d as int),
                None => None,
            },
            updated_by: self.updated_by@,
        }
    }
}

/// The stored invariants of a task record: the title is kept in trimmed,
/// non-empty form, a task is never touched before it is created, and a
/// soft-deleted task was deleted no earlier than its last update.
pub open spec fn task_wf(t: TaskView) -> bool {
    &&& t.title.len() > 0
    &&& trim_spec(t.title) == t.title
    &&& t.created_at <= t.updated_at
    &&& match t.deleted_at {
        Some(d) => t.updated_at <= d,
        None => true,
    }
}

/// A task view is active when it has not been soft-deleted.
pub open spec fn task_active(t: TaskView) -> bool {
    t.deleted_at is None
}

proof fn lemma_trim_front_no_leading_ws(s: Seq<char>)
    ensures
        trim_front_spec(s).len() > 0 ==> !is_ws(trim_front_spec(s)[0]),
    decreases s.len(),
{
    if s.len() > 0 && is_ws(s[0]) {
        lemma_trim_front_no_leading_ws(s.drop_first());
    }
}

proof fn lemma_trim_back_prefix(s: Seq<char>)
    ensures
        trim_back_spec(s).len() <= s.len(),
        trim_back_spec(s) == s.subrange(0, trim_back_spec(s).len() as int),
    decreases s.len(),
{
    if s.len() > 0 && is_ws(s.last()) {
        let t = s.drop_last();
        lemma_trim_back_prefix(t);
        assert(t.subrange(0, trim_back_spec(t).len() as int) =~= s.subrange(
            0,
            trim_back_spec(t).len() as int,
        ));
    } else {
        assert(s.subrange(0, s.len() as int) =~= s);
    }
}

proof fn lemma_trim_back_no_trailing_ws(s: Seq<char>)
    ensures
        trim_back_spec(s).len() > 0 ==> !is_ws(trim_back_spec(s).last()),
    decreases s.len(),
{
    if s.len() > 0 && is_ws(s.last()) {
        lemma_trim_back_no_trailing_ws(s.drop_last());
    }
}

proof fn lemma_trim_front_fixpoint(s: Seq<char>)
    requires
        s.len() > 0 ==> !is_ws(s[0]),
    ensures
        trim_front_spec(s) == s,
{
}

proof fn lemma_trim_back_fixpoint(s: Seq<char>)
    requires
        s.len() > 0 ==> !is_ws(s.last()),
    ensures
        trim_back_spec(s) == s,
{
}

/// Trimming is idempotent: a trimmed sequence trims to itself.
pub proof fn lemma_trim_idempotent(s: Seq<char>)
    ensures
        trim_spec(trim_spec(s)) == trim_spec(s),
{
    let f = trim_front_spec(s);
    let t = trim_back_spec(f);
    lemma_trim_front_no_leading_ws(s);
    lemma_trim_back_prefix(f);
    lemma_trim_back_no_trailing_ws(f);
    if t.len() > 0 {
        assert(t[0] == f[0]);
    }
    lemma_trim_front_fixpoint(t);
    lemma_trim_back_fixpoint(t);
}

impl Task {
    /// A fresh task: trimmed title, empty notes and project, status `Todo`,
    /// both timestamps set to `now`, not deleted, attributed to `updated_by`.
    /// The identifier and the clock reading are passed in by the caller.
    pub fn new(title: &str, id: u128, now: i64, updated_by: String) -> (t: Task)
        requires
            trim_spec(title@).len() > 0,
        ensures
            t@ == (TaskView {
                id,
                title: trim_spec(title@),
                notes: Seq::<char>::empty(),
                status: Status::Todo,
                project: Seq::<char>::empty(),
                created_at: now as int,
                updated_at: now as int,
                deleted_at: None,
                updated_by: updated_by@,
            }),
            task_wf(t@),
            task_active(t@),
    {
        proof {
            lemma_trim_idempotent(title@);
        }
        let trimmed = trim_str(title);
        Task {
            id,
            title: trimmed.to_owned(),
            notes: String::new(),
            status: Status::Todo,
            project: String::new(),
            created_at: now,
            updated_at: now,
            deleted_at: None,
            updated_by,
        }
    }
}

impl Clone for Task {
    /// A clone carries every field over unchanged.
    fn clone(&self) -> (r: Task)
        ensures
            r@ == self@,
    {
        Task {
            id: self.id,
            title: self.title.clone(),
            notes: self.notes.clone(),
            status: self.status,
            project: self.project.clone(),
            created_at: self.created_at,
            updated_at: self.updated_at,
            deleted_at: self.deleted_at,
            updated_by: self.updated_by.clone(),
        }
    }
}

} // verus!
