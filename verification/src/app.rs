use vstd::prelude::*;

use crate::model::{Status, Task, TaskView, task_active};
use crate::store::{
    active_views, db_wf, has_id, map_views, max_int, sorted_desc, spec_delete, Db, StoreError,
    lemma_filter_subset, lemma_active_views_delete,
};
use crate::text::{pop_char, push_char, trim_spec, trim_str};

verus! {

broadcast use vstd::seq_lib::group_to_multiset_ensures;

/// A key press, reduced to what the state machine reads: the key itself and
/// whether a control or alt modifier was held.
#[derive(Debug, Clone, Copy, PartialEq, Eq, Structural)]
pub enum KeyCode {
    Char(char),
    Up,
    Down,
    Enter,
    Esc,
    Tab,
    BackTab,
    Backspace,
    Other,
}

#[derive(Debug, Clone, Copy, PartialEq, Eq, Structural)]
pub struct KeyEvent {
    pub code: KeyCode,
    pub ctrl: bool,
    pub alt: bool,
}

/// Which field of the add form receives text input.
#[derive(Debug, Clone, Copy, PartialEq, Eq, Structural)]
pub enum AddField {
    Title,
    Notes,
}

/// The form shown while a task is being added: two text buffers and the
/// marker saying which of them is focused.
#[derive(Debug)]
pub struct AddForm {
    pub title: String,
    pub notes: String,
    pub field: AddField,
}

pub ghost struct AddFormView {
    pub title: Seq<char>,
    pub notes: Seq<char>,
    pub field: AddField,
}

impl View for AddForm {
    type V = AddFormView;

    open spec fn view(&self) -> AddFormView {
        AddFormView { title: self.title@, notes: self.notes@, field: self.field }
    }
}

/// The controller is either browsing the list or editing the add form.
#[derive(Debug)]
pub enum Mode {
    Normal,
    Adding(AddForm),
}

pub ghost enum ModeView {
    Normal,
    Adding(AddFormView),
}

impl View for Mode {
    type V = ModeView;

    open spec fn view(&self) -> ModeView {
        match self {
            Mode::Normal => ModeView::Normal,
            Mode::Adding(f) => ModeView::Adding(f@),
        }
    }
}

/// A durable write the state machine performed on its store, reported to the
/// caller so a mirror of the store can replay it.
#[derive(Debug)]
pub enum StoreOp {
    Inserted(Task),
    Deleted(u128, i64),
}

/// What one handled key produced: whether the session should end, and the
/// store write to replay, if any.
#[derive(Debug)]
pub struct Step {
    pub quit: bool,
    pub op: Option<StoreOp>,
}

/// The application state: the store, the snapshot of active tasks, the
/// selection, the mode, and the per-run device identity used to attribute
/// writes.
pub struct App {
    pub db: Db,
    pub selected: usize,
    pub tasks: Vec<Task>,
    pub show_done: bool,
    pub running_task: Option<u128>,
    pub mode: Mode,
    pub device: String,
}

pub ghost struct AppView {
    pub db: Seq<TaskView>,
    pub selected: int,
    pub tasks: Seq<TaskView>,
    pub show_done: bool,
    pub running_task: Option<u128>,
    pub mode: ModeView,
    pub device: Seq<char>,
}

impl View for App {
    type V = AppView;

    open spec fn view(&self) -> AppView {
        AppView {
            db: self.db@,
            selected: self.selected as int,
            tasks: map_views(self.tasks@),
            show_done: self.show_done,
            running_task: self.running_task,
            mode: self.mode@,
            device: self.device@,
        }
    }
}

/// The snapshot shows exactly the active records of the store, most recently
/// updated first.
pub open spec fn snapshot_fresh(a: AppView) -> bool {
    &&& a.tasks.to_multiset() == active_views(a.db).to_multiset()
    &&& sorted_desc(a.tasks)
}

/// The reachable-state invariant: a well-formed store, a fresh snapshot, and
/// a selection inside the snapshot (pinned to 0 when the snapshot is empty).
pub open spec fn app_wf(a: AppView) -> bool {
    &&& db_wf(a.db)
    &&& snapshot_fresh(a)
    &&& (a.tasks.len() > 0 ==> 0 <= a.selected < a.tasks.len())
    &&& (a.tasks.len() == 0 ==> a.selected == 0)
}

/// The fields a key press never touches.
pub open spec fn same_flags(pre: AppView, post: AppView) -> bool {
    &&& post.show_done == pre.show_done
    &&& post.running_task == pre.running_task
    &&& post.device == pre.device
}

pub open spec fn blank_form() -> AddFormView {
    AddFormView { title: Seq::empty(), notes: Seq::empty(), field: AddField::Title }
}

pub open spec fn toggled(f: AddField) -> AddField {
    match f {
        AddField::Title => AddField::Notes,
        AddField::Notes => AddField::Title,
    }
}

/// Backspace on the focused buffer: its last character goes, or nothing
/// happens when it is empty.
pub open spec fn form_pop(f: AddFormView) -> AddFormView {
    match f.field {
        AddField::Title => AddFormView {
            title: if f.title.len() > 0 {
                f.title.drop_last()
            } else {
                f.title
            },
            ..f
        },
        AddField::Notes => AddFormView {
            notes: if f.notes.len() > 0 {
                f.notes.drop_last()
            } else {
                f.notes
            },
            ..f
        },
    }
}

/// A printable character appended to the focused buffer.
pub open spec fn form_push(f: AddFormView, c: char) -> AddFormView {
    match f.field {
        AddField::Title => AddFormView { title: f.title.push(c), ..f },
        AddField::Notes => AddFormView { notes: f.notes.push(c), ..f },
    }
}

/// The state did not move and nothing was written or quit.
pub open spec fn noop_post(pre: AppView, post: AppView, step: Step) -> bool {
    post == pre && !step.quit && step.op is None
}

pub open spec fn nav_down_post(pre: AppView, post: AppView, step: Step) -> bool {
    &&& post == AppView {
        selected: if pre.selected + 1 < pre.tasks.len() {
            pre.selected + 1
        } else {
            pre.selected
        },
        ..pre
    }
    &&& !step.quit
    &&& step.op is None
}

pub open spec fn nav_up_post(pre: AppView, post: AppView, step: Step) -> bool {
    &&& post == AppView {
        selected: if pre.selected > 0 {
            pre.selected - 1
        } else {
            0
        },
        ..pre
    }
    &&& !step.quit
    &&& step.op is None
}

/// Deleting the selected task: the store soft-deletes its identifier, the
/// snapshot is refreshed (one task shorter), and the selection is clamped
/// into the new snapshot. With an empty snapshot nothing happens.
pub open spec fn delete_post(pre: AppView, now: int, post: AppView, step: Step) -> bool {
    if pre.tasks.len() == 0 {
        noop_post(pre, post, step)
    } else {
        let victim = pre.tasks[pre.selected];
        &&& post.db == spec_delete(pre.db, victim.id, now)
        &&& snapshot_fresh(post)
        &&& post.tasks.len() + 1 == pre.tasks.len()
        &&& post.selected == if pre.selected < post.tasks.len() {
            pre.selected
        } else if post.tasks.len() > 0 {
            post.tasks.len() - 1
        } else {
            0
        }
        &&& post.mode == pre.mode
        &&& same_flags(pre, post)
        &&& !step.quit
        &&& match step.op {
            Some(StoreOp::Deleted(did, dat)) => did == victim.id && dat as int == max_int(
                now,
                victim.updated_at,
            ),
            _ => false,
        }
    }
}

/// What a key does in `Normal` mode: `q` quits; down/`j` and up/`k` move the
/// selection, clamped to the snapshot; `a` opens a blank add form focused on
/// the title; `x` deletes the selected task; everything else is a no-op.
pub open spec fn normal_post(pre: AppView, key: KeyEvent, now: int, post: AppView, step: Step) -> bool {
    match key.code {
        KeyCode::Char(c) => {
            if c == 'q' {
                post == pre && step.quit && step.op is None
            } else if c == 'j' {
                nav_down_post(pre, post, step)
            } else if c == 'k' {
                nav_up_post(pre, post, step)
            } else if c == 'a' {
                &&& post == AppView { mode: ModeView::Adding(blank_form()), ..pre }
                &&& !step.quit
                &&& step.op is None
            } else if c == 'x' {
                delete_post(pre, now, post, step)
            } else {
                noop_post(pre, post, step)
            }
        },
        KeyCode::Down => nav_down_post(pre, post, step),
        KeyCode::Up => nav_up_post(pre, post, step),
        _ => noop_post(pre, post, step),
    }
}

/// The task a confirmed add form persists: trimmed title and notes, status
/// `Todo`, empty project, both timestamps at `now`, attributed to this run.
pub open spec fn form_task(form: AddFormView, id: u128, now: int, device: Seq<char>) -> TaskView {
    TaskView {
        id,
        title: trim_spec(form.title),
        notes: trim_spec(form.notes),
        status: Status::Todo,
        project: Seq::empty(),
        created_at: now,
        updated_at: now,
        deleted_at: None,
        updated_by: device,
    }
}

/// Confirming the form: the new task is persisted, the snapshot is refreshed
/// (one task longer), the selection returns to the top and the mode to
/// `Normal`, and the insertion is reported for replay.
pub open spec fn insert_post(
    pre: AppView,
    form: AddFormView,
    now: int,
    id: u128,
    post: AppView,
    step: Step,
) -> bool {
    let nt = form_task(form, id, now, pre.device);
    &&& post.db == pre.db.push(nt)
    &&& snapshot_fresh(post)
    &&& post.tasks.len() == pre.tasks.len() + 1
    &&& post.selected == 0
    &&& post.mode == ModeView::Normal
    &&& same_flags(pre, post)
    &&& !step.quit
    &&& match step.op {
        Some(StoreOp::Inserted(t)) => t@ == nt,
        _ => false,
    }
}

/// What a key does in `Adding` mode: Escape discards the form; Enter with a
/// non-blank title persists the task (an Enter on a blank title does
/// nothing); Tab and Shift-Tab toggle the focused field; Backspace, and the
/// control-H fallback, drop the focused buffer's last character; a character
/// without control or alt held is appended to the focused buffer; everything
/// else is a no-op. The one failure is inserting an identifier the store
/// already holds, which leaves the whole state as it was.
pub open spec fn adding_post(
    pre: AppView,
    key: KeyEvent,
    now: int,
    id: u128,
    post: AppView,
    r: Result<Step, StoreError>,
) -> bool {
    match pre.mode {
        ModeView::Normal => true,
        ModeView::Adding(form) => match key.code {
            KeyCode::Esc => r matches Ok(step) && {
                &&& post == AppView { mode: ModeView::Normal, ..pre }
                &&& !step.quit
                &&& step.op is None
            },
            KeyCode::Enter => {
                if trim_spec(form.title).len() == 0 {
                    r matches Ok(step) && noop_post(pre, post, step)
                } else if !has_id(pre.db, id) {
                    r matches Ok(step) && insert_post(pre, form, now, id, post, step)
                } else {
                    r == Err::<Step, StoreError>(StoreError::DuplicateId) && post == pre
                }
            },
            KeyCode::Tab | KeyCode::BackTab => r matches Ok(step) && {
                &&& post == AppView {
                    mode: ModeView::Adding(AddFormView { field: toggled(form.field), ..form }),
                    ..pre
                }
                &&& !step.quit
                &&& step.op is None
            },
            KeyCode::Backspace => r matches Ok(step) && {
                &&& post == AppView { mode: ModeView::Adding(form_pop(form)), ..pre }
                &&& !step.quit
                &&& step.op is None
            },
            KeyCode::Char(c) => {
                if c == 'h' && key.ctrl {
                    r matches Ok(step) && {
                        &&& post == AppView { mode: ModeView::Adding(form_pop(form)), ..pre }
                        &&& !step.quit
                        &&& step.op is None
                    }
                } else if !key.ctrl && !key.alt {
                    r matches Ok(step) && {
                        &&& post == AppView { mode: ModeView::Adding(form_push(form, c)), ..pre }
                        &&& !step.quit
                        &&& step.op is None
                    }
                } else {
                    r matches Ok(step) && noop_post(pre, post, step)
                }
            },
            _ => r matches Ok(step) && noop_post(pre, post, step),
        },
    }
}

/// One key handled from either mode, with the clock reading and the fresh
/// identifier the handler drew.
pub open spec fn on_key_post(
    pre: AppView,
    key: KeyEvent,
    now: int,
    id: u128,
    post: AppView,
    r: Result<Step, StoreError>,
) -> bool {
    match pre.mode {
        ModeView::Normal => r matches Ok(step) && normal_post(pre, key, now, post, step),
        ModeView::Adding(_) => adding_post(pre, key, now, id, post, r),
    }
}

/// Relies on `chrono::Utc::now` and `timestamp_millis`: the current wall
/// clock in milliseconds since the epoch. Nothing is assumed of the reading.
#[verifier::external_body]
fn now_millis() -> i64 {
    chrono::Utc::now().timestamp_millis()
}

/// Relies on `uuid::Uuid::new_v4` and `as_u128`: a randomly drawn 128-bit
/// identifier. Nothing is assumed of the draw.
#[verifier::external_body]
fn fresh_id() -> u128 {
    uuid::Uuid::new_v4().as_u128()
}

impl App {
    /// A controller over the given store and per-run device identity: the
    /// snapshot is listed from the store, the selection starts at the top,
    /// and the mode is `Normal`.
    pub fn init(db: Db, device: String) -> (a: App)
        requires
            db_wf(db@),
        ensures
            a@.db == db@,
            a@.device == device@,
            a@.selected == 0,
            a@.mode == ModeView::Normal,
            a@.show_done == false,
            a@.running_task is None,
            app_wf(a@),
    {
        let tasks = db.list_active_tasks();
        App {
            db,
            selected: 0,
            tasks,
            show_done: false,
            running_task: None,
            mode: Mode::Normal,
            device,
        }
    }

    /// Periodic upkeep between key presses; reserved, and observably a no-op.
    pub fn tick(&mut self)
        ensures
            final(self)@ == old(self)@,
    {
    }

    /// Handles one key in `Normal` mode. This never fails: navigation only
    /// moves the selection, and deletion is idempotent at the store.
    pub fn on_key_normal(&mut self, key: KeyEvent, now: i64) -> (step: Step)
        requires
            app_wf(old(self)@),
            old(self)@.mode is Normal,
        ensures
            app_wf(final(self)@),
            normal_post(old(self)@, key, now as int, final(self)@, step),
    {
        match key.code {
            KeyCode::Char(c) => {
                if c == 'q' {
                    Step { quit: true, op: None }
                } else if c == 'j' {
                    self.nav_down();
                    Step { quit: false, op: None }
                } else if c == 'k' {
                    self.nav_up();
                    Step { quit: false, op: None }
                } else if c == 'a' {
                    self.mode = Mode::Adding(
                        AddForm { title: String::new(), notes: String::new(), field: AddField::Title },
                    );
                    Step { quit: false, op: None }
                } else if c == 'x' {
                    self.delete_selected(now)
                } else {
                    Step { quit: false, op: None }
                }
            },
            KeyCode::Down => {
                self.nav_down();
                Step { quit: false, op: None }
            },
            KeyCode::Up => {
                self.nav_up();
                Step { quit: false, op: None }
            },
            _ => Step { quit: false, op: None },
        }
    }

    fn nav_down(&mut self)
        requires
            app_wf(old(self)@),
        ensures
            app_wf(final(self)@),
            final(self)@ == (AppView {
                selected: if old(self)@.selected + 1 < old(self)@.tasks.len() {
                    old(self)@.selected + 1
                } else {
                    old(self)@.selected
                },
                ..old(self)@
            }),
    {
        let n = self.tasks.len();
        if self.selected + 1 < n {
            self.selected = self.selected + 1;
        }
    }

    fn nav_up(&mut self)
        requires
            app_wf(old(self)@),
        ensures
            app_wf(final(self)@),
            final(self)@ == (AppView {
                selected: if old(self)@.selected > 0 {
                    old(self)@.selected - 1
                } else {
                    0
                },
                ..old(self)@
            }),
    {
        if self.selected > 0 {
            self.selected = self.selected - 1;
        }
    }

    fn delete_selected(&mut self, now: i64) -> (step: Step)
        requires
            app_wf(old(self)@),
        ensures
            app_wf(final(self)@),
            delete_post(old(self)@, now as int, final(self)@, step),
    {
        if self.tasks.len() == 0 {
            return Step { quit: false, op: None };
        }
        let ghost pre = self@;
        let id = self.tasks[self.selected].id;
        let ghost victim = pre.tasks[pre.selected];
        proof {
            assert(pre.tasks[pre.selected] == victim);
            assert(pre.tasks.contains(victim));
            assert(pre.tasks.to_multiset().count(victim) > 0);
            assert(active_views(pre.db).to_multiset().count(victim) > 0);
            assert(active_views(pre.db).contains(victim));
            lemma_filter_subset(pre.db, |t: TaskView| task_active(t));
            assert(pre.db.contains(victim));
            assert(task_active(victim)) by {
                let i = choose|i: int|
                    0 <= i < active_views(pre.db).len() && active_views(pre.db)[i] == victim;
                assert(active_views(pre.db)[i] == victim);
            }
        }
        let ghost vk = choose|k: int| 0 <= k < pre.db.len() && pre.db[k] == victim;
        let at_opt = self.db.delete_task(id, now);
        let at = match at_opt {
            Some(a) => a,
            None => vstd::pervasive::unreached(),
        };
        proof {
            let k = choose|k: int|
                0 <= k < pre.db.len() && pre.db[k].id == id && task_active(pre.db[k]) && at as int
                    == max_int(now as int, pre.db[k].updated_at);
            if k != vk {
                assert(pre.db[k].id == pre.db[vk].id);
            }
            assert(pre.db[k] == victim);
            lemma_active_views_delete(pre.db, id, now as int, k);
        }
        self.tasks = self.db.list_active_tasks();
        proof {
            assert(pre.tasks.to_multiset().len() == active_views(pre.db).to_multiset().len());
        }
        if self.selected >= self.tasks.len() {
            if self.tasks.len() > 0 {
                self.selected = self.tasks.len() - 1;
            } else {
                self.selected = 0;
            }
        }
        Step { quit: false, op: Some(StoreOp::Deleted(id, at)) }
    }

    /// Handles one key in `Adding` mode.
    pub fn on_key_adding(&mut self, key: KeyEvent, now: i64, id: u128) -> (r: Result<
        Step,
        StoreError,
    >)
        requires
            app_wf(old(self)@),
            old(self)@.mode is Adding,
        ensures
            app_wf(final(self)@),
            adding_post(old(self)@, key, now as int, id, final(self)@, r),
    {
        let mut taken = Mode::Normal;
        core::mem::swap(&mut taken, &mut self.mode);
        let mut form = match taken {
            Mode::Adding(f) => f,
            Mode::Normal => vstd::pervasive::unreached(),
        };
        match key.code {
            KeyCode::Esc => Ok(Step { quit: false, op: None }),
            KeyCode::Enter => {
                let trimmed = trim_str(form.title.as_str());
                if trimmed.unicode_len() == 0 {
                    self.mode = Mode::Adding(form);
                    Ok(Step { quit: false, op: None })
                } else {
                    let mut t = Task::new(form.title.as_str(), id, now, self.device.clone());
                    let notes_trimmed = trim_str(form.notes.as_str());
                    t.notes = notes_trimmed.to_owned();
                    let ghost pre = old(self)@;
                    match self.db.insert_task(&t) {
                        Ok(_) => {
                            self.tasks = self.db.list_active_tasks();
                            self.selected = 0;
                            proof {
                                crate::store::lemma_active_views_push(pre.db, t@);
                                assert(pre.tasks.to_multiset().len() == active_views(
                                    pre.db,
                                ).to_multiset().len());
                            }
                            Ok(Step { quit: false, op: Some(StoreOp::Inserted(t)) })
                        },
                        Err(e) => {
                            self.mode = Mode::Adding(form);
                            Err(e)
                        },
                    }
                }
            },
            KeyCode::Tab | KeyCode::BackTab => {
                form.field = match form.field {
                    AddField::Title => AddField::Notes,
                    AddField::Notes => AddField::Title,
                };
                self.mode = Mode::Adding(form);
                Ok(Step { quit: false, op: None })
            },
            KeyCode::Backspace => {
                match form.field {
                    AddField::Title => {
                        let _ = pop_char(&mut form.title);
                    },
                    AddField::Notes => {
                        let _ = pop_char(&mut form.notes);
                    },
                }
                self.mode = Mode::Adding(form);
                Ok(Step { quit: false, op: None })
            },
            KeyCode::Char(c) => {
                if c == 'h' && key.ctrl {
                    match form.field {
                        AddField::Title => {
                            let _ = pop_char(&mut form.title);
                        },
                        AddField::Notes => {
                            let _ = pop_char(&mut form.notes);
                        },
                    }
                } else if !key.ctrl && !key.alt {
                    match form.field {
                        AddField::Title => push_char(&mut form.title, c),
                        AddField::Notes => push_char(&mut form.notes, c),
                    }
                }
                self.mode = Mode::Adding(form);
                Ok(Step { quit: false, op: None })
            },
            _ => {
                self.mode = Mode::Adding(form);
                Ok(Step { quit: false, op: None })
            },
        }
    }

    /// Handles one key in the current mode, drawing the clock reading and
    /// the fresh identifier an insertion would need.
    pub fn on_key(&mut self, key: KeyEvent) -> (r: Result<Step, StoreError>)
        requires
            app_wf(old(self)@),
        ensures
            app_wf(final(self)@),
            exists|now: int, id: u128|
                #[trigger] on_key_post(old(self)@, key, now, id, final(self)@, r),
    {
        let now = now_millis();
        let id = fresh_id();
        let normal = match &self.mode {
            Mode::Normal => true,
            Mode::Adding(_) => false,
        };
        let out: Result<Step, StoreError> = if normal {
            Ok(self.on_key_normal(key, now))
        } else {
            self.on_key_adding(key, now, id)
        };
        proof {
            assert(on_key_post(old(self)@, key, now as int, id, self@, out));
        }
        out
    }
}

} // verus!
