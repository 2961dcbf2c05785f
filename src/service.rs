//! The task service: the ordered task store, the undo history, and the
//! commands a front end issues against them.
//!
//! Every command that changes what is persisted raises a save request; the
//! host takes it with `take_save_request` and writes the store. A failed
//! write loses nothing: the in-memory store stays authoritative and the next
//! change raises a new request.

use vstd::prelude::*;
use vstd::string::StringExecFns;

use crate::shorthand::{
    due_date_at, due_date_from, due_token, lemma_strip_tokens_clean, parse_shorthand,
    priority_token, shorthand_content, shorthand_due, shorthand_priority,
};
use crate::storage::TaskStorage;
use crate::task::{Task, TaskId, TaskState, TaskView, Timestamp, TIMESTAMP_LIMIT};
use crate::text::{
    contains, has_token, is_blank, is_blank_str, is_white_space, occurs_at, same_text,
};

verus! {

/// One undoable change, with what it takes to reverse it.
#[derive(Debug)]
enum TaskAction {
    /// The id under which a task went in.
    Add(TaskId),
    /// A task taken out of the store, and the position it held.
    Remove(Task, usize),
    /// The id of an edited task and the content it had before.
    UpdateContent(TaskId, String),
    /// The id of a completed task.
    Complete(TaskId),
}

/// A history entry, as the contracts see it.
pub enum ActionView {
    Add(u64),
    Remove(TaskView, nat),
    UpdateContent(u64, Seq<char>),
    Complete(u64),
}

impl View for TaskAction {
    type V = ActionView;

    closed spec fn view(&self) -> ActionView {
        match self {
            TaskAction::Add(id) => ActionView::Add(id.0),
            TaskAction::Remove(t, i) => ActionView::Remove(t@, *i as nat),
            TaskAction::UpdateContent(id, c) => ActionView::UpdateContent(id.0, c@),
            TaskAction::Complete(id) => ActionView::Complete(id.0),
        }
    }
}

/// The service as the contracts see it.
pub struct ServiceView {
    /// The store, in insertion order.
    pub tasks: Seq<TaskView>,
    /// The undo history, oldest first.
    pub history: Seq<ActionView>,
    /// The identifier the next added task gets.
    pub next_id: u64,
    /// A change has been made that has not been handed out for saving.
    pub save_requested: bool,
}

pub open spec fn views(ts: Seq<Task>) -> Seq<TaskView> {
    ts.map_values(|t: Task| t@)
}

/// Position `i` holds the first task with identifier `id`.
pub open spec fn is_first_with_id(ts: Seq<TaskView>, id: u64, i: int) -> bool {
    0 <= i < ts.len() && ts[i].id == id && forall|j: int| 0 <= j < i ==> ts[j].id != id
}

/// The position of the first task with identifier `id`, or -1 if none.
pub open spec fn position_of(ts: Seq<TaskView>, id: u64) -> int {
    if exists|i: int| is_first_with_id(ts, id, i) {
        choose|i: int| is_first_with_id(ts, id, i)
    } else {
        -1
    }
}

/// Every identifier in the store or held by a history entry for a removed
/// task is below `next_id`, so a freshly handed out id is new.
pub open spec fn ids_below(v: ServiceView) -> bool {
    &&& forall|i: int| 0 <= i < v.tasks.len() ==> #[trigger] v.tasks[i].id < v.next_id
    &&& forall|k: int|
        0 <= k < v.history.len() ==> match #[trigger] v.history[k] {
            ActionView::Remove(t, _) => t.id < v.next_id,
            _ => true,
        }
}

/// No two tasks share an id.
pub open spec fn ids_distinct(ts: Seq<TaskView>) -> bool {
    forall|i: int, j: int|
        #![trigger ts[i], ts[j]]
        0 <= i < ts.len() && 0 <= j < ts.len() && i != j ==> ts[i].id != ts[j].id
}

/// Some task in `ts` has identifier `id`.
pub open spec fn has_id(ts: Seq<TaskView>, id: u64) -> bool {
    exists|i: int| 0 <= i < ts.len() && #[trigger] ts[i].id == id
}

/// Two history entries do not hold removed tasks with the same id.
pub open spec fn removed_apart(e: ActionView, f: ActionView) -> bool {
    (e is Remove && f is Remove) ==> e->Remove_0.id != f->Remove_0.id
}

/// A removed task waiting in the history is not in the store, and no other
/// entry waits with its id, so putting it back keeps the ids distinct.
pub open spec fn removed_ids_apart(v: ServiceView) -> bool {
    &&& forall|k: int|
        0 <= k < v.history.len() ==> match #[trigger] v.history[k] {
            ActionView::Remove(t, _) => !has_id(v.tasks, t.id),
            _ => true,
        }
    &&& forall|k: int, l: int|
        #![trigger v.history[k], v.history[l]]
        0 <= k < l < v.history.len() ==> removed_apart(v.history[k], v.history[l])
}

/// Ids are distinct, and a fresh one stays fresh. Once the identifiers run
/// out (`next_id` at its maximum) nothing more is added, so the bound on
/// them matters only before that.
pub open spec fn well_formed(v: ServiceView) -> bool {
    &&& v.next_id == u64::MAX || ids_below(v)
    &&& ids_distinct(v.tasks)
    &&& removed_ids_apart(v)
}

/// The identifier after every id in `ts`, and at least 1.
pub open spec fn next_free_id(ts: Seq<TaskView>) -> u64
    decreases ts.len(),
{
    if ts.len() == 0 {
        1
    } else {
        let r = next_free_id(ts.drop_last());
        let id = ts.last().id;
        if id < r {
            r
        } else if id == u64::MAX {
            u64::MAX
        } else {
            (id + 1) as u64
        }
    }
}

/// A service over `tasks` with an empty history.
pub open spec fn loaded(tasks: Seq<TaskView>) -> ServiceView {
    ServiceView {
        tasks,
        history: Seq::empty(),
        next_id: next_free_id(tasks),
        save_requested: false,
    }
}

/// The sample tasks a first run starts with, added at `now`, with an empty
/// history.
pub open spec fn seeded(now: Timestamp) -> ServiceView {
    let v = spec_add(
        spec_add(
            spec_add(
                spec_add(
                    spec_add(loaded(Seq::empty()), "Learn GPUI fundamentals !m"@, now),
                    "Build Waloyo task manager !h @today"@,
                    now,
                ),
                "Implement rain drop animation @tomorrow"@,
                now,
            ),
            "Add wind swaying effect !l"@,
            now,
        ),
        "Create clear sky celebration !h"@,
        now,
    );
    ServiceView { history: Seq::empty(), ..v }
}

/// `add` creates a task: what is left of the text once its shorthand is
/// taken out is not blank, and identifiers remain.
pub open spec fn add_accepts(v: ServiceView, raw: Seq<char>) -> bool {
    !is_blank(shorthand_content(raw)) && v.next_id < u64::MAX
}

/// The task that `add` creates from `raw` at `now`.
pub open spec fn added_task(id: u64, raw: Seq<char>, now: Timestamp) -> TaskView {
    TaskView {
        id,
        content: shorthand_content(raw),
        notes: None,
        state: TaskState::Pending,
        priority: shorthand_priority(raw),
        due_date: due_date_at(shorthand_due(raw), now),
    }
}

pub open spec fn spec_add(v: ServiceView, raw: Seq<char>, now: Timestamp) -> ServiceView {
    if add_accepts(v, raw) {
        ServiceView {
            tasks: v.tasks.push(added_task(v.next_id, raw, now)),
            history: v.history.push(ActionView::Add(v.next_id)),
            next_id: (v.next_id + 1) as u64,
            save_requested: true,
        }
    } else {
        v
    }
}

/// An edit takes effect: the task exists, and the new content is neither
/// empty nor the same as the old.
pub open spec fn update_applies(v: ServiceView, id: u64, content: Seq<char>) -> bool {
    let p = position_of(v.tasks, id);
    p >= 0 && content.len() > 0 && v.tasks[p].content != content
}

pub open spec fn spec_update(v: ServiceView, id: u64, content: Seq<char>) -> ServiceView {
    let p = position_of(v.tasks, id);
    if update_applies(v, id, content) {
        ServiceView {
            tasks: v.tasks.update(p, v.tasks[p].with_content(content)),
            history: v.history.push(ActionView::UpdateContent(id, v.tasks[p].content)),
            save_requested: true,
            ..v
        }
    } else {
        v
    }
}

/// The task with `id` exists and is pending, so completing can begin.
pub open spec fn begin_applies(v: ServiceView, id: u64) -> bool {
    let p = position_of(v.tasks, id);
    p >= 0 && v.tasks[p].state == TaskState::Pending
}

pub open spec fn spec_begin(v: ServiceView, id: u64) -> ServiceView {
    let p = position_of(v.tasks, id);
    if begin_applies(v, id) {
        ServiceView {
            tasks: v.tasks.update(p, v.tasks[p].with_state(TaskState::Completing)),
            ..v
        }
    } else {
        v
    }
}

pub open spec fn spec_finish(v: ServiceView, id: u64) -> ServiceView {
    let p = position_of(v.tasks, id);
    if p >= 0 {
        ServiceView {
            tasks: v.tasks.update(p, v.tasks[p].with_state(TaskState::Done)),
            history: v.history.push(ActionView::Complete(id)),
            save_requested: true,
            ..v
        }
    } else {
        v
    }
}

pub open spec fn spec_remove(v: ServiceView, id: u64) -> ServiceView {
    let p = position_of(v.tasks, id);
    if p >= 0 {
        ServiceView {
            tasks: v.tasks.remove(p),
            history: v.history.push(ActionView::Remove(v.tasks[p], p as nat)),
            save_requested: true,
            ..v
        }
    } else {
        v
    }
}

/// The store with the most recent history entry reversed.
pub open spec fn undo_tasks(tasks: Seq<TaskView>, entry: ActionView) -> Seq<TaskView> {
    match entry {
        ActionView::Add(id) => {
            let p = position_of(tasks, id);
            if p >= 0 {
                tasks.remove(p)
            } else {
                tasks
            }
        },
        ActionView::Remove(t, i) => if i <= tasks.len() {
            tasks.insert(i as int, t)
        } else {
            tasks.push(t)
        },
        ActionView::UpdateContent(id, c) => {
            let p = position_of(tasks, id);
            if p >= 0 {
                tasks.update(p, tasks[p].with_content(c))
            } else {
                tasks
            }
        },
        ActionView::Complete(id) => {
            let p = position_of(tasks, id);
            if p >= 0 {
                tasks.update(p, tasks[p].with_state(TaskState::Pending))
            } else {
                tasks
            }
        },
    }
}

pub open spec fn spec_undo(v: ServiceView) -> ServiceView {
    if v.history.len() == 0 {
        v
    } else {
        ServiceView {
            tasks: undo_tasks(v.tasks, v.history.last()),
            history: v.history.drop_last(),
            save_requested: true,
            ..v
        }
    }
}

/// The tasks of `ts` in state `s`, in order.
pub open spec fn in_state(ts: Seq<TaskView>, s: TaskState) -> Seq<TaskView>
    decreases ts.len(),
{
    if ts.len() == 0 {
        Seq::empty()
    } else if ts.last().state == s {
        in_state(ts.drop_last(), s).push(ts.last())
    } else {
        in_state(ts.drop_last(), s)
    }
}

/// Every task is done, and there is at least one.
pub open spec fn spec_all_overcome(ts: Seq<TaskView>) -> bool {
    ts.len() > 0 && forall|i: int| 0 <= i < ts.len() ==> #[trigger] ts[i].state == TaskState::Done
}

proof fn lemma_position_found(ts: Seq<TaskView>, id: u64, i: int)
    requires
        is_first_with_id(ts, id, i),
    ensures
        position_of(ts, id) == i,
{
    let k = position_of(ts, id);
    assert(is_first_with_id(ts, id, k));
    if k < i {
        assert(ts[k].id != id);
    } else if k > i {
        assert(ts[i].id != id);
    }
}

proof fn lemma_position_absent(ts: Seq<TaskView>, id: u64)
    requires
        forall|j: int| 0 <= j < ts.len() ==> ts[j].id != id,
    ensures
        position_of(ts, id) == -1,
{
    if exists|i: int| is_first_with_id(ts, id, i) {
        let i = choose|i: int| is_first_with_id(ts, id, i);
        assert(ts[i].id == id);
    }
}

proof fn lemma_position_bounds(ts: Seq<TaskView>, id: u64)
    ensures
        -1 <= position_of(ts, id) < ts.len(),
        position_of(ts, id) >= 0 ==> is_first_with_id(ts, id, position_of(ts, id)),
{
}

/// Positions of identifiers stay where they are when no identifier changes.
proof fn lemma_position_same_ids(a: Seq<TaskView>, b: Seq<TaskView>, id: u64)
    requires
        a.len() == b.len(),
        forall|j: int| 0 <= j < a.len() ==> a[j].id == b[j].id,
    ensures
        position_of(a, id) == position_of(b, id),
{
    let p = position_of(a, id);
    if p >= 0 {
        assert(is_first_with_id(b, id, p));
        lemma_position_found(b, id, p);
    } else {
        assert forall|j: int| 0 <= j < b.len() implies b[j].id != id by {
            if b[j].id == id {
                lemma_first_exists(a, id, j);
            }
        }
        lemma_position_absent(b, id);
    }
}

proof fn lemma_first_exists(ts: Seq<TaskView>, id: u64, j: int)
    requires
        0 <= j < ts.len(),
        ts[j].id == id,
    ensures
        position_of(ts, id) >= 0,
    decreases j,
{
    if exists|k: int| 0 <= k < j && ts[k].id == id {
        let k = choose|k: int| 0 <= k < j && ts[k].id == id;
        lemma_first_exists(ts, id, k);
    } else {
        assert(is_first_with_id(ts, id, j));
    }
}

proof fn lemma_next_free_id(ts: Seq<TaskView>)
    ensures
        next_free_id(ts) >= 1,
        next_free_id(ts) == u64::MAX || forall|i: int|
            0 <= i < ts.len() ==> #[trigger] ts[i].id < next_free_id(ts),
    decreases ts.len(),
{
    if ts.len() > 0 {
        let d = ts.drop_last();
        lemma_next_free_id(d);
        let r = next_free_id(d);
        let n = next_free_id(ts);
        if n != u64::MAX {
            assert(r != u64::MAX);
            assert forall|i: int| 0 <= i < ts.len() implies #[trigger] ts[i].id < n by {
                if i < ts.len() - 1 {
                    assert(ts[i] == d[i]);
                    assert(d[i].id < r);
                }
            }
        }
    }
}

proof fn lemma_same_ids(a: Seq<TaskView>, b: Seq<TaskView>, id: u64)
    requires
        a.len() == b.len(),
        forall|j: int| 0 <= j < a.len() ==> a[j].id == #[trigger] b[j].id,
    ensures
        has_id(a, id) == has_id(b, id),
        ids_distinct(a) ==> ids_distinct(b),
{
    if has_id(a, id) {
        let i = choose|i: int| 0 <= i < a.len() && #[trigger] a[i].id == id;
        assert(b[i].id == id);
    }
    if has_id(b, id) {
        let i = choose|i: int| 0 <= i < b.len() && #[trigger] b[i].id == id;
        assert(a[i].id == b[i].id);
    }
    if ids_distinct(a) {
        assert forall|i: int, j: int|
            0 <= i < b.len() && 0 <= j < b.len() && i != j implies #[trigger] b[i].id
            != #[trigger] b[j].id by {
            assert(a[i].id == b[i].id && a[j].id == b[j].id);
        }
    }
}

proof fn lemma_remove_ids(a: Seq<TaskView>, p: int, id: u64)
    requires
        0 <= p < a.len(),
    ensures
        has_id(a.remove(p), id) ==> has_id(a, id),
        ids_distinct(a) ==> ids_distinct(a.remove(p)) && !has_id(a.remove(p), a[p].id),
{
    let r = a.remove(p);
    if has_id(r, id) {
        let i = choose|i: int| 0 <= i < r.len() && #[trigger] r[i].id == id;
        if i < p {
            assert(r[i] == a[i]);
        } else {
            assert(r[i] == a[i + 1]);
        }
    }
    if ids_distinct(a) {
        assert forall|i: int, j: int|
            0 <= i < r.len() && 0 <= j < r.len() && i != j implies #[trigger] r[i].id
            != #[trigger] r[j].id by {
            let i2 = if i < p { i } else { i + 1 };
            let j2 = if j < p { j } else { j + 1 };
            assert(r[i] == a[i2] && r[j] == a[j2]);
        }
        if has_id(r, a[p].id) {
            let i = choose|i: int| 0 <= i < r.len() && #[trigger] r[i].id == a[p].id;
            let i2 = if i < p { i } else { i + 1 };
            assert(r[i] == a[i2]);
        }
    }
}

proof fn lemma_insert_ids(a: Seq<TaskView>, k: int, t: TaskView, id: u64)
    requires
        0 <= k <= a.len(),
    ensures
        has_id(a.insert(k, t), id) ==> has_id(a, id) || t.id == id,
        ids_distinct(a) && !has_id(a, t.id) ==> ids_distinct(a.insert(k, t)),
{
    let r = a.insert(k, t);
    if has_id(r, id) {
        let i = choose|i: int| 0 <= i < r.len() && #[trigger] r[i].id == id;
        if i < k {
            assert(r[i] == a[i]);
        } else if i > k {
            assert(r[i] == a[i - 1]);
        }
    }
    if ids_distinct(a) && !has_id(a, t.id) {
        assert forall|i: int, j: int|
            0 <= i < r.len() && 0 <= j < r.len() && i != j implies #[trigger] r[i].id
            != #[trigger] r[j].id by {
            if i != k && j != k {
                let i2 = if i < k { i } else { i - 1 };
                let j2 = if j < k { j } else { j - 1 };
                assert(r[i] == a[i2] && r[j] == a[j2]);
            } else if i == k {
                let j2 = if j < k { j } else { j - 1 };
                assert(r[j] == a[j2]);
            } else {
                let i2 = if i < k { i } else { i - 1 };
                assert(r[i] == a[i2]);
            }
        }
    }
}

/// Replacing what tasks hold, without touching their ids, and pushing at
/// most one entry that holds no removed task keeps the store well formed.
proof fn lemma_update_keeps_ids(a: ServiceView, b: ServiceView)
    requires
        well_formed(a),
        b.next_id == a.next_id,
        b.tasks.len() == a.tasks.len(),
        forall|j: int| 0 <= j < a.tasks.len() ==> a.tasks[j].id == #[trigger] b.tasks[j].id,
        b.history == a.history || (b.history.len() == a.history.len() + 1
            && b.history.drop_last() == a.history && !(b.history.last() is Remove)),
    ensures
        well_formed(b),
{
    assert forall|k: int| 0 <= k < a.history.len() implies a.history[k] == #[trigger] b.history[k] by {
        if b.history != a.history {
            assert(b.history.drop_last()[k] == b.history[k]);
        }
    }
    lemma_same_ids(a.tasks, b.tasks, 0);
    if b.next_id != u64::MAX {
        assert forall|i: int| 0 <= i < b.tasks.len()
            implies #[trigger] b.tasks[i].id < b.next_id by {
            assert(a.tasks[i].id == b.tasks[i].id);
        }
        assert forall|k: int| 0 <= k < b.history.len() implies match #[trigger] b.history[k] {
            ActionView::Remove(t, _) => t.id < b.next_id,
            _ => true,
        } by {
            if k < a.history.len() {
                assert(a.history[k] == b.history[k]);
            }
        }
    }
    assert forall|k: int| 0 <= k < b.history.len() implies match #[trigger] b.history[k] {
        ActionView::Remove(t, _) => !has_id(b.tasks, t.id),
        _ => true,
    } by {
        if k < a.history.len() {
            assert(a.history[k] == b.history[k]);
            if let ActionView::Remove(t, _) = b.history[k] {
                lemma_same_ids(a.tasks, b.tasks, t.id);
            }
        }
    }
    assert forall|k: int, l: int|
        #![trigger b.history[k], b.history[l]]
        0 <= k < l < b.history.len() implies removed_apart(b.history[k], b.history[l]) by {
        if l < a.history.len() {
            assert(a.history[k] == b.history[k] && a.history[l] == b.history[l]);
        }
    }
}

/// Adding keeps the store well formed: the new id is above every other.
proof fn lemma_add_wf(v: ServiceView, raw: Seq<char>, now: Timestamp)
    requires
        well_formed(v),
    ensures
        well_formed(spec_add(v, raw, now)),
{
    let w = spec_add(v, raw, now);
    if add_accepts(v, raw) {
        let t = added_task(v.next_id, raw, now);
        assert(w.tasks =~= v.tasks.insert(v.tasks.len() as int, t));
        assert(!has_id(v.tasks, v.next_id)) by {
            if has_id(v.tasks, v.next_id) {
                let i = choose|i: int| 0 <= i < v.tasks.len() && #[trigger] v.tasks[i].id == v.next_id;
                assert(v.tasks[i].id < v.next_id);
            }
        }
        lemma_insert_ids(v.tasks, v.tasks.len() as int, t, 0);
        assert forall|k: int| 0 <= k < w.history.len() implies v.history[k] == #[trigger] w.history[k] || k == v.history.len() by {}
        if w.next_id != u64::MAX {
            assert forall|i: int| 0 <= i < w.tasks.len()
                implies #[trigger] w.tasks[i].id < w.next_id by {
                if i < v.tasks.len() {
                    assert(w.tasks[i] == v.tasks[i]);
                }
            }
            assert forall|k: int| 0 <= k < w.history.len() implies match #[trigger] w.history[k] {
                ActionView::Remove(t, _) => t.id < w.next_id,
                _ => true,
            } by {
                if k < v.history.len() {
                    assert(w.history[k] == v.history[k]);
                }
            }
        }
        assert forall|k: int| 0 <= k < w.history.len() implies match #[trigger] w.history[k] {
            ActionView::Remove(t, _) => !has_id(w.tasks, t.id),
            _ => true,
        } by {
            if k < v.history.len() {
                assert(w.history[k] == v.history[k]);
                if let ActionView::Remove(s, _) = v.history[k] {
                    lemma_insert_ids(v.tasks, v.tasks.len() as int, t, s.id);
                }
            }
        }
        assert forall|k: int, l: int|
            #![trigger w.history[k], w.history[l]]
            0 <= k < l < w.history.len() implies removed_apart(w.history[k], w.history[l]) by {
            if l < v.history.len() {
                assert(w.history[k] == v.history[k] && w.history[l] == v.history[l]);
            }
        }
    }
}

/// Removing keeps the store well formed: the removed task waits in the
/// history and is no longer in the store.
proof fn lemma_remove_wf(v: ServiceView, id: u64)
    requires
        well_formed(v),
    ensures
        well_formed(spec_remove(v, id)),
{
    let w = spec_remove(v, id);
    let p = position_of(v.tasks, id);
    lemma_position_bounds(v.tasks, id);
    if p >= 0 {
        let t = v.tasks[p];
        lemma_remove_ids(v.tasks, p, 0);
        if w.next_id != u64::MAX {
            assert forall|i: int| 0 <= i < w.tasks.len()
                implies #[trigger] w.tasks[i].id < w.next_id by {
                if i < p {
                    assert(w.tasks[i] == v.tasks[i]);
                } else {
                    assert(w.tasks[i] == v.tasks[i + 1]);
                }
            }
            assert forall|k: int| 0 <= k < w.history.len() implies match #[trigger] w.history[k] {
                ActionView::Remove(t, _) => t.id < w.next_id,
                _ => true,
            } by {
                if k < v.history.len() {
                    assert(w.history[k] == v.history[k]);
                }
            }
        }
        assert forall|k: int| 0 <= k < w.history.len() implies match #[trigger] w.history[k] {
            ActionView::Remove(t, _) => !has_id(w.tasks, t.id),
            _ => true,
        } by {
            if k < v.history.len() {
                assert(w.history[k] == v.history[k]);
                if let ActionView::Remove(s, _) = v.history[k] {
                    lemma_remove_ids(v.tasks, p, s.id);
                }
            }
        }
        assert forall|k: int, l: int|
            #![trigger w.history[k], w.history[l]]
            0 <= k < l < w.history.len() implies removed_apart(w.history[k], w.history[l]) by {
            assert(w.history[k] == v.history[k]);
            if l < v.history.len() {
                assert(w.history[l] == v.history[l]);
            } else if let ActionView::Remove(s, _) = v.history[k] {
                assert(!has_id(v.tasks, s.id));
                assert(v.tasks[p].id == t.id);
            }
        }
    }
}

/// Undo keeps ids distinct: a task it puts back is not in the store.
proof fn lemma_undo_keeps_unique(v: ServiceView)
    requires
        well_formed(v),
    ensures
        ids_distinct(spec_undo(v).tasks),
        removed_ids_apart(spec_undo(v)),
{
    let u = spec_undo(v);
    if v.history.len() > 0 {
        let ts = v.tasks;
        let n = v.history.len() - 1;
        let e = v.history[n];
        assert(e == v.history.last());
        assert forall|k: int| 0 <= k < u.history.len() implies #[trigger] u.history[k] == v.history[k] by {}
        match e {
            ActionView::Add(id) => {
                let p = position_of(ts, id);
                lemma_position_bounds(ts, id);
                if p >= 0 {
                    lemma_remove_ids(ts, p, 0);
                    assert forall|k: int| 0 <= k < u.history.len() implies match #[trigger] u.history[k] {
                        ActionView::Remove(t, _) => !has_id(u.tasks, t.id),
                        _ => true,
                    } by {
                        assert(u.history[k] == v.history[k]);
                        if let ActionView::Remove(s, _) = v.history[k] {
                            lemma_remove_ids(ts, p, s.id);
                        }
                    }
                }
            },
            ActionView::Remove(t, i) => {
                let k0 = if i <= ts.len() { i as int } else { ts.len() as int };
                assert(u.tasks =~= ts.insert(k0, t));
                lemma_insert_ids(ts, k0, t, 0);
                assert forall|k: int| 0 <= k < u.history.len() implies match #[trigger] u.history[k] {
                    ActionView::Remove(t, _) => !has_id(u.tasks, t.id),
                    _ => true,
                } by {
                    assert(u.history[k] == v.history[k]);
                    if let ActionView::Remove(s, _) = v.history[k] {
                        assert(removed_apart(v.history[k], v.history[n]));
                        lemma_insert_ids(ts, k0, t, s.id);
                    }
                }
            },
            ActionView::UpdateContent(id, c) => {
                lemma_position_bounds(ts, id);
                assert forall|j: int| 0 <= j < ts.len() implies ts[j].id == #[trigger] u.tasks[j].id by {}
                assert forall|k: int| 0 <= k < u.history.len() implies match #[trigger] u.history[k] {
                    ActionView::Remove(t, _) => !has_id(u.tasks, t.id),
                    _ => true,
                } by {
                    assert(u.history[k] == v.history[k]);
                    if let ActionView::Remove(s, _) = v.history[k] {
                        lemma_same_ids(ts, u.tasks, s.id);
                    }
                }
                lemma_same_ids(ts, u.tasks, 0);
            },
            ActionView::Complete(id) => {
                lemma_position_bounds(ts, id);
                assert forall|j: int| 0 <= j < ts.len() implies ts[j].id == #[trigger] u.tasks[j].id by {}
                assert forall|k: int| 0 <= k < u.history.len() implies match #[trigger] u.history[k] {
                    ActionView::Remove(t, _) => !has_id(u.tasks, t.id),
                    _ => true,
                } by {
                    assert(u.history[k] == v.history[k]);
                    if let ActionView::Remove(s, _) = v.history[k] {
                        lemma_same_ids(ts, u.tasks, s.id);
                    }
                }
                lemma_same_ids(ts, u.tasks, 0);
            },
        }
        assert forall|k: int, l: int|
            #![trigger u.history[k], u.history[l]]
            0 <= k < l < u.history.len() implies removed_apart(u.history[k], u.history[l]) by {
            assert(u.history[k] == v.history[k] && u.history[l] == v.history[l]);
        }
    }
}

/// Undo only puts back tasks whose ids were handed out already.
proof fn lemma_undo_keeps_ids(v: ServiceView)
    requires
        well_formed(v),
    ensures
        well_formed(spec_undo(v)),
{
    lemma_undo_keeps_unique(v);
    let u = spec_undo(v);
    if v.history.len() > 0 && v.next_id != u64::MAX {
        let ts = v.tasks;
        let e = v.history.last();
        assert(match e {
            ActionView::Remove(t, _) => t.id < v.next_id,
            _ => true,
        }) by {
            assert(e == v.history[v.history.len() - 1]);
        }
        assert forall|i: int| 0 <= i < u.tasks.len()
            implies #[trigger] u.tasks[i].id < u.next_id by {
            match e {
                ActionView::Add(id) => {
                    let p = position_of(ts, id);
                    if p >= 0 {
                        lemma_position_bounds(ts, id);
                        if i < p {
                            assert(u.tasks[i] == ts[i]);
                        } else {
                            assert(u.tasks[i] == ts[i + 1]);
                        }
                    }
                },
                ActionView::Remove(t, idx) => {
                    if idx <= ts.len() {
                        if i < idx {
                            assert(u.tasks[i] == ts[i]);
                        } else if i > idx {
                            assert(u.tasks[i] == ts[i - 1]);
                        }
                    } else if i < ts.len() {
                        assert(u.tasks[i] == ts[i]);
                    }
                },
                ActionView::UpdateContent(id, c) => {
                    lemma_position_bounds(ts, id);
                    assert(u.tasks[i].id == ts[i].id);
                },
                ActionView::Complete(id) => {
                    lemma_position_bounds(ts, id);
                    assert(u.tasks[i].id == ts[i].id);
                },
            }
        }
        assert forall|k: int| 0 <= k < u.history.len() implies match #[trigger] u.history[k] {
            ActionView::Remove(t, _) => t.id < u.next_id,
            _ => true,
        } by {
            assert(u.history[k] == v.history[k]);
        }
    }
}

/// Whether no two of `tasks` share an id, as `TaskService::new` requires
/// of the tasks it is given.
pub fn distinct_ids(tasks: &[Task]) -> (r: bool)
    ensures
        r == ids_distinct(views(tasks@)),
{
    let ghost ts = views(tasks@);
    let mut i: usize = 0;
    while i < tasks.len()
        invariant
            ts == views(tasks@),
            i <= tasks@.len(),
            forall|a: int, b: int|
                #![trigger ts[a], ts[b]]
                0 <= a < i && 0 <= b < ts.len() && a != b ==> ts[a].id != ts[b].id,
        decreases tasks@.len() - i,
    {
        let mut j: usize = 0;
        while j < tasks.len()
            invariant
                ts == views(tasks@),
                i < tasks@.len(),
                j <= tasks@.len(),
                forall|a: int, b: int|
                    #![trigger ts[a], ts[b]]
                    0 <= a < i && 0 <= b < ts.len() && a != b ==> ts[a].id != ts[b].id,
                forall|b: int| 0 <= b < j && b != i ==> ts[i as int].id != #[trigger] ts[b].id,
            decreases tasks@.len() - j,
        {
            if j != i && tasks[i].id == tasks[j].id {
                assert(ts[i as int].id == ts[j as int].id);
                return false;
            }
            j = j + 1;
        }
        proof {
            assert forall|a: int, b: int|
                #![trigger ts[a], ts[b]]
                0 <= a < i + 1 && 0 <= b < ts.len() && a != b implies ts[a].id != ts[b].id by {
                if a == i {
                    assert(ts[i as int].id != ts[b].id);
                }
            }
        }
        i = i + 1;
    }
    true
}

/// Where the first task with `id` stands in `tasks`.
fn position(tasks: &Vec<Task>, id: TaskId) -> (r: Option<usize>)
    ensures
        match r {
            Some(p) => p < tasks@.len() && p as int == position_of(views(tasks@), id.0),
            None => position_of(views(tasks@), id.0) == -1,
        },
{
    let ghost ts = views(tasks@);
    let mut i: usize = 0;
    while i < tasks.len()
        invariant
            ts == views(tasks@),
            i <= tasks@.len(),
            forall|j: int| 0 <= j < i ==> ts[j].id != id.0,
        decreases tasks@.len() - i,
    {
        if tasks[i].id == id {
            proof {
                lemma_position_found(ts, id.0, i as int);
            }
            return Some(i);
        }
        i = i + 1;
    }
    proof {
        lemma_position_absent(ts, id.0);
    }
    None
}

/// The application's use cases over the task store.
#[derive(Debug)]
pub struct TaskService {
    tasks: Vec<Task>,
    storage: TaskStorage,
    history: Vec<TaskAction>,
    next_id: u64,
    save_requested: bool,
}

impl View for TaskService {
    type V = ServiceView;

    closed spec fn view(&self) -> ServiceView {
        ServiceView {
            tasks: views(self.tasks@),
            history: self.history@.map_values(|a: TaskAction| a@),
            next_id: self.next_id,
            save_requested: self.save_requested,
        }
    }
}

impl TaskService {
    pub open spec fn wf(&self) -> bool {
        well_formed(self@)
    }

    pub closed spec fn spec_storage(&self) -> TaskStorage {
        self.storage
    }

    /// A service over tasks already loaded from `storage`, with an empty
    /// history. New identifiers continue after the largest loaded one.
    pub fn new(storage: TaskStorage, tasks: Vec<Task>) -> (r: TaskService)
        requires
            ids_distinct(views(tasks@)),
        ensures
            r@ == loaded(views(tasks@)),
            r.wf(),
            r.spec_storage() == storage,
    {
        let ghost ts = views(tasks@);
        let mut next: u64 = 1;
        let mut i: usize = 0;
        while i < tasks.len()
            invariant
                ts == views(tasks@),
                i <= tasks@.len(),
                next == next_free_id(ts.subrange(0, i as int)),
            decreases tasks@.len() - i,
        {
            let id = tasks[i].id.0;
            proof {
                assert(ts.subrange(0, i + 1).drop_last() =~= ts.subrange(0, i as int));
            }
            if id >= next {
                next = if id == u64::MAX {
                    u64::MAX
                } else {
                    id + 1
                };
            }
            i = i + 1;
        }
        proof {
            assert(ts.subrange(0, ts.len() as int) =~= ts);
            lemma_next_free_id(ts);
        }
        let r = TaskService {
            tasks,
            storage,
            history: Vec::new(),
            next_id: next,
            save_requested: false,
        };
        assert(r@.history =~= Seq::<ActionView>::empty());
        r
    }

    /// Like `new`, but a first run (no loaded tasks) starts with the sample
    /// tasks, added at `now`. Seeding is not undoable: the history starts
    /// empty either way.
    pub fn new_with_defaults(
        storage: TaskStorage,
        tasks: Vec<Task>,
        now: Timestamp,
    ) -> (r: TaskService)
        requires
            ids_distinct(views(tasks@)),
            -TIMESTAMP_LIMIT < now.secs < TIMESTAMP_LIMIT,
        ensures
            r.wf(),
            r.spec_storage() == storage,
            tasks@.len() == 0 ==> r@ == seeded(now),
            tasks@.len() > 0 ==> r@ == loaded(views(tasks@)),
    {
        let mut service = TaskService::new(storage, tasks);
        if service.tasks.len() == 0 {
            service.add_task("Learn GPUI fundamentals !m", now);
            service.add_task("Build Waloyo task manager !h @today", now);
            service.add_task("Implement rain drop animation @tomorrow", now);
            service.add_task("Add wind swaying effect !l", now);
            service.add_task("Create clear sky celebration !h", now);
            service.history.clear();
            assert(service@.history =~= Seq::<ActionView>::empty());
            assert(views(tasks@) =~= Seq::<TaskView>::empty());
        }
        service
    }

    /// Adds a task from free text typed at `now`, taking its shorthand out
    /// (see `parse_shorthand`). Text whose remaining content is blank creates
    /// nothing and gives no id; so does running out of identifiers.
    pub fn add_task(&mut self, content: &str, now: Timestamp) -> (r: Option<TaskId>)
        requires
            old(self).wf(),
            -TIMESTAMP_LIMIT < now.secs < TIMESTAMP_LIMIT,
        ensures
            final(self).wf(),
            final(self)@ == spec_add(old(self)@, content@, now),
            r == (if add_accepts(old(self)@, content@) {
                Some(TaskId(old(self)@.next_id))
            } else {
                None
            }),
            final(self).spec_storage() == old(self).spec_storage(),
    {
        let parsed = parse_shorthand(content);
        if is_blank_str(parsed.content.as_str()) || self.next_id == u64::MAX {
            return None;
        }
        let ghost old_view = self@;
        let id = TaskId::new(&mut self.next_id);
        let mut task = Task::new(id, parsed.content);
        task.priority = parsed.priority;
        task.due_date = due_date_from(parsed.due, now);
        self.tasks.push(task);
        self.history.push(TaskAction::Add(id));
        self.save_requested = true;
        proof {
            assert(self@.tasks =~= old_view.tasks.push(added_task(id.0, content@, now)));
            assert(self@.history =~= old_view.history.push(ActionView::Add(id.0)));
            lemma_add_wf(old_view, content@, now);
        }
        Some(id)
    }

    /// Replaces the content of the task with `id`; true when the task
    /// exists. Unchanged or empty content leaves everything as it was: no
    /// history entry and no save.
    pub fn update_task_content(&mut self, id: TaskId, content: &str) -> (r: bool)
        requires
            old(self).wf(),
        ensures
            final(self).wf(),
            final(self)@ == spec_update(old(self)@, id.0, content@),
            r == (position_of(old(self)@.tasks, id.0) >= 0),
            final(self).spec_storage() == old(self).spec_storage(),
    {
        match position(&self.tasks, id) {
            None => false,
            Some(p) => {
                let ghost old_view = self@;
                let new_content = String::from_str(content);
                if content.is_empty() || same_text(self.tasks[p].content.as_str(), content) {
                    return true;
                }
                let old_content = self.tasks[p].content.clone();
                self.history.push(TaskAction::UpdateContent(id, old_content));
                self.tasks[p].set_content(new_content);
                self.save_requested = true;
                proof {
                    assert(self@.tasks
                        =~= old_view.tasks.update(
                            p as int,
                            old_view.tasks[p as int].with_content(content@),
                        ));
                    assert(self@.history
                        =~= old_view.history.push(
                            ActionView::UpdateContent(id.0, old_view.tasks[p as int].content),
                        ));
                    assert(self@.history.drop_last() =~= old_view.history);
                    lemma_update_keeps_ids(old_view, self@);
                }
                true
            }
        }
    }

    /// Starts completing the task with `id`. True when a pending task moved
    /// to `Completing`; false when there is no such task or it was in another
    /// state, and then nothing changed. This step is not recorded for undo
    /// and not saved: only the completion it leads to is.
    pub fn begin_completing(&mut self, id: TaskId) -> (r: bool)
        requires
            old(self).wf(),
        ensures
            final(self).wf(),
            final(self)@ == spec_begin(old(self)@, id.0),
            r == begin_applies(old(self)@, id.0),
            final(self).spec_storage() == old(self).spec_storage(),
    {
        match position(&self.tasks, id) {
            None => false,
            Some(p) => {
                if !self.tasks[p].is_pending() {
                    return false;
                }
                let ghost old_view = self@;
                self.tasks[p].begin_completing();
                proof {
                    assert(self@.tasks
                        =~= old_view.tasks.update(
                            p as int,
                            old_view.tasks[p as int].with_state(TaskState::Completing),
                        ));
                    assert(self@.history =~= old_view.history);
                    lemma_update_keeps_ids(old_view, self@);
                }
                true
            }
        }
    }

    /// Marks the task with `id` done, from whatever state it is in, records
    /// the completion for undo and asks for a save. False when there is no
    /// such task, and then nothing changed.
    pub fn finish_completing(&mut self, id: TaskId) -> (r: bool)
        requires
            old(self).wf(),
        ensures
            final(self).wf(),
            final(self)@ == spec_finish(old(self)@, id.0),
            r == (position_of(old(self)@.tasks, id.0) >= 0),
            final(self).spec_storage() == old(self).spec_storage(),
    {
        match position(&self.tasks, id) {
            None => false,
            Some(p) => {
                let ghost old_view = self@;
                self.tasks[p].complete();
                self.history.push(TaskAction::Complete(id));
                self.save_requested = true;
                proof {
                    assert(self@.tasks
                        =~= old_view.tasks.update(
                            p as int,
                            old_view.tasks[p as int].with_state(TaskState::Done),
                        ));
                    assert(self@.history =~= old_view.history.push(ActionView::Complete(id.0)));
                    assert(self@.history.drop_last() =~= old_view.history);
                    lemma_update_keeps_ids(old_view, self@);
                }
                true
            }
        }
    }

    /// Removes the task with `id`, records it for undo, asks for a save and
    /// hands it back. `None` when there is no such task: then nothing changed,
    /// the history included, and no save is asked for.
    pub fn remove_task(&mut self, id: TaskId) -> (r: Option<Task>)
        requires
            old(self).wf(),
        ensures
            final(self).wf(),
            final(self)@ == spec_remove(old(self)@, id.0),
            match r {
                Some(t) => position_of(old(self)@.tasks, id.0) >= 0
                    && t@ == old(self)@.tasks[position_of(old(self)@.tasks, id.0)],
                None => position_of(old(self)@.tasks, id.0) < 0,
            },
            final(self).spec_storage() == old(self).spec_storage(),
    {
        match position(&self.tasks, id) {
            None => None,
            Some(p) => {
                let ghost old_view = self@;
                let task = self.tasks.remove(p);
                self.history.push(TaskAction::Remove(task.clone(), p));
                self.save_requested = true;
                proof {
                    assert(self@.tasks =~= old_view.tasks.remove(p as int));
                    assert(self@.history
                        =~= old_view.history.push(
                            ActionView::Remove(old_view.tasks[p as int], p as nat),
                        ));
                    lemma_remove_wf(old_view, id.0);
                }
                Some(task)
            }
        }
    }

    /// Reverses the most recent recorded change and asks for a save; false
    /// when there is nothing to undo. An added task is dropped, a removed one
    /// goes back where it was, an edit gets its old content back and a
    /// completed task becomes pending again.
    pub fn undo(&mut self) -> (r: bool)
        requires
            old(self).wf(),
        ensures
            final(self).wf(),
            final(self)@ == spec_undo(old(self)@),
            r == (old(self)@.history.len() > 0),
            final(self).spec_storage() == old(self).spec_storage(),
    {
        let ghost old_view = self@;
        match self.history.pop() {
            None => false,
            Some(action) => {
                proof {
                    assert(self@.history =~= old_view.history.drop_last());
                    assert(action@ == old_view.history.last());
                }
                let ghost mid = self@;
                match action {
                    TaskAction::Add(id) => {
                        match position(&self.tasks, id) {
                            Some(p) => {
                                self.tasks.remove(p);
                                assert(self@.tasks =~= mid.tasks.remove(p as int));
                            },
                            None => {},
                        }
                    },
                    TaskAction::Remove(task, idx) => {
                        if idx <= self.tasks.len() {
                            self.tasks.insert(idx, task);
                            assert(self@.tasks =~= mid.tasks.insert(idx as int, task@));
                        } else {
                            self.tasks.push(task);
                            assert(self@.tasks =~= mid.tasks.push(task@));
                        }
                    },
                    TaskAction::UpdateContent(id, content) => {
                        match position(&self.tasks, id) {
                            Some(p) => {
                                let ghost c = content@;
                                self.tasks[p].set_content(content);
                                assert(self@.tasks
                                    =~= mid.tasks.update(
                                        p as int,
                                        mid.tasks[p as int].with_content(c),
                                    ));
                            },
                            None => {},
                        }
                    },
                    TaskAction::Complete(id) => {
                        match position(&self.tasks, id) {
                            Some(p) => {
                                self.tasks[p].reopen();
                                assert(self@.tasks
                                    =~= mid.tasks.update(
                                        p as int,
                                        mid.tasks[p as int].with_state(TaskState::Pending),
                                    ));
                            },
                            None => {},
                        }
                    },
                }
                self.save_requested = true;
                proof {
                    lemma_undo_keeps_ids(old_view);
                }
                true
            }
        }
    }

    /// The tasks in store order.
    pub fn all_tasks(&self) -> (r: &[Task])
        ensures
            views(r@) == self@.tasks,
    {
        self.tasks.as_slice()
    }

    fn tasks_in_state(&self, state: TaskState) -> (r: Vec<Task>)
        ensures
            views(r@) == in_state(self@.tasks, state),
    {
        let ghost ts = self@.tasks;
        let mut out: Vec<Task> = Vec::new();
        let mut i: usize = 0;
        while i < self.tasks.len()
            invariant
                ts == self@.tasks,
                ts == views(self.tasks@),
                i <= ts.len(),
                views(out@) == in_state(ts.subrange(0, i as int), state),
            decreases ts.len() - i,
        {
            proof {
                assert(ts.subrange(0, i + 1).drop_last() =~= ts.subrange(0, i as int));
            }
            if self.tasks[i].state == state {
                out.push(self.tasks[i].clone());
                assert(views(out@) =~= in_state(ts.subrange(0, i + 1), state));
            }
            i = i + 1;
        }
        assert(ts.subrange(0, ts.len() as int) =~= ts);
        out
    }

    /// The pending tasks, in store order.
    pub fn pending_tasks(&self) -> (r: Vec<Task>)
        ensures
            views(r@) == in_state(self@.tasks, TaskState::Pending),
    {
        self.tasks_in_state(TaskState::Pending)
    }

    /// The completed tasks, in store order.
    pub fn completed_tasks(&self) -> (r: Vec<Task>)
        ensures
            views(r@) == in_state(self@.tasks, TaskState::Done),
    {
        self.tasks_in_state(TaskState::Done)
    }

    fn count_in_state(&self, state: TaskState) -> (r: usize)
        ensures
            r == in_state(self@.tasks, state).len(),
    {
        let ghost ts = self@.tasks;
        let mut n: usize = 0;
        let mut i: usize = 0;
        while i < self.tasks.len()
            invariant
                ts == self@.tasks,
                ts == views(self.tasks@),
                i <= ts.len(),
                n == in_state(ts.subrange(0, i as int), state).len(),
                n <= i,
            decreases ts.len() - i,
        {
            proof {
                assert(ts.subrange(0, i + 1).drop_last() =~= ts.subrange(0, i as int));
            }
            if self.tasks[i].state == state {
                n = n + 1;
            }
            i = i + 1;
        }
        assert(ts.subrange(0, ts.len() as int) =~= ts);
        n
    }

    /// How many tasks are pending (not counting those being completed).
    pub fn pending_count(&self) -> (r: usize)
        ensures
            r == in_state(self@.tasks, TaskState::Pending).len(),
    {
        self.count_in_state(TaskState::Pending)
    }

    /// How many tasks are done.
    pub fn completed_count(&self) -> (r: usize)
        ensures
            r == in_state(self@.tasks, TaskState::Done).len(),
    {
        self.count_in_state(TaskState::Done)
    }

    /// The store is not empty and every task in it is done. An empty store
    /// is never all overcome, nor is one with a pending or completing task.
    pub fn all_overcome(&self) -> (r: bool)
        ensures
            r == spec_all_overcome(self@.tasks),
            self@.tasks.len() == 0 ==> !r,
            (exists|i: int|
                0 <= i < self@.tasks.len() && (#[trigger] self@.tasks[i].state == TaskState::Pending
                    || self@.tasks[i].state == TaskState::Completing)) ==> !r,
    {
        if self.tasks.len() == 0 {
            return false;
        }
        let mut i: usize = 0;
        while i < self.tasks.len()
            invariant
                i <= self@.tasks.len(),
                views(self.tasks@) == self@.tasks,
                forall|j: int| 0 <= j < i ==> #[trigger] self@.tasks[j].state == TaskState::Done,
            decreases self@.tasks.len() - i,
        {
            if !self.tasks[i].is_done() {
                assert(self@.tasks[i as int].state != TaskState::Done);
                return false;
            }
            i = i + 1;
        }
        true
    }

    /// How many changes can be undone.
    pub fn history_len(&self) -> (r: usize)
        ensures
            r == self@.history.len(),
    {
        self.history.len()
    }

    /// Whether a change is waiting to be saved.
    pub fn save_requested(&self) -> (r: bool)
        ensures
            r == self@.save_requested,
    {
        self.save_requested
    }

    /// Hands out the pending save request, if any, and clears it. The host
    /// writes the store when this returns true.
    pub fn take_save_request(&mut self) -> (r: bool)
        requires
            old(self).wf(),
        ensures
            final(self).wf(),
            r == old(self)@.save_requested,
            final(self)@ == (ServiceView { save_requested: false, ..old(self)@ }),
            final(self).spec_storage() == old(self).spec_storage(),
    {
        let r = self.save_requested;
        self.save_requested = false;
        r
    }

    /// Where the store is saved.
    pub fn storage(&self) -> (r: &TaskStorage)
        ensures
            *r == self.spec_storage(),
    {
        &self.storage
    }
}

} // verus!

verus! {

/// A recorded command, as the laws about undo see it.
pub enum Mutation {
    Add(Seq<char>, Timestamp),
    UpdateContent(u64, Seq<char>),
    FinishCompleting(u64),
    Remove(u64),
}

pub open spec fn apply_mutation(v: ServiceView, m: Mutation) -> ServiceView {
    match m {
        Mutation::Add(raw, now) => spec_add(v, raw, now),
        Mutation::UpdateContent(id, c) => spec_update(v, id, c),
        Mutation::FinishCompleting(id) => spec_finish(v, id),
        Mutation::Remove(id) => spec_remove(v, id),
    }
}

/// The command takes effect on `v` and records an entry that undo takes
/// back: the text adds a task, the edit changes something, the completed or
/// removed task exists.
pub open spec fn reversible(v: ServiceView, m: Mutation) -> bool {
    match m {
        Mutation::Add(raw, _) => add_accepts(v, raw),
        Mutation::UpdateContent(id, c) => update_applies(v, id, c),
        Mutation::FinishCompleting(id) => position_of(v.tasks, id) >= 0,
        Mutation::Remove(id) => position_of(v.tasks, id) >= 0,
    }
}

/// Undo gives the task its state back too: a completion finishes a task that
/// was still pending (undo always reopens a task as `Pending`).
pub open spec fn keeps_state(v: ServiceView, m: Mutation) -> bool {
    match m {
        Mutation::FinishCompleting(id) => begin_applies(v, id),
        _ => true,
    }
}

/// Each command of `ms` keeps the state in the sense of `keeps_state`, in
/// the state it is applied to.
pub open spec fn all_keep_state(v: ServiceView, ms: Seq<Mutation>) -> bool
    decreases ms.len(),
{
    ms.len() == 0 || (keeps_state(v, ms[0]) && all_keep_state(
        apply_mutation(v, ms[0]),
        ms.drop_first(),
    ))
}

/// The same tasks in the same order, each alike in everything but its
/// lifecycle state.
pub open spec fn same_but_state(a: Seq<TaskView>, b: Seq<TaskView>) -> bool {
    a.len() == b.len() && forall|i: int|
        0 <= i < a.len() ==> #[trigger] a[i].with_state(TaskState::Pending) == b[i].with_state(
            TaskState::Pending,
        )
}

pub open spec fn apply_all(v: ServiceView, ms: Seq<Mutation>) -> ServiceView
    decreases ms.len(),
{
    if ms.len() == 0 {
        v
    } else {
        apply_all(apply_mutation(v, ms[0]), ms.drop_first())
    }
}

/// Each command of `ms` is reversible in the state it is applied to.
pub open spec fn all_reversible(v: ServiceView, ms: Seq<Mutation>) -> bool
    decreases ms.len(),
{
    ms.len() == 0 || (reversible(v, ms[0]) && all_reversible(
        apply_mutation(v, ms[0]),
        ms.drop_first(),
    ))
}

/// `undo` called `n` times.
pub open spec fn undo_times(v: ServiceView, n: nat) -> ServiceView
    decreases n,
{
    if n == 0 {
        v
    } else {
        spec_undo(undo_times(v, (n - 1) as nat))
    }
}

proof fn lemma_apply_keeps_well_formed(v: ServiceView, m: Mutation)
    requires
        well_formed(v),
        reversible(v, m),
    ensures
        well_formed(apply_mutation(v, m)),
{
    let w = apply_mutation(v, m);
    match m {
        Mutation::Add(raw, now) => lemma_add_wf(v, raw, now),
        Mutation::Remove(id) => lemma_remove_wf(v, id),
        _ => {
            let p = position_of(v.tasks, match m {
                Mutation::UpdateContent(id, _) => id,
                Mutation::FinishCompleting(id) => id,
                _ => 0,
            });
            lemma_position_bounds(v.tasks, match m {
                Mutation::UpdateContent(id, _) => id,
                Mutation::FinishCompleting(id) => id,
                _ => 0,
            });
            assert(w.history.drop_last() =~= v.history);
            lemma_update_keeps_ids(v, w);
        },
    }
}

/// Undoing a reversible command right after it restores the store, up to
/// states and exactly where the command keeps the state, and the history.
proof fn lemma_undo_step(v: ServiceView, m: Mutation)
    requires
        well_formed(v),
        reversible(v, m),
    ensures
        same_but_state(spec_undo(apply_mutation(v, m)).tasks, v.tasks),
        keeps_state(v, m) ==> spec_undo(apply_mutation(v, m)).tasks == v.tasks,
        spec_undo(apply_mutation(v, m)).history == v.history,
{
    let w = apply_mutation(v, m);
    let u = spec_undo(w);
    assert(w.history.drop_last() =~= v.history);
    match m {
        Mutation::Add(raw, now) => {
            let id = v.next_id;
            let n = v.tasks.len() as int;
            assert(is_first_with_id(w.tasks, id, n)) by {
                assert forall|j: int| 0 <= j < n implies w.tasks[j].id != id by {
                    assert(w.tasks[j] == v.tasks[j]);
                    assert(v.tasks[j].id < v.next_id);
                }
            }
            lemma_position_found(w.tasks, id, n);
            assert(u.tasks =~= v.tasks);
        },
        Mutation::UpdateContent(id, c) => {
            lemma_position_bounds(v.tasks, id);
            lemma_position_same_ids(v.tasks, w.tasks, id);
            assert(u.tasks =~= v.tasks);
        },
        Mutation::FinishCompleting(id) => {
            let p = position_of(v.tasks, id);
            lemma_position_bounds(v.tasks, id);
            lemma_position_same_ids(v.tasks, w.tasks, id);
            assert(u.tasks =~= v.tasks.update(p, v.tasks[p].with_state(TaskState::Pending)));
            if keeps_state(v, m) {
                assert(u.tasks =~= v.tasks);
            }
        },
        Mutation::Remove(id) => {
            lemma_position_bounds(v.tasks, id);
            assert(u.tasks =~= v.tasks);
        },
    }
}

/// Undo treats stores that differ only in states alike.
proof fn lemma_undo_congruent_but_state(a: ServiceView, b: ServiceView)
    requires
        same_but_state(a.tasks, b.tasks),
        a.history == b.history,
    ensures
        same_but_state(spec_undo(a).tasks, spec_undo(b).tasks),
        spec_undo(a).history == spec_undo(b).history,
{
    if a.history.len() > 0 {
        let (x, y) = (a.tasks, b.tasks);
        let ua = spec_undo(a).tasks;
        let ub = spec_undo(b).tasks;
        assert forall|j: int| 0 <= j < x.len() implies x[j].id == y[j].id by {
            assert(x[j].with_state(TaskState::Pending) == y[j].with_state(TaskState::Pending));
        }
        match a.history.last() {
            ActionView::Add(id) => {
                lemma_position_same_ids(x, y, id);
                let p = position_of(x, id);
                lemma_position_bounds(x, id);
                if p >= 0 {
                    assert forall|i: int| 0 <= i < ua.len() implies #[trigger] ua[i].with_state(
                        TaskState::Pending,
                    ) == ub[i].with_state(TaskState::Pending) by {
                        if i < p {
                            assert(ua[i] == x[i] && ub[i] == y[i]);
                        } else {
                            assert(ua[i] == x[i + 1] && ub[i] == y[i + 1]);
                        }
                    }
                }
            },
            ActionView::Remove(t, k) => {
                assert forall|i: int| 0 <= i < ua.len() implies #[trigger] ua[i].with_state(
                    TaskState::Pending,
                ) == ub[i].with_state(TaskState::Pending) by {
                    if k <= x.len() {
                        if i < k {
                            assert(ua[i] == x[i] && ub[i] == y[i]);
                        } else if i > k {
                            assert(ua[i] == x[i - 1] && ub[i] == y[i - 1]);
                        }
                    } else if i < x.len() {
                        assert(ua[i] == x[i] && ub[i] == y[i]);
                    }
                }
            },
            ActionView::UpdateContent(id, c) => {
                lemma_position_same_ids(x, y, id);
                lemma_position_bounds(x, id);
                let p = position_of(x, id);
                assert forall|i: int| 0 <= i < ua.len() implies #[trigger] ua[i].with_state(
                    TaskState::Pending,
                ) == ub[i].with_state(TaskState::Pending) by {
                    if i != p {
                        assert(ua[i] == x[i] && ub[i] == y[i]);
                    } else {
                        assert(x[i].with_state(TaskState::Pending) == y[i].with_state(
                            TaskState::Pending,
                        ));
                    }
                }
            },
            ActionView::Complete(id) => {
                lemma_position_same_ids(x, y, id);
                lemma_position_bounds(x, id);
                let p = position_of(x, id);
                assert forall|i: int| 0 <= i < ua.len() implies #[trigger] ua[i].with_state(
                    TaskState::Pending,
                ) == ub[i].with_state(TaskState::Pending) by {
                    if i != p {
                        assert(ua[i] == x[i] && ub[i] == y[i]);
                    } else {
                        assert(x[i].with_state(TaskState::Pending) == y[i].with_state(
                            TaskState::Pending,
                        ));
                    }
                }
            },
        }
    }
}

/// Undo sees only the store and the history.
proof fn lemma_undo_congruent(a: ServiceView, b: ServiceView)
    requires
        a.tasks == b.tasks,
        a.history == b.history,
    ensures
        spec_undo(a).tasks == spec_undo(b).tasks,
        spec_undo(a).history == spec_undo(b).history,
{
}

/// Any run of reversible commands (add, edit, complete, remove) followed by
/// as many undos gives back the history it started from and the store it
/// started from, task for task and in the same order, alike in everything
/// but the lifecycle state. Where every completion finished a pending task,
/// the store comes back exactly, states included.
pub proof fn lemma_undo_restores(v: ServiceView, ms: Seq<Mutation>)
    requires
        well_formed(v),
        all_reversible(v, ms),
    ensures
        same_but_state(undo_times(apply_all(v, ms), ms.len()).tasks, v.tasks),
        undo_times(apply_all(v, ms), ms.len()).history == v.history,
        all_keep_state(v, ms) ==> undo_times(apply_all(v, ms), ms.len()).tasks == v.tasks,
    decreases ms.len(),
{
    if ms.len() == 0 {
        assert(same_but_state(v.tasks, v.tasks));
    } else {
        let v1 = apply_mutation(v, ms[0]);
        let rest = ms.drop_first();
        lemma_apply_keeps_well_formed(v, ms[0]);
        lemma_undo_restores(v1, rest);
        // the last undo reverses the first command
        let x = apply_all(v1, rest);
        let k = rest.len();
        assert(apply_all(v, ms) == x);
        let w = undo_times(x, k);
        assert(undo_times(x, k + 1) == spec_undo(w));
        lemma_undo_congruent_but_state(w, v1);
        lemma_undo_step(v, ms[0]);
        let u = spec_undo(w).tasks;
        let m = spec_undo(v1).tasks;
        assert forall|i: int| 0 <= i < u.len() implies #[trigger] u[i].with_state(
            TaskState::Pending,
        ) == v.tasks[i].with_state(TaskState::Pending) by {
            assert(u[i].with_state(TaskState::Pending) == m[i].with_state(TaskState::Pending));
            assert(m[i].with_state(TaskState::Pending) == v.tasks[i].with_state(
                TaskState::Pending,
            ));
        }
        if all_keep_state(v, ms) {
            lemma_undo_congruent(w, v1);
        }
    }
}

/// Adding text with content left once its shorthand is out creates exactly
/// one task, at the end of the store, under an id no task in the store has,
/// with that content, the priority and due date of the first token of each
/// kind, state `Pending` and no notes; the history records the addition. The
/// content holds neither winning token.
pub proof fn lemma_add_creates_one_task(v: ServiceView, raw: Seq<char>, now: Timestamp)
    requires
        well_formed(v),
        !is_blank(shorthand_content(raw)),
        v.next_id < u64::MAX,
    ensures
        spec_add(v, raw, now).tasks.len() == v.tasks.len() + 1,
        spec_add(v, raw, now).tasks.drop_last() == v.tasks,
        spec_add(v, raw, now).tasks.last() == added_task(v.next_id, raw, now),
        forall|i: int| 0 <= i < v.tasks.len() ==> #[trigger] v.tasks[i].id != v.next_id,
        spec_add(v, raw, now).history == v.history.push(ActionView::Add(v.next_id)),
        !has_token(spec_add(v, raw, now).tasks.last().content, priority_token(raw)),
        !has_token(spec_add(v, raw, now).tasks.last().content, due_token(raw)),
{
    assert(spec_add(v, raw, now).tasks.drop_last() =~= v.tasks);
    lemma_strip_tokens_clean(raw, priority_token(raw), due_token(raw));
}

/// Blank text (the empty text included) creates no task and changes nothing.
pub proof fn lemma_blank_adds_nothing(v: ServiceView, raw: Seq<char>, now: Timestamp)
    requires
        is_blank(raw),
    ensures
        spec_add(v, raw, now) == v,
{
    reveal_strlit("!h");
    reveal_strlit("!m");
    reveal_strlit("!l");
    reveal_strlit("@today");
    reveal_strlit("@tomorrow");
    lemma_blank_lacks(raw, "!h"@);
    lemma_blank_lacks(raw, "!m"@);
    lemma_blank_lacks(raw, "!l"@);
    lemma_blank_lacks(raw, "@today"@);
    lemma_blank_lacks(raw, "@tomorrow"@);
}

/// Blank text holds no token that starts with a visible character.
proof fn lemma_blank_lacks(s: Seq<char>, t: Seq<char>)
    requires
        is_blank(s),
        t.len() > 0,
        !is_white_space(t[0]),
    ensures
        !contains(s, t),
{
    if contains(s, t) {
        let i = choose|i: int| occurs_at(s, t, i);
        assert(s.subrange(i, i + t.len())[0] == t[0]);
        assert(is_white_space(s[i]));
    }
}

} // verus!
