//! Durable background tasks: their records, ids, ordering and the repair
//! applied after a restart.
use vstd::prelude::*;

use crate::ids::{IdOrder, lex_order};
use crate::models::AppMode;
use crate::protocol::opt_view;
use crate::text::{decimal, owned, push_str, to_chars, u64_to_string, usize_to_string};

verus! {

#[derive(Debug, Clone, Copy, PartialEq, Eq, Structural)]
pub enum TaskStatus {
    Queued,
    Running,
    Completed,
    Failed,
    Cancelled,
    Interrupted,
}

/// A task as it is stored.
#[derive(Debug, Clone)]
pub struct SavedTask {
    pub id: String,
    pub prompt: String,
    pub model: String,
    pub routed_model: Option<String>,
    pub mode: AppMode,
    pub status: TaskStatus,
    pub created_at_epoch: u64,
    pub updated_at_epoch: u64,
    pub started_at_epoch: Option<u64>,
    pub finished_at_epoch: Option<u64>,
    pub assistant_output: String,
    pub activity_log: Vec<String>,
    pub error: Option<String>,
}

/// The id `task-<timestamp>-<index>`.
pub open spec fn task_candidate(timestamp: nat, index: nat) -> Seq<char> {
    "task-"@ + decimal(timestamp) + "-"@ + decimal(index)
}

pub open spec fn task_ids(tasks: Seq<SavedTask>) -> Seq<Seq<char>> {
    tasks.map_values(|t: SavedTask| t.id@)
}

/// `id` is `task-<timestamp>-<m>` for the least `m >= 1` that no task uses.
pub open spec fn first_free_task_id(tasks: Seq<SavedTask>, timestamp: nat, id: Seq<char>) -> bool {
    exists|m: nat|
        #![trigger task_candidate(timestamp, m)]
        m >= 1 && id == task_candidate(timestamp, m) && !task_ids(tasks).contains(task_candidate(timestamp, m))
            && forall|k: nat| 1 <= k < m ==> task_ids(tasks).contains(#[trigger] task_candidate(timestamp, k))
}

proof fn lemma_candidate_injective(timestamp: nat, a: nat, b: nat)
    requires
        task_candidate(timestamp, a) == task_candidate(timestamp, b),
    ensures
        a == b,
{
    let p = "task-"@ + decimal(timestamp) + "-"@;
    assert(task_candidate(timestamp, a) == p + decimal(a));
    assert(task_candidate(timestamp, b) == p + decimal(b));
    assert((p + decimal(a)).skip(p.len() as int) =~= decimal(a));
    assert((p + decimal(b)).skip(p.len() as int) =~= decimal(b));
    crate::text::lemma_decimal_injective(a, b);
}

/// At most as many candidates are taken as there are tasks.
proof fn lemma_taken_candidates(ids: Seq<Seq<char>>, timestamp: nat, n: nat)
    requires
        forall|k: nat| 1 <= k <= n ==> ids.contains(#[trigger] task_candidate(timestamp, k)),
    ensures
        n <= ids.len(),
{
    let c = Seq::new(n, |k: int| task_candidate(timestamp, (k + 1) as nat));
    assert forall|i: int, j: int| 0 <= i < c.len() && 0 <= j < c.len() && i != j implies c[i] != c[j] by {
        if c[i] == c[j] {
            lemma_candidate_injective(timestamp, (i + 1) as nat, (j + 1) as nat);
        }
    }
    c.unique_seq_to_set();
    assert forall|x: Seq<char>| c.to_set().contains(x) implies ids.to_set().contains(x) by {
        let i = c.index_of(x);
        assert(ids.contains(task_candidate(timestamp, (i + 1) as nat)));
    }
    vstd::seq_lib::seq_to_set_is_finite(ids);
    vstd::set_lib::lemma_len_subset(c.to_set(), ids.to_set());
    ids.lemma_cardinality_of_set();
}

/// Whether some task has the id `id`.
fn task_id_taken(tasks: &Vec<SavedTask>, id: &String) -> (r: bool)
    ensures
        r == task_ids(tasks@).contains(id@),
{
    let mut i: usize = 0;
    while i < tasks.len()
        invariant
            i <= tasks@.len(),
            forall|k: int| 0 <= k < i ==> tasks@[k].id@ != id@,
        decreases tasks@.len() - i,
    {
        if tasks[i].id == *id {
            assert(task_ids(tasks@)[i as int] == id@);
            return true;
        }
        i += 1;
    }
    assert forall|k: int| 0 <= k < task_ids(tasks@).len() implies task_ids(tasks@)[k] != id@ by {}
    false
}

fn candidate_id(timestamp: u64, index: usize) -> (r: String)
    ensures
        r@ == task_candidate(timestamp as nat, index as nat),
{
    let mut id = owned("task-");
    let ts = u64_to_string(timestamp);
    push_str(&mut id, ts.as_str());
    push_str(&mut id, "-");
    let ix = usize_to_string(index);
    push_str(&mut id, ix.as_str());
    id
}

/// The first `task-<timestamp>-<index>` id, counting from index 1, that no
/// task uses.
pub fn next_task_id_at(tasks: &Vec<SavedTask>, timestamp: u64) -> (r: String)
    requires
        tasks@.len() < usize::MAX,
    ensures
        first_free_task_id(tasks@, timestamp as nat, r@),
{
    let ghost ids = task_ids(tasks@);
    let mut index: usize = 1;
    loop
        invariant
            1 <= index <= tasks@.len() + 1,
            tasks@.len() < usize::MAX,
            ids == task_ids(tasks@),
            forall|k: nat| 1 <= k < index ==> ids.contains(#[trigger] task_candidate(timestamp as nat, k)),
        decreases tasks@.len() + 1 - index,
    {
        let candidate = candidate_id(timestamp, index);
        if !task_id_taken(tasks, &candidate) {
            return candidate;
        }
        proof {
            assert forall|k: nat| 1 <= k <= index implies ids.contains(#[trigger] task_candidate(timestamp as nat, k)) by {}
            lemma_taken_candidates(ids, timestamp as nat, index as nat);
        }
        index += 1;
    }
}

/// The current Unix time in seconds, or 0 before the epoch.
#[verifier::external_body]
pub fn now_epoch() -> u64 {
    std::time::SystemTime::now().duration_since(std::time::UNIX_EPOCH).unwrap_or_default().as_secs()
}

/// A fresh task id for the current time.
pub fn next_task_id(tasks: &Vec<SavedTask>) -> (r: String)
    requires
        tasks@.len() < usize::MAX,
    ensures
        exists|timestamp: nat| first_free_task_id(tasks@, timestamp, r@),
{
    let timestamp = now_epoch();
    next_task_id_at(tasks, timestamp)
}

/// `a` comes before `b`: more recently updated, then more recently created,
/// then by id.
pub open spec fn task_before(a: SavedTask, b: SavedTask) -> bool {
    ||| a.updated_at_epoch > b.updated_at_epoch
    ||| (a.updated_at_epoch == b.updated_at_epoch && a.created_at_epoch > b.created_at_epoch)
    ||| (a.updated_at_epoch == b.updated_at_epoch && a.created_at_epoch == b.created_at_epoch
        && lex_order(a.id@, b.id@) == IdOrder::Less)
}

pub open spec fn tasks_sorted(ts: Seq<SavedTask>) -> bool {
    forall|i: int, j: int| 0 <= i < j < ts.len() ==> !task_before(#[trigger] ts[j], #[trigger] ts[i])
}

proof fn lemma_task_before_trans(a: SavedTask, b: SavedTask, c: SavedTask)
    requires
        task_before(a, b),
        task_before(b, c),
    ensures
        task_before(a, c),
{
    if a.updated_at_epoch == b.updated_at_epoch && b.updated_at_epoch == c.updated_at_epoch
        && a.created_at_epoch == b.created_at_epoch && b.created_at_epoch == c.created_at_epoch {
        crate::ids::lemma_lex_order_trans(a.id@, b.id@, c.id@);
    }
}

fn precedes(a: &SavedTask, b: &SavedTask) -> (r: bool)
    ensures
        r == task_before(*a, *b),
{
    if a.updated_at_epoch != b.updated_at_epoch {
        return a.updated_at_epoch > b.updated_at_epoch;
    }
    if a.created_at_epoch != b.created_at_epoch {
        return a.created_at_epoch > b.created_at_epoch;
    }
    let x = to_chars(a.id.as_str());
    let y = to_chars(b.id.as_str());
    match crate::ids::lex_compare(&x, &y) {
        IdOrder::Less => true,
        _ => false,
    }
}

/// Orders tasks: most recently updated first, then most recently created,
/// then by id.
pub fn sort_tasks(tasks: &mut Vec<SavedTask>)
    ensures
        final(tasks)@.to_multiset() == old(tasks)@.to_multiset(),
        tasks_sorted(final(tasks)@),
{
    let n = tasks.len();
    let mut i: usize = 1;
    if n == 0 {
        return;
    }
    while i < n
        invariant
            1 <= i <= n == tasks@.len(),
            tasks@.to_multiset() == old(tasks)@.to_multiset(),
            forall|a: int, b: int| 0 <= a < b < i ==> !task_before(#[trigger] tasks@[b], #[trigger] tasks@[a]),
        decreases n - i,
    {
        let ghost before = tasks@;
        let x = tasks.remove(i);
        let mut p: usize = 0;
        while p < i && !precedes(&x, &tasks[p])
            invariant
                p <= i < n,
                before.len() == n,
                x == before[i as int],
                tasks@ == before.remove(i as int),
                forall|k: int| 0 <= k < p ==> !task_before(x, #[trigger] tasks@[k]),
            decreases i - p,
        {
            p += 1;
        }
        let ghost removed = tasks@;
        tasks.insert(p, x);
        proof {
            vstd::seq_lib::to_multiset_remove(before, i as int);
            vstd::seq_lib::to_multiset_insert(before.remove(i as int), p as int, x);
            assert(before.to_multiset().remove(x).insert(x) =~= before.to_multiset()) by {
                before.to_multiset_ensures();
                assert(before.contains(before[i as int]));
            }
            assert forall|a: int, b: int| 0 <= a < b < i + 1 implies !task_before(#[trigger] tasks@[b], #[trigger] tasks@[a]) by {
                if b < p {
                    assert(tasks@[a] == before[a] && tasks@[b] == before[b]);
                } else if b == p {
                    assert(tasks@[b] == x);
                    assert(tasks@[a] == removed[a]);
                } else if a == p {
                    assert(tasks@[a] == x);
                    assert(tasks@[b] == removed[b - 1]);
                    assert(removed[b - 1] == before[b - 1]);
                    if p < i {
                        assert(task_before(x, removed[p as int]));
                        assert(removed[p as int] == before[p as int]);
                        if p < b - 1 {
                            assert(!task_before(before[b - 1], before[p as int]));
                        }
                        if task_before(tasks@[b], x) {
                            if p < b - 1 {
                                lemma_task_before_trans(before[b - 1], x, before[p as int]);
                            } else {
                                lemma_task_before_trans(x, before[p as int], x);
                                crate::ids::lemma_lex_order_antisym(x.id@, x.id@);
                            }
                        }
                    }
                } else if a < p {
                    assert(tasks@[a] == before[a]);
                    assert(tasks@[b] == before[b - 1]);
                } else {
                    assert(tasks@[a] == before[a - 1]);
                    assert(tasks@[b] == before[b - 1]);
                }
            }
        }
        i += 1;
    }
}

pub open spec fn interrupted_note() -> Seq<char> {
    "Task interrupted because MiMo-TUI was restarted."@
}

pub open spec fn interrupted_error() -> Seq<char> {
    "Interrupted by application restart"@
}

/// `new` is `old` after the restart repair at time `now`: a queued or
/// running task is marked interrupted, finished and updated now, gets a log
/// note, and an error where it had none; any other task is left alone.
pub open spec fn repaired_task(old: SavedTask, new: SavedTask, now: u64) -> bool {
    if old.status == TaskStatus::Queued || old.status == TaskStatus::Running {
        &&& new.id == old.id
        &&& new.prompt == old.prompt
        &&& new.model == old.model
        &&& new.routed_model == old.routed_model
        &&& new.mode == old.mode
        &&& new.status == TaskStatus::Interrupted
        &&& new.created_at_epoch == old.created_at_epoch
        &&& new.updated_at_epoch == now
        &&& new.started_at_epoch == old.started_at_epoch
        &&& new.finished_at_epoch == Some(now)
        &&& new.assistant_output == old.assistant_output
        &&& crate::ids::views(new.activity_log@) == crate::ids::views(old.activity_log@).push(interrupted_note())
        &&& opt_view(new.error) == match old.error {
            Some(e) => Some(e@),
            None => Some(interrupted_error()),
        }
    } else {
        new == old
    }
}

/// Marks the tasks that were queued or running when the application
/// stopped as interrupted at time `now`.
pub fn normalize_loaded_tasks_at(tasks: &mut Vec<SavedTask>, now: u64)
    ensures
        final(tasks)@.len() == old(tasks)@.len(),
        forall|i: int| 0 <= i < old(tasks)@.len() ==> repaired_task(old(tasks)@[i], #[trigger] final(tasks)@[i], now),
{
    let ghost orig = tasks@;
    let mut i: usize = 0;
    while i < tasks.len()
        invariant
            i <= tasks@.len() == orig.len(),
            forall|k: int| 0 <= k < i ==> repaired_task(orig[k], #[trigger] tasks@[k], now),
            forall|k: int| i <= k < orig.len() ==> #[trigger] tasks@[k] == orig[k],
        decreases orig.len() - i,
    {
        if tasks[i].status == TaskStatus::Queued || tasks[i].status == TaskStatus::Running {
            let ghost before = tasks@;
            let mut t = tasks.remove(i);
            let ghost old_log = t.activity_log@;
            t.status = TaskStatus::Interrupted;
            t.finished_at_epoch = Some(now);
            t.updated_at_epoch = now;
            t.activity_log.push(owned("Task interrupted because MiMo-TUI was restarted."));
            if t.error.is_none() {
                t.error = Some(owned("Interrupted by application restart"));
            }
            proof {
                assert(crate::ids::views(t.activity_log@) =~= crate::ids::views(old_log).push(interrupted_note()));
            }
            tasks.insert(i, t);
            proof {
                assert forall|k: int| 0 <= k < i + 1 implies repaired_task(orig[k], #[trigger] tasks@[k], now) by {
                    if k < i {
                        assert(tasks@[k] == before[k]);
                    }
                }
                assert forall|k: int| i + 1 <= k < orig.len() implies #[trigger] tasks@[k] == orig[k] by {
                    assert(tasks@[k] == before[k]);
                }
            }
        }
        i += 1;
    }
}

/// Marks the tasks that were queued or running as interrupted now.
pub fn normalize_loaded_tasks(tasks: &mut Vec<SavedTask>)
    ensures
        final(tasks)@.len() == old(tasks)@.len(),
        exists|now: u64| #[trigger] all_repaired(old(tasks)@, final(tasks)@, now),
{
    let now = now_epoch();
    normalize_loaded_tasks_at(tasks, now);
    assert(all_repaired(old(tasks)@, tasks@, now));
}

/// Each task of `new` is the repair of the same task of `old` at `now`.
pub open spec fn all_repaired(old: Seq<SavedTask>, new: Seq<SavedTask>, now: u64) -> bool {
    forall|i: int| 0 <= i < old.len() ==> repaired_task(old[i], #[trigger] new[i], now)
}

/// The activity log kept for a task: its last forty lines.
pub open spec fn kept_log<A>(log: Seq<A>) -> Seq<A> {
    if log.len() > crate::ui_state::MAX_TASK_LOG_LINES {
        log.skip(log.len() - crate::ui_state::MAX_TASK_LOG_LINES)
    } else {
        log
    }
}

/// Records that a background task started on `routed_model` at `now`.
pub fn mark_task_started(task: &mut SavedTask, routed_model: &str, now: u64)
    ensures
        final(task).status == TaskStatus::Running,
        final(task).started_at_epoch == Some(now),
        final(task).updated_at_epoch == now,
        opt_view(final(task).routed_model) == Some(routed_model@),
        crate::ids::views(final(task).activity_log@) == crate::ids::views(old(task).activity_log@).push(
            "Started background task on "@ + routed_model@ + "."@,
        ),
        final(task).id == old(task).id,
        final(task).created_at_epoch == old(task).created_at_epoch,
        final(task).finished_at_epoch == old(task).finished_at_epoch,
        final(task).error == old(task).error,
{
    let ghost old_log = task.activity_log@;
    task.status = TaskStatus::Running;
    task.started_at_epoch = Some(now);
    task.updated_at_epoch = now;
    task.routed_model = Some(owned(routed_model));
    let mut line = owned("Started background task on ");
    push_str(&mut line, routed_model);
    push_str(&mut line, ".");
    task.activity_log.push(line);
    assert(crate::ids::views(task.activity_log@) =~= crate::ids::views(old_log).push(
        "Started background task on "@ + routed_model@ + "."@,
    ));
}

/// Adds a progress line to a task's log at `now`, keeping the last forty.
pub fn record_task_progress(task: &mut SavedTask, line: String, now: u64)
    ensures
        final(task).activity_log@ == kept_log(old(task).activity_log@.push(line)),
        final(task).updated_at_epoch == now,
        final(task).status == old(task).status,
        final(task).id == old(task).id,
{
    task.updated_at_epoch = now;
    task.activity_log.push(line);
    crate::ui_state::trim_task_log(&mut task.activity_log);
}

/// Appends streamed output to a task at `now`.
pub fn record_task_output(task: &mut SavedTask, delta: &str, now: u64)
    ensures
        final(task).assistant_output@ == old(task).assistant_output@ + delta@,
        final(task).updated_at_epoch == now,
        final(task).status == old(task).status,
        final(task).activity_log == old(task).activity_log,
        final(task).id == old(task).id,
{
    task.updated_at_epoch = now;
    push_str(&mut task.assistant_output, delta);
}

/// Records how a background task ended at `now`: completed without an
/// error, or failed with one, with a log line either way.
pub fn mark_task_finished(task: &mut SavedTask, result: Result<(), String>, now: u64) -> (r: String)
    ensures
        final(task).updated_at_epoch == now,
        final(task).finished_at_epoch == Some(now),
        final(task).id == old(task).id,
        match result {
            Ok(()) => {
                &&& final(task).status == TaskStatus::Completed
                &&& final(task).error is None
                &&& r@ == "Background task "@ + old(task).id@ + " completed"@
            },
            Err(e) => {
                &&& final(task).status == TaskStatus::Failed
                &&& opt_view(final(task).error) == Some(e@)
                &&& r@ == "Background task "@ + old(task).id@ + " failed"@
            },
        },
        crate::ids::views(final(task).activity_log@) == kept_log(
            crate::ids::views(old(task).activity_log@).push(
                match result {
                    Ok(()) => "Task completed successfully."@,
                    Err(e) => "Task failed: "@ + e@,
                },
            ),
        ),
{
    task.updated_at_epoch = now;
    task.finished_at_epoch = Some(now);
    let mut status = owned("Background task ");
    push_str(&mut status, task.id.as_str());
    match result {
        Ok(()) => {
            task.status = TaskStatus::Completed;
            task.error = None;
            task.activity_log.push(owned("Task completed successfully."));
            push_str(&mut status, " completed");
        },
        Err(error) => {
            task.status = TaskStatus::Failed;
            let mut line = owned("Task failed: ");
            push_str(&mut line, error.as_str());
            task.activity_log.push(line);
            task.error = Some(error);
            push_str(&mut status, " failed");
        },
    }
    let ghost pushed = task.activity_log@;
    crate::ui_state::trim_task_log(&mut task.activity_log);
    assert(crate::ids::views(task.activity_log@) =~= kept_log(crate::ids::views(pushed)));
    status
}

} // verus!
