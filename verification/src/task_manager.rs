//! Bookkeeping for managed tasks: ids, statuses, and a bounded log of each
//! task's output.
//!
//! Processes themselves are started, killed and polled by the caller; the
//! manager decides whether a task may start, which id it gets, and how each
//! task's status and log change.
use std::collections::{HashMap, VecDeque};
use vstd::prelude::*;
use crate::text::{decimal, push_decimal, push_signed_decimal, signed_decimal};

verus! {

/// The id of a managed task.
pub type TaskId = u32;

/// The state of a managed task.
#[derive(Debug, Clone, Copy, PartialEq, Eq)]
pub enum TaskStatus {
    /// The process is running.
    Running,
    /// The process exited, with its exit code where it had one.
    Exited(Option<i32>),
    /// The process was killed through the manager.
    Killed,
}

/// How a status is shown: `Running`, `Exited(0)`, `Exited(?)`, `Killed`.
pub open spec fn status_text(s: TaskStatus) -> Seq<char> {
    match s {
        TaskStatus::Running => "Running"@,
        TaskStatus::Exited(Some(code)) => "Exited("@ + signed_decimal(code as int) + ")"@,
        TaskStatus::Exited(None) => "Exited(?)"@,
        TaskStatus::Killed => "Killed"@,
    }
}

impl TaskStatus {
    /// The status as text (what `Display` showed).
    pub fn to_string(&self) -> (s: String)
        ensures
            s@ == status_text(*self),
    {
        match self {
            TaskStatus::Running => String::from_str("Running"),
            TaskStatus::Exited(Some(code)) => {
                let mut s = String::from_str("Exited(");
                push_signed_decimal(&mut s, *code as i64);
                s.append(")");
                s
            },
            TaskStatus::Exited(None) => String::from_str("Exited(?)"),
            TaskStatus::Killed => String::from_str("Killed"),
        }
    }

    /// Whether the status is `Running`.
    pub fn is_running(&self) -> (r: bool)
        ensures
            r == (*self is Running),
    {
        match self {
            TaskStatus::Running => true,
            _ => false,
        }
    }
}

/// Why the manager refused an operation.
#[derive(Debug, Clone, Copy, PartialEq, Eq)]
pub enum TaskError {
    /// No task has this id.
    NotFound(TaskId),
    /// As many tasks as allowed are running already; holds the limit.
    MaxTasksReached(usize),
}

/// The text of an error.
pub open spec fn task_error_text(e: TaskError) -> Seq<char> {
    match e {
        TaskError::NotFound(id) => "Task "@ + decimal(id as nat) + " not found"@,
        TaskError::MaxTasksReached(max) => "Max concurrent tasks ("@ + decimal(max as nat)
            + ") reached"@,
    }
}

impl TaskError {
    /// The error message.
    pub fn message(&self) -> (s: String)
        ensures
            s@ == task_error_text(*self),
    {
        match self {
            TaskError::NotFound(id) => {
                let mut s = String::from_str("Task ");
                push_decimal(&mut s, *id as u64);
                s.append(" not found");
                s
            },
            TaskError::MaxTasksReached(max) => {
                let mut s = String::from_str("Max concurrent tasks (");
                push_decimal(&mut s, *max as u64);
                s.append(") reached");
                s
            },
        }
    }
}

/// The views of a sequence of strings.
pub open spec fn string_views(v: Seq<String>) -> Seq<Seq<char>> {
    v.map_values(|s: String| s@)
}

// ---------------------------------------------------------------------
// The log ring
// ---------------------------------------------------------------------

/// The lines after appending `line` to a log that keeps at most `cap`
/// lines: the oldest line goes when the log is full. A log of capacity 0
/// still keeps the latest line.
pub open spec fn ring_push(lines: Seq<Seq<char>>, line: Seq<char>, cap: nat) -> Seq<
    Seq<char>,
> {
    if lines.len() >= cap && lines.len() > 0 {
        lines.drop_first().push(line)
    } else {
        lines.push(line)
    }
}

/// The last `n` lines of `lines` (all of them where there are fewer).
pub open spec fn last_lines(lines: Seq<Seq<char>>, n: nat) -> Seq<Seq<char>> {
    if n >= lines.len() {
        lines
    } else {
        lines.skip(lines.len() - n)
    }
}

/// The largest number of lines that a log of capacity `cap` holds.
pub open spec fn ring_bound(cap: nat) -> nat {
    if cap == 0 {
        1
    } else {
        cap
    }
}

/// The most recent lines of a task's output, at most `capacity` of them.
pub struct LogRing {
    lines: VecDeque<String>,
    capacity: usize,
}

impl View for LogRing {
    type V = Seq<Seq<char>>;

    closed spec fn view(&self) -> Seq<Seq<char>> {
        string_views(self.lines@)
    }
}

impl LogRing {
    /// The number of lines the ring keeps.
    pub closed spec fn capacity(&self) -> nat {
        self.capacity as nat
    }

    /// The ring holds no more lines than it may.
    pub open spec fn wf(&self) -> bool {
        self@.len() <= ring_bound(self.capacity())
    }

    /// An empty ring that keeps `capacity` lines.
    pub fn new(capacity: usize) -> (r: Self)
        ensures
            r@ == Seq::<Seq<char>>::empty(),
            r.capacity() == capacity,
            r.wf(),
    {
        let r = LogRing { lines: VecDeque::new(), capacity };
        assert(r@ =~= Seq::<Seq<char>>::empty());
        r
    }

    /// The number of lines held.
    pub fn len(&self) -> (n: usize)
        ensures
            n == self@.len(),
    {
        self.lines.len()
    }

    /// Appends a line, dropping the oldest one when the ring is full.
    pub fn push(&mut self, line: String)
        requires
            old(self).wf(),
        ensures
            final(self)@ == ring_push(old(self)@, line@, old(self).capacity()),
            final(self).capacity() == old(self).capacity(),
            final(self).wf(),
    {
        let ghost old_lines = self.lines@;
        if self.lines.len() >= self.capacity {
            let _ = self.lines.pop_front();
        }
        self.lines.push_back(line);
        proof {
            if old_lines.len() >= self.capacity && old_lines.len() > 0 {
                assert(string_views(self.lines@) =~= string_views(old_lines).drop_first().push(
                    line@,
                ));
            } else {
                assert(string_views(self.lines@) =~= string_views(old_lines).push(line@));
            }
        }
    }

    /// Copies of the last `n` lines, oldest first.
    pub fn last(&self, n: usize) -> (r: Vec<String>)
        ensures
            string_views(r@) == last_lines(self@, n as nat),
    {
        let len = self.lines.len();
        let start: usize = if n >= len {
            0
        } else {
            len - n
        };
        let mut r: Vec<String> = Vec::new();
        let mut i = start;
        while i < len
            invariant
                start <= i <= len,
                len == self.lines@.len(),
                start == (if n >= len {
                    0
                } else {
                    len - n
                }),
                string_views(r@) == string_views(self.lines@).subrange(start as int, i as int),
            decreases len - i,
        {
            let ghost prev = r@;
            let line = self.lines[i].clone();
            assert(line == self.lines@[i as int]);
            r.push(line);
            proof {
                assert(string_views(r@) =~= string_views(prev).push(line@));
                assert(string_views(r@) =~= string_views(self.lines@).subrange(
                    start as int,
                    i + 1,
                ));
            }
            i = i + 1;
        }
        proof {
            if n >= len {
                assert(string_views(self.lines@).subrange(0, len as int) =~= string_views(
                    self.lines@,
                ));
            } else {
                assert(string_views(self.lines@).subrange(start as int, len as int)
                    =~= string_views(self.lines@).skip(len - n));
            }
        }
        r
    }
}

// ---------------------------------------------------------------------
// Tasks and the manager
// ---------------------------------------------------------------------

/// What `list_tasks` reports of one task.
pub struct TaskSummary {
    pub id: TaskId,
    pub command: String,
    pub status: TaskStatus,
    /// Whole seconds since the task started.
    pub elapsed_secs: u64,
}

/// The model of a `TaskSummary`.
pub struct TaskSummaryView {
    pub id: TaskId,
    pub command: Seq<char>,
    pub status: TaskStatus,
    pub elapsed_secs: u64,
}

impl View for TaskSummary {
    type V = TaskSummaryView;

    open spec fn view(&self) -> TaskSummaryView {
        TaskSummaryView {
            id: self.id,
            command: self.command@,
            status: self.status,
            elapsed_secs: self.elapsed_secs,
        }
    }
}

/// A task that the manager keeps.
pub struct ManagedTask {
    pub id: TaskId,
    /// The shell command the task runs.
    pub command: String,
    /// When the task started, in nanoseconds on the caller's monotonic clock.
    pub started_at: u64,
    pub status: TaskStatus,
    /// The latest lines of the task's output.
    pub logs: LogRing,
}

/// The model of a `ManagedTask`.
pub struct TaskView {
    pub id: TaskId,
    pub command: Seq<char>,
    pub started_at: u64,
    pub status: TaskStatus,
    pub logs: Seq<Seq<char>>,
}

impl TaskView {
    /// The same task with another status.
    pub open spec fn with_status(self, s: TaskStatus) -> TaskView {
        TaskView { status: s, ..self }
    }

    /// The same task with another log.
    pub open spec fn with_logs(self, l: Seq<Seq<char>>) -> TaskView {
        TaskView { logs: l, ..self }
    }
}

impl View for ManagedTask {
    type V = TaskView;

    open spec fn view(&self) -> TaskView {
        TaskView {
            id: self.id,
            command: self.command@,
            started_at: self.started_at,
            status: self.status,
            logs: self.logs@,
        }
    }
}

/// The number of running tasks in `tasks`.
pub open spec fn running_count(tasks: Seq<TaskView>) -> nat
    decreases tasks.len(),
{
    if tasks.len() == 0 {
        0
    } else {
        running_count(tasks.drop_last()) + if tasks.last().status is Running {
            1nat
        } else {
            0nat
        }
    }
}

/// Whole seconds from `start` to `now` (nanoseconds), zero where `now`
/// is earlier.
pub open spec fn elapsed_secs(now: u64, start: u64) -> u64 {
    if now >= start {
        ((now - start) / 1_000_000_000) as u64
    } else {
        0
    }
}

/// The summary of `t` at time `now`.
pub open spec fn summary_of(t: TaskView, now: u64) -> TaskSummaryView {
    TaskSummaryView {
        id: t.id,
        command: t.command,
        status: t.status,
        elapsed_secs: elapsed_secs(now, t.started_at),
    }
}

/// The code of the first exit reported for task `id` in `exited`, if any.
pub open spec fn first_exit(exited: Seq<(TaskId, Option<i32>)>, id: TaskId) -> Option<
    Option<i32>,
>
    decreases exited.len(),
{
    if exited.len() == 0 {
        None
    } else {
        match first_exit(exited.drop_last(), id) {
            Some(code) => Some(code),
            None => if exited.last().0 == id {
                Some(exited.last().1)
            } else {
                None
            },
        }
    }
}

/// The status of a task after the exits in `exit` are applied: only a
/// running task changes, to `Exited` with the first code reported for it.
pub open spec fn reaped_status(s: TaskStatus, exit: Option<Option<i32>>) -> TaskStatus {
    match exit {
        Some(code) => if s is Running {
            TaskStatus::Exited(code)
        } else {
            s
        },
        None => s,
    }
}

/// The model of a `TaskManager`.
pub struct TaskManagerView {
    /// All tasks ever started, in the order they started.
    pub tasks: Seq<TaskView>,
    /// The id the next task gets.
    pub next_id: TaskId,
    /// How many tasks may run at once.
    pub max_tasks: usize,
    /// How many lines each task's log keeps.
    pub log_ring_size: usize,
}

impl TaskManagerView {
    /// Tasks are numbered 1, 2, 3, ... in the order they started; no log
    /// holds more lines than it may; no more tasks run than allowed.
    pub open spec fn well_formed(self) -> bool {
        &&& self.next_id as int == self.tasks.len() + 1
        &&& forall|i: int| 0 <= i < self.tasks.len() ==> #[trigger] self.tasks[i].id == i + 1
        &&& forall|i: int|
            0 <= i < self.tasks.len() ==> (#[trigger] self.tasks[i]).logs.len() <= ring_bound(
                self.log_ring_size as nat,
            )
        &&& running_count(self.tasks) <= self.max_tasks
    }

    /// The same manager with another list of tasks.
    pub open spec fn with_tasks(self, tasks: Seq<TaskView>) -> TaskManagerView {
        TaskManagerView { tasks, ..self }
    }

    /// Whether a task with this id exists.
    pub open spec fn has(self, id: TaskId) -> bool {
        1 <= id && id <= self.tasks.len()
    }

    /// The task with this id (where `has(id)`).
    pub open spec fn task(self, id: TaskId) -> TaskView {
        self.tasks[id - 1]
    }
}

/// Keeps the managed tasks: hands out ids, enforces the limit on running
/// tasks, and tracks each task's status and recent output.
pub struct TaskManager {
    tasks: HashMap<TaskId, ManagedTask>,
    next_id: TaskId,
    max_tasks: usize,
    log_ring_size: usize,
}

/// The models of the tasks that `m` keeps under the ids `1 .. next_id`, in
/// order of id.
pub open spec fn tasks_in(m: Map<TaskId, ManagedTask>, next_id: TaskId) -> Seq<TaskView> {
    Seq::new((next_id - 1) as nat, |i: int| m[(i + 1) as TaskId]@)
}

impl View for TaskManager {
    type V = TaskManagerView;

    closed spec fn view(&self) -> TaskManagerView {
        TaskManagerView {
            tasks: tasks_in(self.tasks@, self.next_id),
            next_id: self.next_id,
            max_tasks: self.max_tasks,
            log_ring_size: self.log_ring_size,
        }
    }
}

/// Replacing the task under an existing id replaces it in the model.
proof fn lemma_tasks_in_replace(m: Map<TaskId, ManagedTask>, next_id: TaskId, id: TaskId, t: ManagedTask)
    requires
        1 <= id < next_id,
    ensures
        tasks_in(m.insert(id, t), next_id) == tasks_in(m, next_id).update(id - 1, t@),
{
    let l = tasks_in(m.insert(id, t), next_id);
    let r = tasks_in(m, next_id).update(id - 1, t@);
    assert forall|i: int| 0 <= i < l.len() implies #[trigger] l[i] == r[i] by {
        if i != id - 1 {
            assert((i + 1) as TaskId != id);
        }
    }
    assert(l =~= r);
}

/// Recording a task under the next id appends it to the model.
proof fn lemma_tasks_in_add(m: Map<TaskId, ManagedTask>, next_id: TaskId, t: ManagedTask)
    requires
        1 <= next_id < u32::MAX,
    ensures
        tasks_in(m.insert(next_id, t), (next_id + 1) as TaskId) == tasks_in(m, next_id).push(t@),
{
    let l = tasks_in(m.insert(next_id, t), (next_id + 1) as TaskId);
    let r = tasks_in(m, next_id).push(t@);
    assert forall|i: int| 0 <= i < l.len() implies #[trigger] l[i] == r[i] by {
        if i < next_id - 1 {
            assert((i + 1) as TaskId != next_id);
        }
    }
    assert(l =~= r);
}

proof fn lemma_running_count_update(tasks: Seq<TaskView>, i: int, t: TaskView)
    requires
        0 <= i < tasks.len(),
    ensures
        running_count(tasks.update(i, t)) + (if tasks[i].status is Running {
            1int
        } else {
            0int
        }) == running_count(tasks) + (if t.status is Running {
            1int
        } else {
            0int
        }),
    decreases tasks.len(),
{
    if i == tasks.len() - 1 {
        assert(tasks.update(i, t).drop_last() =~= tasks.drop_last());
    } else {
        lemma_running_count_update(tasks.drop_last(), i, t);
        assert(tasks.update(i, t).drop_last() =~= tasks.drop_last().update(i, t));
    }
}

proof fn lemma_running_count_push(tasks: Seq<TaskView>, t: TaskView)
    ensures
        running_count(tasks.push(t)) == running_count(tasks) + if t.status is Running {
            1nat
        } else {
            0nat
        },
{
    assert(tasks.push(t).drop_last() =~= tasks);
}

impl TaskManager {
    /// The manager's internal consistency: its model is well formed and each
    /// log keeps `log_ring_size` lines.
    pub closed spec fn wf(&self) -> bool {
        &&& self.next_id >= 1
        &&& forall|id: TaskId| #[trigger] self.tasks@.contains_key(id) <==> 1 <= id < self.next_id
        &&& forall|id: TaskId|
            #[trigger] self.tasks@.contains_key(id) ==> self.tasks@[id].id == id
                && self.tasks@[id].logs.capacity() == self.log_ring_size
        &&& self@.well_formed()
    }

    /// The task kept under `id`, read from the map, is the model's.
    proof fn lemma_task_at(&self, id: TaskId)
        requires
            self.wf(),
            1 <= id < self.next_id,
        ensures
            self.tasks@.contains_key(id),
            self@.task(id) == self.tasks@[id]@,
            self@.has(id),
    {
        assert(((id - 1) + 1) as TaskId == id);
    }

    /// A manager with no tasks, allowing `max_tasks` running tasks and
    /// keeping `log_ring_size` lines of each task's output.
    pub fn new(max_tasks: usize, log_ring_size: usize) -> (tm: Self)
        ensures
            tm.wf(),
            tm@.tasks == Seq::<TaskView>::empty(),
            tm@.next_id == 1,
            tm@.max_tasks == max_tasks,
            tm@.log_ring_size == log_ring_size,
    {
        let tm = TaskManager { tasks: HashMap::new(), next_id: 1, max_tasks, log_ring_size };
        assert(tm@.tasks =~= Seq::<TaskView>::empty());
        tm
    }

    /// How many tasks may run at once.
    pub fn max_tasks(&self) -> (n: usize)
        ensures
            n == self@.max_tasks,
    {
        self.max_tasks
    }

    /// How many lines of output each task keeps.
    pub fn log_ring_size(&self) -> (n: usize)
        ensures
            n == self@.log_ring_size,
    {
        self.log_ring_size
    }

    /// The id the next task gets.
    pub fn next_id(&self) -> (id: TaskId)
        ensures
            id == self@.next_id,
    {
        self.next_id
    }

    /// The number of running tasks.
    pub fn running_count(&self) -> (n: usize)
        requires
            self.wf(),
        ensures
            n == running_count(self@.tasks),
    {
        let mut n: usize = 0;
        let mut id: TaskId = 1;
        while id < self.next_id
            invariant
                self.wf(),
                1 <= id <= self.next_id,
                n == running_count(self@.tasks.take(id - 1)),
                n < id,
            decreases self.next_id - id,
        {
            proof {
                self.lemma_task_at(id);
                assert(self@.tasks.take(id as int).drop_last() =~= self@.tasks.take(id - 1));
            }
            match self.tasks.get(&id) {
                Some(t) => {
                    if t.status.is_running() {
                        n = n + 1;
                    }
                },
                None => {},
            }
            id = id + 1;
        }
        assert(self@.tasks.take(id - 1) =~= self@.tasks);
        n
    }

    /// Whether another task may start: refused with `MaxTasksReached` when
    /// `max_tasks` tasks are running.
    pub fn check_capacity(&self) -> (r: Result<(), TaskError>)
        requires
            self.wf(),
        ensures
            r is Ok <==> running_count(self@.tasks) < self@.max_tasks,
            r matches Err(e) ==> e == TaskError::MaxTasksReached(self@.max_tasks),
    {
        if self.running_count() >= self.max_tasks {
            Err(TaskError::MaxTasksReached(self.max_tasks))
        } else {
            Ok(())
        }
    }

    /// Records a new running task for `command`, started at `started_at`
    /// (nanoseconds on the caller's monotonic clock), and returns its id.
    /// Refused, and nothing changes, when `max_tasks` tasks are running.
    pub fn start_task(&mut self, command: &str, started_at: u64) -> (r: Result<TaskId, TaskError>)
        requires
            old(self).wf(),
            running_count(old(self)@.tasks) < old(self)@.max_tasks ==> old(self)@.next_id
                < u32::MAX,
        ensures
            final(self).wf(),
            r is Ok <==> running_count(old(self)@.tasks) < old(self)@.max_tasks,
            match r {
                Ok(id) => {
                    &&& id == old(self)@.next_id
                    &&& final(self)@.tasks == old(self)@.tasks.push(
                        TaskView {
                            id,
                            command: command@,
                            started_at,
                            status: TaskStatus::Running,
                            logs: Seq::empty(),
                        },
                    )
                    &&& final(self)@.next_id == old(self)@.next_id + 1
                    &&& final(self)@.max_tasks == old(self)@.max_tasks
                    &&& final(self)@.log_ring_size == old(self)@.log_ring_size
                },
                Err(e) => {
                    &&& e == TaskError::MaxTasksReached(old(self)@.max_tasks)
                    &&& final(self)@ == old(self)@
                },
            },
    {
        match self.check_capacity() {
            Err(e) => Err(e),
            Ok(()) => {
                let id = self.next_id;
                let task = ManagedTask {
                    id,
                    command: String::from_str(command),
                    started_at,
                    status: TaskStatus::Running,
                    logs: LogRing::new(self.log_ring_size),
                };
                let ghost old_tasks = self@.tasks;
                let ghost old_map = self.tasks@;
                let ghost tv = task;
                self.tasks.insert(id, task);
                self.next_id = self.next_id + 1;
                proof {
                    lemma_tasks_in_add(old_map, id, tv);
                    lemma_running_count_push(old_tasks, tv@);
                }
                Ok(id)
            },
        }
    }

    /// Marks task `id` as killed (whatever its status was). Refused with
    /// `NotFound` when no task has this id.
    pub fn kill_task(&mut self, id: TaskId) -> (r: Result<(), TaskError>)
        requires
            old(self).wf(),
        ensures
            final(self).wf(),
            r is Ok <==> old(self)@.has(id),
            match r {
                Ok(()) => final(self)@ == old(self)@.with_tasks(
                    old(self)@.tasks.update(
                        id - 1,
                        old(self)@.task(id).with_status(TaskStatus::Killed),
                    ),
                ),
                Err(e) => e == TaskError::NotFound(id) && final(self)@ == old(self)@,
            },
    {
        if id == 0 || id >= self.next_id {
            return Err(TaskError::NotFound(id));
        }
        proof {
            self.lemma_task_at(id);
        }
        let ghost old_tasks = self@.tasks;
        let ghost old_map = self.tasks@;
        if let Some(mut t) = self.tasks.remove(&id) {
            t.status = TaskStatus::Killed;
            let ghost tv = t;
            self.tasks.insert(id, t);
            proof {
                assert(self.tasks@ =~= old_map.insert(id, tv));
                lemma_tasks_in_replace(old_map, self.next_id, id, tv);
                lemma_running_count_update(old_tasks, id - 1, tv@);
            }
        }
        Ok(())
    }

    /// Applies reported exits: each `(id, code)` turns task `id`, if it is
    /// running, into `Exited(code)`. Other tasks, and tasks that are not
    /// running, keep their status; ids with no task are ignored.
    pub fn reap_finished(&mut self, exited: &Vec<(TaskId, Option<i32>)>)
        requires
            old(self).wf(),
        ensures
            final(self).wf(),
            final(self)@.next_id == old(self)@.next_id,
            final(self)@.max_tasks == old(self)@.max_tasks,
            final(self)@.log_ring_size == old(self)@.log_ring_size,
            final(self)@.tasks.len() == old(self)@.tasks.len(),
            forall|i: int|
                0 <= i < old(self)@.tasks.len() ==> #[trigger] final(self)@.tasks[i]
                    == old(self)@.tasks[i].with_status(
                    reaped_status(
                        old(self)@.tasks[i].status,
                        first_exit(exited@, old(self)@.tasks[i].id),
                    ),
                ),
    {
        let ghost old_view = self@;
        let mut k: usize = 0;
        while k < exited.len()
            invariant
                self.wf(),
                k <= exited@.len(),
                self@.next_id == old_view.next_id,
                self@.max_tasks == old_view.max_tasks,
                self@.log_ring_size == old_view.log_ring_size,
                self@.tasks.len() == old_view.tasks.len(),
                forall|i: int|
                    0 <= i < old_view.tasks.len() ==> #[trigger] self@.tasks[i]
                        == old_view.tasks[i].with_status(
                        reaped_status(
                            old_view.tasks[i].status,
                            first_exit(exited@.take(k as int), old_view.tasks[i].id),
                        ),
                    ),
            decreases exited@.len() - k,
        {
            let (id, code) = exited[k];
            let ghost before = self@.tasks;
            proof {
                assert(exited@.take(k + 1).drop_last() =~= exited@.take(k as int));
            }
            if id >= 1 && id < self.next_id {
                proof {
                    self.lemma_task_at(id);
                }
                let running = match self.tasks.get(&id) {
                    Some(t) => t.status.is_running(),
                    None => false,
                };
                if running {
                    let ghost old_map = self.tasks@;
                    if let Some(mut t) = self.tasks.remove(&id) {
                        t.status = TaskStatus::Exited(code);
                        let ghost tv = t;
                        self.tasks.insert(id, t);
                        proof {
                            assert(self.tasks@ =~= old_map.insert(id, tv));
                            lemma_tasks_in_replace(old_map, self.next_id, id, tv);
                            lemma_running_count_update(before, id - 1, tv@);
                        }
                    }
                }
            }
            k = k + 1;
        }
        assert(exited@.take(k as int) =~= exited@);
    }

    /// Appends a line of output to the log of task `id` (the oldest line
    /// goes when the log is full). Nothing changes when no task has this id.
    pub fn append_log(&mut self, id: TaskId, line: String)
        requires
            old(self).wf(),
        ensures
            final(self).wf(),
            old(self)@.has(id) ==> final(self)@ == old(self)@.with_tasks(
                old(self)@.tasks.update(
                    id - 1,
                    old(self)@.task(id).with_logs(
                        ring_push(
                            old(self)@.task(id).logs,
                            line@,
                            old(self)@.log_ring_size as nat,
                        ),
                    ),
                ),
            ),
            !old(self)@.has(id) ==> final(self)@ == old(self)@,
    {
        if id == 0 || id >= self.next_id {
            return;
        }
        proof {
            self.lemma_task_at(id);
        }
        let ghost old_tasks = self@.tasks;
        let ghost old_map = self.tasks@;
        if let Some(mut t) = self.tasks.remove(&id) {
            t.logs.push(line);
            let ghost tv = t;
            self.tasks.insert(id, t);
            proof {
                assert(self.tasks@ =~= old_map.insert(id, tv));
                lemma_tasks_in_replace(old_map, self.next_id, id, tv);
                lemma_running_count_update(old_tasks, id - 1, tv@);
            }
        }
    }

    /// The last `n` lines of task `id`'s output, oldest first. Refused with
    /// `NotFound` when no task has this id.
    pub fn get_logs(&self, id: TaskId, n: usize) -> (r: Result<Vec<String>, TaskError>)
        requires
            self.wf(),
        ensures
            r is Ok <==> self@.has(id),
            match r {
                Ok(lines) => string_views(lines@) == last_lines(self@.task(id).logs, n as nat),
                Err(e) => e == TaskError::NotFound(id),
            },
    {
        if id == 0 || id >= self.next_id {
            return Err(TaskError::NotFound(id));
        }
        proof {
            self.lemma_task_at(id);
        }
        match self.tasks.get(&id) {
            Some(t) => Ok(t.logs.last(n)),
            None => Err(TaskError::NotFound(id)),
        }
    }

    /// The status of task `id`, if there is one.
    pub fn status(&self, id: TaskId) -> (r: Option<TaskStatus>)
        requires
            self.wf(),
        ensures
            r == (if self@.has(id) {
                Some(self@.task(id).status)
            } else {
                None::<TaskStatus>
            }),
    {
        if id == 0 || id >= self.next_id {
            return None;
        }
        proof {
            self.lemma_task_at(id);
        }
        match self.tasks.get(&id) {
            Some(t) => Some(t.status),
            None => None,
        }
    }

    /// A summary of every task, in order of id, with the whole seconds each
    /// has run at time `now` (nanoseconds on the caller's monotonic clock).
    pub fn list_tasks(&self, now: u64) -> (r: Vec<TaskSummary>)
        requires
            self.wf(),
        ensures
            r@.len() == self@.tasks.len(),
            forall|i: int|
                0 <= i < r@.len() ==> (#[trigger] r@[i])@ == summary_of(self@.tasks[i], now),
            forall|i: int, j: int| 0 <= i < j < r@.len() ==> r@[i].id < r@[j].id,
    {
        let mut r: Vec<TaskSummary> = Vec::new();
        let mut id: TaskId = 1;
        while id < self.next_id
            invariant
                self.wf(),
                1 <= id <= self.next_id,
                r@.len() == id - 1,
                forall|j: int|
                    0 <= j < id - 1 ==> (#[trigger] r@[j])@ == summary_of(self@.tasks[j], now),
            decreases self.next_id - id,
        {
            proof {
                self.lemma_task_at(id);
            }
            if let Some(t) = self.tasks.get(&id) {
                let elapsed: u64 = if now >= t.started_at {
                    (now - t.started_at) / 1_000_000_000
                } else {
                    0
                };
                r.push(
                    TaskSummary {
                        id: t.id,
                        command: t.command.clone(),
                        status: t.status,
                        elapsed_secs: elapsed,
                    },
                );
            }
            id = id + 1;
        }
        assert forall|a: int, b: int| 0 <= a < b < r@.len() implies r@[a].id < r@[b].id by {
            assert(r@[a]@ == summary_of(self@.tasks[a], now));
            assert(r@[b]@ == summary_of(self@.tasks[b], now));
        }
        r
    }
}

/// The lines held after pushing `lines`, in order, into a log that holds
/// `start` and keeps at most `cap` lines.
pub open spec fn ring_fill(start: Seq<Seq<char>>, lines: Seq<Seq<char>>, cap: nat) -> Seq<
    Seq<char>,
>
    decreases lines.len(),
{
    if lines.len() == 0 {
        start
    } else {
        ring_push(ring_fill(start, lines.drop_last(), cap), lines.last(), cap)
    }
}

/// A task's log holds exactly the latest lines of its output: after any
/// sequence of lines is pushed, in order, into a log of capacity `cap` that
/// held `start` (no more than it may), it holds the last `cap` lines of
/// `start` followed by the new ones (the last one where `cap` is 0), in
/// order, and never more than that many.
pub proof fn lemma_ring_keeps_latest(start: Seq<Seq<char>>, lines: Seq<Seq<char>>, cap: nat)
    requires
        start.len() <= ring_bound(cap),
    ensures
        ring_fill(start, lines, cap) == last_lines(start + lines, ring_bound(cap)),
        ring_fill(start, lines, cap).len() <= ring_bound(cap),
    decreases lines.len(),
{
    let b = ring_bound(cap);
    if lines.len() == 0 {
        assert(start + lines =~= start);
    } else {
        let prev = lines.drop_last();
        let all = start + lines;
        let before = start + prev;
        lemma_ring_keeps_latest(start, prev, cap);
        assert(all =~= before.push(lines.last()));
        if before.len() >= b {
            assert(before.skip(before.len() - b).drop_first().push(lines.last()) =~= all.skip(
                all.len() - b,
            ));
        }
    }
}

/// `get_logs` gives at most `n` lines, and they are the end of the log.
pub proof fn lemma_last_lines_suffix(lines: Seq<Seq<char>>, n: nat)
    ensures
        last_lines(lines, n).len() == if n < lines.len() {
            n
        } else {
            lines.len()
        },
        last_lines(lines, n) == lines.subrange(
            lines.len() - last_lines(lines, n).len(),
            lines.len() as int,
        ),
{
    if n >= lines.len() {
        assert(lines.subrange(0, lines.len() as int) =~= lines);
    } else {
        assert(lines.skip(lines.len() - n) =~= lines.subrange(
            lines.len() - n,
            lines.len() as int,
        ));
    }
}

/// A read after a write: once a line is appended to a task's log, asking
/// for the last `n >= 1` lines ends with that line.
pub proof fn lemma_log_read_after_append(
    lines: Seq<Seq<char>>,
    line: Seq<char>,
    cap: nat,
    n: nat,
)
    requires
        n >= 1,
    ensures
        last_lines(ring_push(lines, line, cap), n).len() >= 1,
        last_lines(ring_push(lines, line, cap), n).last() == line,
{
    let pushed = ring_push(lines, line, cap);
    assert(pushed.last() == line);
    if n < pushed.len() {
        assert(pushed.skip(pushed.len() - n).last() == pushed.last());
    }
}

/// The id that `start_task` hands out finds the task it recorded: after a
/// start from a well-formed manager, the task with that id is the new one.
pub proof fn lemma_started_task_is_found(before: TaskManagerView, after: TaskManagerView, t: TaskView)
    requires
        before.well_formed(),
        t.id == before.next_id,
        after.tasks == before.tasks.push(t),
    ensures
        after.has(t.id),
        after.task(t.id) == t,
        forall|id: TaskId| before.has(id) ==> after.has(id) && after.task(id) == before.task(id),
{
}

/// No more tasks run than the manager allows, whatever has happened.
pub proof fn lemma_running_within_limit(tm: &TaskManager)
    requires
        tm.wf(),
    ensures
        running_count(tm@.tasks) <= tm@.max_tasks,
        tm@.well_formed(),
{
}

/// `list_tasks` reports each task as it is: the summary of the task with
/// id `id` carries that id, the task's command and its current status
/// unchanged (an exit code included), the same status that `status(id)`
/// gives; and a later time never shows less elapsed time.
pub proof fn lemma_summary_is_the_task(tm: TaskManagerView, id: TaskId, now: u64, later: u64)
    requires
        tm.well_formed(),
        tm.has(id),
        now <= later,
    ensures
        summary_of(tm.tasks[id - 1], now).id == id,
        summary_of(tm.tasks[id - 1], now).command == tm.task(id).command,
        summary_of(tm.tasks[id - 1], now).status == tm.task(id).status,
        summary_of(tm.tasks[id - 1], now).elapsed_secs <= summary_of(
            tm.tasks[id - 1],
            later,
        ).elapsed_secs,
{
    let start = tm.task(id).started_at;
    if now >= start {
        assert((now - start) / 1_000_000_000int <= (later - start) / 1_000_000_000int)
            by (nonlinear_arith)
            requires
                now - start <= later - start,
                0 <= now - start,
        ;
    }
}

/// A running task whose exit with code `code` is reported is listed from
/// then on as `Exited(code)`, its code kept.
pub proof fn lemma_reaped_exit_is_listed(t: TaskView, exited: Seq<(TaskId, Option<i32>)>, code: Option<i32>, now: u64)
    requires
        t.status is Running,
        first_exit(exited, t.id) == Some(code),
    ensures
        summary_of(t.with_status(reaped_status(t.status, first_exit(exited, t.id))), now).status
            == TaskStatus::Exited(code),
{
}

} // verus!
