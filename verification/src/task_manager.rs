use vstd::prelude::*;

use crate::config::{MAX_APP_NUM, MAX_SYSCALL_NUM};
use crate::task::{TaskControlBlock, TaskStatus};

verus! {

/// The first ready task at or after offset `k` past the current one,
/// scanning the ring of `tasks.len()` slots; the Josephus-ring rule.
pub open spec fn next_ready(tasks: Seq<TaskControlBlock>, current: int, k: int) -> Option<int>
    decreases tasks.len() + 1 - k,
{
    if k < 1 || k > tasks.len() {
        None
    } else {
        let id = (current + k) % (tasks.len() as int);
        if tasks[id].task_status is Ready {
            Some(id)
        } else {
            next_ready(tasks, current, k + 1)
        }
    }
}

/// What the ring scan finds is a ready task, and nothing closer past the
/// current one is ready; finding nothing means no task is ready at all.
pub proof fn lemma_next_ready(tasks: Seq<TaskControlBlock>, current: int, k: int)
    requires
        1 <= k <= tasks.len() + 1,
        0 <= current < tasks.len(),
    ensures
        next_ready(tasks, current, k) matches Some(id) ==> 0 <= id < tasks.len()
            && tasks[id].task_status is Ready,
        next_ready(tasks, current, k) is None ==> forall|k2: int|
            k <= k2 <= tasks.len() ==> !((#[trigger] tasks[(current + k2) % (
            tasks.len() as int)]).task_status is Ready),
    decreases tasks.len() + 1 - k,
{
    if k <= tasks.len() {
        lemma_next_ready(tasks, current, k + 1);
    }
}

/// When no task is ready, every slot of the ring was inspected: no task
/// anywhere is ready.
pub proof fn lemma_no_ready_task(tasks: Seq<TaskControlBlock>, current: int)
    requires
        0 <= current < tasks.len(),
        next_ready(tasks, current, 1) is None,
    ensures
        forall|j: int| 0 <= j < tasks.len() ==> !((#[trigger] tasks[j]).task_status is Ready),
{
    lemma_next_ready(tasks, current, 1);
    assert forall|j: int| 0 <= j < tasks.len() implies !((#[trigger] tasks[j]).task_status
        is Ready) by {
        let n = tasks.len() as int;
        let k = if j > current {
            j - current
        } else {
            j + n - current
        };
        assert(1 <= k <= n);
        assert((current + k) % n == j) by {
            if j > current {
                assert((current + (j - current)) % n == j) by {
                    vstd::arithmetic::div_mod::lemma_small_mod(j as nat, n as nat);
                }
            } else {
                assert((current + (j + n - current)) % n == j) by {
                    vstd::arithmetic::div_mod::lemma_mod_add_multiples_vanish(j, n);
                    vstd::arithmetic::div_mod::lemma_small_mod(j as nat, n as nat);
                }
            }
        }
        assert(!(tasks[(current + k) % n].task_status is Ready));
    }
}

/// Owns the table of task control blocks, tracks which task holds the
/// core, and keeps the stop watch the time accounting runs on.
pub struct TaskManager {
    /// How many tasks exist.
    pub num_app: usize,
    /// Index of the task currently on the core.
    pub current_task: usize,
    /// The reading of the clock when accounting last restarted.
    pub stop_watch: u64,
    /// One control block per task.
    pub tasks: Vec<TaskControlBlock>,
}

impl TaskManager {
    /// The table is consistent: one block per task, the current index in
    /// range, and every counter bank fully sized.
    pub open spec fn sched_wf(&self) -> bool {
        &&& self.tasks@.len() == self.num_app
        &&& self.num_app >= 1
        &&& self.num_app <= MAX_APP_NUM
        &&& self.current_task < self.num_app
    }

    /// Builds the manager over a table of ready tasks; task 0 is current
    /// but nothing runs until the first task is started.
    pub fn new(tasks: Vec<TaskControlBlock>) -> (r: TaskManager)
        requires
            1 <= tasks@.len() <= MAX_APP_NUM,
        ensures
            r.sched_wf(),
            r.tasks == tasks,
            r.current_task == 0,
            r.stop_watch == 0,
            r.num_app == tasks@.len(),
    {
        let num_app = tasks.len();
        TaskManager { num_app, current_task: 0, stop_watch: 0, tasks }
    }

    /// Restarts the stop watch at `now_ms` and returns how many
    /// milliseconds had passed since it last restarted.
    fn refresh_stop_watch(&mut self, now_ms: u64) -> (r: u64)
        requires
            old(self).stop_watch <= now_ms,
        ensures
            r == now_ms - old(self).stop_watch,
            final(self).stop_watch == now_ms,
            final(self).tasks == old(self).tasks,
            final(self).num_app == old(self).num_app,
            final(self).current_task == old(self).current_task,
    {
        let start_time = self.stop_watch;
        self.stop_watch = now_ms;
        now_ms - start_time
    }

    /// Marks the first task running and starts the stop watch; the caller
    /// then switches into it.
    pub fn run_first_task(&mut self, now_ms: u64) -> (r: usize)
        requires
            old(self).sched_wf(),
        ensures
            final(self).sched_wf(),
            r == 0,
            final(self).current_task == old(self).current_task,
            final(self).stop_watch == now_ms,
            final(self).tasks@.len() == old(self).tasks@.len(),
            final(self).tasks@[0] == (TaskControlBlock {
                task_status: TaskStatus::Running,
                ..old(self).tasks@[0]
            }),
            forall|j: int|
                1 <= j < old(self).tasks@.len() ==> final(self).tasks@[j] == old(self).tasks@[j],
    {
        let t = self.tasks.remove(0);
        let t = TaskControlBlock { task_status: TaskStatus::Running, ..t };
        self.tasks.insert(0, t);
        self.stop_watch = now_ms;
        proof {
            assert(self.tasks@ =~= old(self).tasks@.update(0, self.tasks@[0]));
        }
        0
    }

    /// Charges the time since the stop watch restarted to the current
    /// task's kernel time and marks it ready again.
    pub fn mark_current_suspended(&mut self, now_ms: u64)
        requires
            old(self).sched_wf(),
            old(self).stop_watch <= now_ms,
            old(self).tasks@[old(self).current_task as int].kernel_time + (now_ms - old(
                self,
            ).stop_watch) <= u64::MAX,
        ensures
            final(self).sched_wf(),
            final(self).current_task == old(self).current_task,
            final(self).stop_watch == now_ms,
            final(self).tasks@.len() == old(self).tasks@.len(),
            final(self).tasks@[old(self).current_task as int] == (TaskControlBlock {
                task_status: TaskStatus::Ready,
                kernel_time: (old(self).tasks@[old(self).current_task as int].kernel_time + (
                now_ms - old(self).stop_watch)) as u64,
                ..old(self).tasks@[old(self).current_task as int]
            }),
            forall|j: int|
                0 <= j < old(self).tasks@.len() && j != old(self).current_task ==> final(self).tasks@[j] == old(self).tasks@[j],
    {
        let elapsed = self.refresh_stop_watch(now_ms);
        let cur = self.current_task;
        let t = self.tasks.remove(cur);
        let t = TaskControlBlock {
            task_status: TaskStatus::Ready,
            kernel_time: t.kernel_time + elapsed,
            ..t
        };
        self.tasks.insert(cur, t);
        proof {
            assert(self.tasks@ =~= old(self).tasks@.update(cur as int, self.tasks@[cur as int]));
        }
    }

    /// Charges the time since the stop watch restarted to the current
    /// task's kernel time and marks it exited for good; returns the
    /// task's final user and kernel times for reporting.
    pub fn mark_current_exited(&mut self, now_ms: u64) -> (r: (u64, u64))
        requires
            old(self).sched_wf(),
            old(self).stop_watch <= now_ms,
            old(self).tasks@[old(self).current_task as int].kernel_time + (now_ms - old(
                self,
            ).stop_watch) <= u64::MAX,
        ensures
            final(self).sched_wf(),
            final(self).current_task == old(self).current_task,
            final(self).stop_watch == now_ms,
            final(self).tasks@.len() == old(self).tasks@.len(),
            final(self).tasks@[old(self).current_task as int] == (TaskControlBlock {
                task_status: TaskStatus::Exited,
                kernel_time: (old(self).tasks@[old(self).current_task as int].kernel_time + (
                now_ms - old(self).stop_watch)) as u64,
                ..old(self).tasks@[old(self).current_task as int]
            }),
            r.0 == final(self).tasks@[old(self).current_task as int].user_time,
            r.1 == final(self).tasks@[old(self).current_task as int].kernel_time,
            forall|j: int|
                0 <= j < old(self).tasks@.len() && j != old(self).current_task ==> final(self).tasks@[j] == old(self).tasks@[j],
    {
        let elapsed = self.refresh_stop_watch(now_ms);
        let cur = self.current_task;
        let t = self.tasks.remove(cur);
        let t = TaskControlBlock {
            task_status: TaskStatus::Exited,
            kernel_time: t.kernel_time + elapsed,
            ..t
        };
        let user_time = t.user_time;
        let kernel_time = t.kernel_time;
        self.tasks.insert(cur, t);
        proof {
            assert(self.tasks@ =~= old(self).tasks@.update(cur as int, self.tasks@[cur as int]));
        }
        (user_time, kernel_time)
    }

    /// Scans the ring for the first ready task past the current one.
    pub fn find_next_task(&self) -> (r: Option<usize>)
        requires
            self.sched_wf(),
        ensures
            r is Some <==> next_ready(self.tasks@, self.current_task as int, 1) is Some,
            r matches Some(id) ==> Some(id as int) == next_ready(
                self.tasks@,
                self.current_task as int,
                1,
            ) && id < self.num_app && self.tasks@[id as int].task_status is Ready,
    {
        let n = self.num_app;
        let mut k: usize = 1;
        while k <= n
            invariant
                self.sched_wf(),
                n == self.num_app,
                1 <= k <= n + 1,
                next_ready(self.tasks@, self.current_task as int, 1) == next_ready(
                    self.tasks@,
                    self.current_task as int,
                    k as int,
                ),
            decreases n + 1 - k,
        {
            let id = (self.current_task + k) % n;
            if self.tasks[id].task_status == TaskStatus::Ready {
                proof {
                    lemma_next_ready(self.tasks@, self.current_task as int, k as int);
                }
                return Some(id);
            }
            k = k + 1;
        }
        proof {
            lemma_next_ready(self.tasks@, self.current_task as int, (n + 1) as int);
        }
        None
    }

    /// Picks the next ready task of the ring, marks it running, makes it
    /// current, and hands back the pair of task indexes whose contexts the
    /// caller must swap; hands back nothing when no task is ready, in
    /// which case every task has exited and the machine shuts down.
    pub fn run_next_task(&mut self) -> (r: Option<(usize, usize)>)
        requires
            old(self).sched_wf(),
        ensures
            final(self).sched_wf(),
            final(self).stop_watch == old(self).stop_watch,
            r is Some <==> next_ready(old(self).tasks@, old(self).current_task as int, 1) is Some,
            r is None ==> *final(self) == *old(self),
            r matches Some(p) ==> {
                &&& p.0 == old(self).current_task
                &&& Some(p.1 as int) == next_ready(
                    old(self).tasks@,
                    old(self).current_task as int,
                    1,
                )
                &&& final(self).current_task == p.1
                &&& final(self).tasks@.len() == old(self).tasks@.len()
                &&& final(self).tasks@[p.1 as int] == (TaskControlBlock {
                    task_status: TaskStatus::Running,
                    ..old(self).tasks@[p.1 as int]
                })
                &&& old(self).tasks@[p.1 as int].task_status == TaskStatus::Ready
                &&& forall|j: int|
                    0 <= j < old(self).tasks@.len() && j != p.1 ==> final(self).tasks@[j] == old(
                        self,
                    ).tasks@[j]
            },
    {
        match self.find_next_task() {
            None => None,
            Some(next_id) => {
                let current = self.current_task;
                let t = self.tasks.remove(next_id);
                let t = TaskControlBlock { task_status: TaskStatus::Running, ..t };
                self.tasks.insert(next_id, t);
                self.current_task = next_id;
                proof {
                    assert(self.tasks@ =~= old(self).tasks@.update(
                        next_id as int,
                        self.tasks@[next_id as int],
                    ));
                }
                Some((current, next_id))
            },
        }
    }

    /// Charges the time since the stop watch restarted to the current
    /// task's kernel time; user-mode time starts counting now.
    pub fn user_time_start(&mut self, now_ms: u64)
        requires
            old(self).sched_wf(),
            old(self).stop_watch <= now_ms,
            old(self).tasks@[old(self).current_task as int].kernel_time + (now_ms - old(
                self,
            ).stop_watch) <= u64::MAX,
        ensures
            final(self).sched_wf(),
            final(self).current_task == old(self).current_task,
            final(self).stop_watch == now_ms,
            final(self).tasks@.len() == old(self).tasks@.len(),
            final(self).tasks@[old(self).current_task as int] == (TaskControlBlock {
                kernel_time: (old(self).tasks@[old(self).current_task as int].kernel_time + (
                now_ms - old(self).stop_watch)) as u64,
                ..old(self).tasks@[old(self).current_task as int]
            }),
            forall|j: int|
                0 <= j < old(self).tasks@.len() && j != old(self).current_task ==> final(self).tasks@[j] == old(self).tasks@[j],
    {
        let elapsed = self.refresh_stop_watch(now_ms);
        let cur = self.current_task;
        let t = self.tasks.remove(cur);
        let t = TaskControlBlock { kernel_time: t.kernel_time + elapsed, ..t };
        self.tasks.insert(cur, t);
        proof {
            assert(self.tasks@ =~= old(self).tasks@.update(cur as int, self.tasks@[cur as int]));
        }
    }

    /// Charges the time since the stop watch restarted to the current
    /// task's user time; kernel-mode time starts counting now.
    pub fn user_time_end(&mut self, now_ms: u64)
        requires
            old(self).sched_wf(),
            old(self).stop_watch <= now_ms,
            old(self).tasks@[old(self).current_task as int].user_time + (now_ms - old(
                self,
            ).stop_watch) <= u64::MAX,
        ensures
            final(self).sched_wf(),
            final(self).current_task == old(self).current_task,
            final(self).stop_watch == now_ms,
            final(self).tasks@.len() == old(self).tasks@.len(),
            final(self).tasks@[old(self).current_task as int] == (TaskControlBlock {
                user_time: (old(self).tasks@[old(self).current_task as int].user_time + (now_ms
                    - old(self).stop_watch)) as u64,
                ..old(self).tasks@[old(self).current_task as int]
            }),
            forall|j: int|
                0 <= j < old(self).tasks@.len() && j != old(self).current_task ==> final(self).tasks@[j] == old(self).tasks@[j],
    {
        let elapsed = self.refresh_stop_watch(now_ms);
        let cur = self.current_task;
        let t = self.tasks.remove(cur);
        let t = TaskControlBlock { user_time: t.user_time + elapsed, ..t };
        self.tasks.insert(cur, t);
        proof {
            assert(self.tasks@ =~= old(self).tasks@.update(cur as int, self.tasks@[cur as int]));
        }
    }

    /// Bumps the current task's counter for one syscall id.
    pub fn update_syscall_info(&mut self, syscall_id: usize)
        requires
            old(self).sched_wf(),
            syscall_id < MAX_SYSCALL_NUM,
            old(self).tasks@[old(self).current_task as int].syscall_info@.len()
                == MAX_SYSCALL_NUM,
            old(self).tasks@[old(self).current_task as int].syscall_info@[syscall_id as int]
                < u64::MAX,
        ensures
            final(self).sched_wf(),
            final(self).current_task == old(self).current_task,
            final(self).stop_watch == old(self).stop_watch,
            final(self).tasks@.len() == old(self).tasks@.len(),
            final(self).tasks@[old(self).current_task as int].syscall_info@ == old(
                self,
            ).tasks@[old(self).current_task as int].syscall_info@.update(
                syscall_id as int,
                (old(self).tasks@[old(self).current_task as int].syscall_info@[syscall_id as int]
                    + 1) as u64,
            ),
            final(self).tasks@[old(self).current_task as int] == (TaskControlBlock {
                syscall_info: final(self).tasks@[old(self).current_task as int].syscall_info,
                ..old(self).tasks@[old(self).current_task as int]
            }),
            forall|j: int|
                0 <= j < old(self).tasks@.len() && j != old(self).current_task ==> final(self).tasks@[j] == old(self).tasks@[j],
    {
        let cur = self.current_task;
        let mut t = self.tasks.remove(cur);
        let c = t.syscall_info[syscall_id];
        t.syscall_info.set(syscall_id, c + 1);
        self.tasks.insert(cur, t);
        proof {
            assert(self.tasks@ =~= old(self).tasks@.update(cur as int, self.tasks@[cur as int]));
        }
    }

    /// Reads the current task's per-syscall counters.
    pub fn get_syscall_info(&self) -> (r: Vec<u64>)
        requires
            self.sched_wf(),
            self.tasks@[self.current_task as int].syscall_info@.len() == MAX_SYSCALL_NUM,
        ensures
            r@ == self.tasks@[self.current_task as int].syscall_info@,
    {
        let cur = self.current_task;
        let src = &self.tasks[cur].syscall_info;
        let n = src.len();
        let mut r: Vec<u64> = Vec::new();
        let mut i: usize = 0;
        while i < n
            invariant
                n == src@.len(),
                i <= n,
                r@ == src@.subrange(0, i as int),
            decreases n - i,
        {
            let b = src[i];
            r.push(b);
            proof {
                assert(r@ =~= src@.subrange(0, i + 1));
            }
            i = i + 1;
        }
        proof {
            assert(src@.subrange(0, n as int) =~= src@);
        }
        r
    }

    /// The current task's total running time so far, kernel plus user.
    pub fn get_total_time(&self) -> (r: u64)
        requires
            self.sched_wf(),
            self.tasks@[self.current_task as int].kernel_time + self.tasks@[self.current_task as int].user_time
                <= u64::MAX,
        ensures
            r == self.tasks@[self.current_task as int].kernel_time
                + self.tasks@[self.current_task as int].user_time,
    {
        let cur = self.current_task;
        self.tasks[cur].kernel_time + self.tasks[cur].user_time
    }

    /// A voluntary yield or a timer preemption: the current task becomes
    /// ready again and the ring picks the next task.  Because the outgoing
    /// task is itself ready again, some task is always found: the machine
    /// never shuts down on a yield.
    pub fn suspend_current_and_run_next(&mut self, now_ms: u64) -> (r: Option<(usize, usize)>)
        requires
            old(self).sched_wf(),
            old(self).stop_watch <= now_ms,
            old(self).tasks@[old(self).current_task as int].kernel_time + (now_ms - old(
                self,
            ).stop_watch) <= u64::MAX,
        ensures
            final(self).sched_wf(),
            final(self).tasks@.len() == old(self).tasks@.len(),
            r is Some,
            r matches Some(p) ==> p.0 == old(self).current_task && final(self).current_task == p.1
                && p.1 < final(self).tasks@.len() && final(self).tasks@[p.1 as int].task_status
                is Running && final(self).tasks@[p.0 as int].task_status == (if p.1 == p.0 {
                TaskStatus::Running
            } else {
                TaskStatus::Ready
            }) && (forall|j: int|
                0 <= j < old(self).tasks@.len() && j != p.0 && j != p.1 ==> final(self).tasks@[j]
                    == old(self).tasks@[j]),
    {
        self.mark_current_suspended(now_ms);
        let ghost mid = *self;
        let r = self.run_next_task();
        proof {
            if r is None {
                lemma_next_ready(mid.tasks@, mid.current_task as int, 1);
                let n = mid.tasks@.len() as int;
                let cur = mid.current_task as int;
                assert((cur + n) % n == cur) by {
                    vstd::arithmetic::div_mod::lemma_mod_add_multiples_vanish(cur, n);
                    vstd::arithmetic::div_mod::lemma_small_mod(cur as nat, n as nat);
                }
                assert(!(mid.tasks@[(cur + n) % n].task_status is Ready));
                assert(false);
            }
        }
        r
    }

    /// A task termination, by the exit syscall or by a fault: the current
    /// task is marked exited for good and the ring picks the next task;
    /// hands back the pair to switch, or nothing when every task has
    /// finished.
    pub fn exit_current_and_run_next(&mut self, now_ms: u64) -> (r: Option<(usize, usize)>)
        requires
            old(self).sched_wf(),
            old(self).stop_watch <= now_ms,
            old(self).tasks@[old(self).current_task as int].kernel_time + (now_ms - old(
                self,
            ).stop_watch) <= u64::MAX,
        ensures
            final(self).sched_wf(),
            final(self).tasks@.len() == old(self).tasks@.len(),
            final(self).tasks@[old(self).current_task as int].task_status is Exited,
            r is None ==> forall|j: int|
                0 <= j < final(self).tasks@.len() ==> !((#[trigger] final(self).tasks@[j]).task_status
                    is Ready),
            r matches Some(p) ==> p.0 == old(self).current_task && final(self).current_task == p.1
                && p.1 < final(self).tasks@.len() && final(self).tasks@[p.1 as int].task_status
                is Running && p.1 != old(self).current_task && (forall|j: int|
                0 <= j < old(self).tasks@.len() && j != p.0 && j != p.1 ==> final(self).tasks@[j]
                    == old(self).tasks@[j]),
    {
        let _times = self.mark_current_exited(now_ms);
        let r = self.run_next_task();
        proof {
            if r is None {
                lemma_no_ready_task(self.tasks@, self.current_task as int);
            }
        }
        r
    }
}

} // verus!

