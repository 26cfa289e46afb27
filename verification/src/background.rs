//! Background task bookkeeping: a registry of spawned commands and their
//! observed status. The caller owns the registry and supplies the clock
//! readings; nothing here is process-wide.

use vstd::prelude::*;

verus! {

#[derive(Debug, Clone, Copy, PartialEq, Eq, Structural)]
pub enum TaskStatus {
    Running,
    Completed,
    Failed,
}

/// One registered task.
#[derive(Debug)]
pub struct TaskEntry {
    pub id: String,
    pub command: String,
    pub status: TaskStatus,
    pub started_at_ms: u64,
    pub exit_code: Option<i32>,
}

/// What a status query reports.
#[derive(Debug)]
pub struct TaskInfo {
    pub id: String,
    pub command: String,
    pub status: TaskStatus,
    pub elapsed_secs: u64,
    pub exit_code: Option<i32>,
}

/// The tasks the caller has registered, in registration order.
pub struct TaskRegistry {
    pub tasks: Vec<TaskEntry>,
}

/// The first index holding the task with this id, if any.
pub open spec fn find_task(tasks: Seq<TaskEntry>, id: Seq<char>) -> Option<int>
    decreases tasks,
{
    if tasks.len() == 0 {
        None
    } else if tasks[0].id@ == id {
        Some(0)
    } else {
        match find_task(tasks.drop_first(), id) {
            Some(k) => Some(k + 1),
            None => None,
        }
    }
}

/// Where a task stands in the registry.
pub proof fn lemma_find_task(tasks: Seq<TaskEntry>, id: Seq<char>)
    ensures
        match find_task(tasks, id) {
            Some(k) => 0 <= k < tasks.len() && tasks[k].id@ == id && forall|m: int|
                0 <= m < k ==> (#[trigger] tasks[m]).id@ != id,
            None => forall|m: int| 0 <= m < tasks.len() ==> (#[trigger] tasks[m]).id@ != id,
        },
    decreases tasks,
{
    if tasks.len() > 0 && tasks[0].id@ != id {
        lemma_find_task(tasks.drop_first(), id);
        match find_task(tasks.drop_first(), id) {
            Some(k) => {
                assert forall|m: int| 0 <= m < k + 1 implies (#[trigger] tasks[m]).id@ != id by {
                    if m > 0 {
                        assert(tasks.drop_first()[m - 1] == tasks[m]);
                    }
                }
            },
            None => {
                assert forall|m: int|
                    0 <= m < tasks.len() implies (#[trigger] tasks[m]).id@ != id by {
                    if m > 0 {
                        assert(tasks.drop_first()[m - 1] == tasks[m]);
                    }
                }
            },
        }
    }
}

/// The elapsed whole seconds between a start time and now; zero when the
/// clock reads earlier than the start.
pub open spec fn spec_elapsed_secs(started_at_ms: u64, now_ms: u64) -> int {
    if now_ms >= started_at_ms {
        (now_ms - started_at_ms) / 1000
    } else {
        0int
    }
}

/// The report for one entry at the given clock reading.
pub open spec fn spec_task_info(e: TaskEntry, now_ms: u64) -> (Seq<char>, Seq<char>, TaskStatus, int, Option<i32>) {
    (e.id@, e.command@, e.status, spec_elapsed_secs(e.started_at_ms, now_ms), e.exit_code)
}

/// A task info matches a report tuple.
pub open spec fn info_matches(info: TaskInfo, t: (Seq<char>, Seq<char>, TaskStatus, int, Option<i32>)) -> bool {
    info.id@ == t.0 && info.command@ == t.1 && info.status == t.2 && info.elapsed_secs as int == t.3
        && info.exit_code == t.4
}

fn entry_info(e: &TaskEntry, now_ms: u64) -> (r: TaskInfo)
    ensures
        info_matches(r, spec_task_info(*e, now_ms)),
{
    let elapsed_ms: u64 = if now_ms >= e.started_at_ms {
        now_ms - e.started_at_ms
    } else {
        0
    };
    TaskInfo {
        id: e.id.clone(),
        command: e.command.clone(),
        status: e.status,
        elapsed_secs: elapsed_ms / 1000,
        exit_code: e.exit_code,
    }
}

impl TaskRegistry {
    /// An empty registry.
    pub fn new() -> (r: TaskRegistry)
        ensures
            r.tasks@.len() == 0,
    {
        TaskRegistry { tasks: Vec::new() }
    }

    /// Registers a freshly spawned task as running.
    pub fn register_task(&mut self, id: String, command: String, started_at_ms: u64)
        ensures
            final(self).tasks@.len() == old(self).tasks@.len() + 1,
            final(self).tasks@.drop_last() == old(self).tasks@,
            final(self).tasks@.last().id@ == id@,
            final(self).tasks@.last().command@ == command@,
            final(self).tasks@.last().status == TaskStatus::Running,
            final(self).tasks@.last().started_at_ms == started_at_ms,
            final(self).tasks@.last().exit_code is None,
    {
        let e = TaskEntry {
            id,
            command,
            status: TaskStatus::Running,
            started_at_ms,
            exit_code: None,
        };
        let ghost pre = self.tasks@;
        self.tasks.push(e);
        proof {
            assert(self.tasks@.drop_last() =~= pre);
        }
    }

    /// The report for the task with this id, at the given clock reading.
    pub fn get_task_info(&self, id: &str, now_ms: u64) -> (r: Option<TaskInfo>)
        ensures
            match r {
                Some(info) => find_task(self.tasks@, id@) matches Some(k) && info_matches(
                    info,
                    spec_task_info(self.tasks@[k], now_ms),
                ),
                None => find_task(self.tasks@, id@) is None,
            },
    {
        proof {
            lemma_find_task(self.tasks@, id@);
        }
        let mut i: usize = 0;
        while i < self.tasks.len()
            invariant
                i <= self.tasks@.len(),
                forall|m: int| 0 <= m < i ==> (#[trigger] self.tasks@[m]).id@ != id@,
            decreases self.tasks@.len() - i,
        {
            let e: &TaskEntry = &self.tasks[i];
            if crate::strutil::str_eq(e.id.as_str(), id) {
                proof {
                    lemma_find_task(self.tasks@, id@);
                    match find_task(self.tasks@, id@) {
                        Some(k) => {
                            if k < i {
                                assert(self.tasks@[k].id@ != id@);
                            }
                            if k > i as int {
                                assert(self.tasks@[i as int].id@ != id@);
                            }
                        },
                        None => {
                            assert(self.tasks@[i as int].id@ != id@);
                        },
                    }
                }
                return Some(entry_info(e, now_ms));
            }
            i = i + 1;
        }
        proof {
            lemma_find_task(self.tasks@, id@);
            match find_task(self.tasks@, id@) {
                Some(k) => {
                    assert(self.tasks@[k].id@ != id@);
                },
                None => {},
            }
        }
        None
    }

    /// The reports for every registered task, in registration order.
    pub fn list_tasks(&self, now_ms: u64) -> (r: Vec<TaskInfo>)
        ensures
            r@.len() == self.tasks@.len(),
            forall|m: int|
                0 <= m < r@.len() ==> info_matches(
                    #[trigger] r@[m],
                    spec_task_info(self.tasks@[m], now_ms),
                ),
    {
        let mut r: Vec<TaskInfo> = Vec::new();
        let mut i: usize = 0;
        while i < self.tasks.len()
            invariant
                i <= self.tasks@.len(),
                r@.len() == i,
                forall|m: int|
                    0 <= m < i ==> info_matches(
                        #[trigger] r@[m],
                        spec_task_info(self.tasks@[m], now_ms),
                    ),
            decreases self.tasks@.len() - i,
        {
            let info = entry_info(&self.tasks[i], now_ms);
            r.push(info);
            i = i + 1;
        }
        r
    }

    /// Records a finished task's status and exit code, and forgets its
    /// child handle; unknown ids change nothing.
    pub fn update_task_status(&mut self, id: &str, status: TaskStatus, exit_code: Option<i32>)
        ensures
            final(self).tasks@.len() == old(self).tasks@.len(),
            match find_task(old(self).tasks@, id@) {
                Some(k) => {
                    &&& final(self).tasks@[k].id@ == old(self).tasks@[k].id@
                    &&& final(self).tasks@[k].command@ == old(self).tasks@[k].command@
                    &&& final(self).tasks@[k].started_at_ms == old(self).tasks@[k].started_at_ms
                    &&& final(self).tasks@[k].status == status
                    &&& final(self).tasks@[k].exit_code == exit_code
                    &&& forall|m: int|
                        0 <= m < final(self).tasks@.len() && m != k ==> final(self).tasks@[m]
                            == old(self).tasks@[m]
                },
                None => final(self).tasks@ == old(self).tasks@,
            },
    {
        proof {
            lemma_find_task(self.tasks@, id@);
        }
        let ghost pre = self.tasks@;
        let mut i: usize = 0;
        while i < self.tasks.len()
            invariant
                pre == old(self).tasks@,
                self.tasks@ == pre,
                i <= pre.len(),
                forall|m: int| 0 <= m < i ==> (#[trigger] pre[m]).id@ != id@,
            decreases pre.len() - i,
        {
            if crate::strutil::str_eq(self.tasks[i].id.as_str(), id) {
                proof {
                    lemma_find_task(pre, id@);
                    match find_task(pre, id@) {
                        Some(k) => {
                            if k < i {
                                assert(pre[k].id@ != id@);
                            }
                            if k > i as int {
                                assert(pre[i as int].id@ != id@);
                            }
                        },
                        None => {
                            assert(pre[i as int].id@ != id@);
                        },
                    }
                }
                let old_entry = self.tasks.remove(i);
                let e = TaskEntry {
                    id: old_entry.id,
                    command: old_entry.command,
                    status,
                    started_at_ms: old_entry.started_at_ms,
                    exit_code,
                };
                let ghost ne = e;
                self.tasks.insert(i, e);
                proof {
                    assert(self.tasks@ =~= pre.update(i as int, ne));
                }
                return ;
            }
            i = i + 1;
        }
        proof {
            lemma_find_task(pre, id@);
            match find_task(pre, id@) {
                Some(k) => {
                    assert(pre[k].id@ != id@);
                },
                None => {},
            }
        }
    }

    /// Removes and returns the task with this id.
    pub fn remove_task(&mut self, id: &str) -> (r: Option<TaskEntry>)
        ensures
            match find_task(old(self).tasks@, id@) {
                Some(k) => r matches Some(e) && e == old(self).tasks@[k] && final(self).tasks@
                    == old(self).tasks@.remove(k),
                None => r is None && final(self).tasks@ == old(self).tasks@,
            },
    {
        proof {
            lemma_find_task(self.tasks@, id@);
        }
        let ghost pre = self.tasks@;
        let mut i: usize = 0;
        while i < self.tasks.len()
            invariant
                pre == old(self).tasks@,
                self.tasks@ == pre,
                i <= pre.len(),
                forall|m: int| 0 <= m < i ==> (#[trigger] pre[m]).id@ != id@,
            decreases pre.len() - i,
        {
            if crate::strutil::str_eq(self.tasks[i].id.as_str(), id) {
                proof {
                    lemma_find_task(pre, id@);
                    match find_task(pre, id@) {
                        Some(k) => {
                            if k < i {
                                assert(pre[k].id@ != id@);
                            }
                            if k > i as int {
                                assert(pre[i as int].id@ != id@);
                            }
                        },
                        None => {
                            assert(pre[i as int].id@ != id@);
                        },
                    }
                }
                let e = self.tasks.remove(i);
                return Some(e);
            }
            i = i + 1;
        }
        proof {
            lemma_find_task(pre, id@);
            match find_task(pre, id@) {
                Some(k) => {
                    assert(pre[k].id@ != id@);
                },
                None => {},
            }
        }
        None
    }
}

} // verus!
