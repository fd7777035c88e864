//! What the user does to the tasks of the program, and how they end.
use crate::error::{error_text, DownloadError, ErrorView};
use crate::tasks::{
    artifact_views, error_set, keeps_progress, keeps_settings, lemma_meter_removed, path_set,
    status_set, task_views, untouched, AppState, StateView, TaskControl, TaskSnapshot, TaskStatus,
    TaskView,
};
use crate::text::{
    decimal, is_blank, is_whitespace, push_decimal, same_text, trim,
    trimming_leaves_nothing_of_the_class, views, visible_text_stays, CharClass,
};
use vstd::prelude::*;

verus! {

proof fn lemma_task_removed(tasks: Map<Seq<char>, TaskSnapshot>, id: Seq<char>)
    ensures
        task_views(tasks.remove(id)) == task_views(tasks).remove(id),
{
    assert(task_views(tasks.remove(id)) =~= task_views(tasks).remove(id));
}

proof fn lemma_artifacts_removed(artifacts: Map<Seq<char>, Vec<String>>, id: Seq<char>)
    ensures
        artifact_views(artifacts.remove(id)) == artifact_views(artifacts).remove(id),
{
    assert(artifact_views(artifacts.remove(id)) =~= artifact_views(artifacts).remove(id));
}

/// The program without a task and all that belongs to it.
pub open spec fn without_task(state: StateView, id: Seq<char>) -> StateView {
    StateView {
        tasks: state.tasks.remove(id),
        artifacts: state.artifacts.remove(id),
        meters: state.meters.remove(id),
        ..state
    }
}

/// The program after a task was deleted, or why it cannot be. Only a task that has ended, and is
/// not still winding up, can be deleted.
pub open spec fn deletion(state: StateView, id: Seq<char>) -> Result<StateView, Seq<char>> {
    if state.controls.contains_key(id) {
        Err("任务仍在运行或收尾，请先取消并等待状态刷新。"@)
    } else if !state.tasks.contains_key(id) {
        Err("任务不存在。"@)
    } else if !state.tasks[id].status.ended() {
        Err("只能删除已完成、失败或已取消的任务。"@)
    } else {
        Ok(without_task(state, id))
    }
}

/// The tasks that have ended and are not still winding up.
pub open spec fn finished_ids(state: StateView) -> Set<Seq<char>> {
    Set::new(
        |id: Seq<char>|
            state.tasks.contains_key(id) && state.tasks[id].status.ended()
                && !state.controls.contains_key(id),
    )
}

/// The program without these tasks and all that belongs to them.
pub open spec fn without_tasks(state: StateView, ids: Set<Seq<char>>) -> StateView {
    StateView {
        tasks: state.tasks.remove_keys(ids),
        artifacts: state.artifacts.remove_keys(ids),
        meters: state.meters.remove_keys(ids),
        ..state
    }
}

/// The program with another wish for a running task, and the status that goes with it, or why not.
pub open spec fn control_set(
    state: StateView,
    id: Seq<char>,
    control: TaskControl,
    status: TaskStatus,
    now: u128,
) -> Result<StateView, Seq<char>> {
    if state.controls.contains_key(id) {
        Ok(
            status_set(
                StateView { controls: state.controls.insert(id, control), ..state },
                id,
                status,
                now,
            ),
        )
    } else {
        Err("task is not running"@)
    }
}

/// The program after these tasks were paused or resumed.
pub open spec fn some_set(
    state: StateView,
    ids: Set<Seq<char>>,
    paused: bool,
    status: TaskStatus,
    now: u128,
) -> StateView {
    StateView {
        controls: Map::new(
            |id: Seq<char>| state.controls.contains_key(id),
            |id: Seq<char>|
                if ids.contains(id) {
                    TaskControl { paused, ..state.controls[id] }
                } else {
                    state.controls[id]
                },
        ),
        tasks: Map::new(
            |id: Seq<char>| state.tasks.contains_key(id),
            |id: Seq<char>|
                if ids.contains(id) {
                    TaskView { status, speed_bits: 0, updated_at: now, ..state.tasks[id] }
                } else {
                    state.tasks[id]
                },
        ),
        ..state
    }
}

/// The program after all running tasks were paused or resumed.
pub open spec fn all_set(state: StateView, paused: bool, status: TaskStatus, now: u128) -> StateView {
    some_set(state, state.controls.dom(), paused, status, now)
}

/// The files that a task has left behind so far.
pub open spec fn artifacts_of(state: StateView, id: Seq<char>) -> Set<Seq<char>> {
    if state.artifacts.contains_key(id) {
        state.artifacts[id]
    } else {
        Set::empty()
    }
}

/// Whether snapshots are in the order in which their tasks were made.
pub open spec fn by_age(tasks: Seq<TaskSnapshot>) -> bool {
    forall|i: int, j: int|
        0 <= i < j < tasks.len() ==> (#[trigger] tasks[i]).created_at <= (
        #[trigger] tasks[j]).created_at
}

/// The snapshots in mathematical form.
pub open spec fn snapshot_views(tasks: Seq<TaskSnapshot>) -> Seq<TaskView> {
    Seq::new(tasks.len(), |i: int| tasks[i]@)
}

/// Whether a list holds every task of the program once, the oldest first.
pub open spec fn lists_tasks(list: Seq<TaskView>, state: StateView) -> bool {
    &&& forall|i: int, j: int|
        0 <= i < j < list.len() ==> (#[trigger] list[i]).created_at <= (
        #[trigger] list[j]).created_at && list[i].id != list[j].id
    &&& forall|i: int|
        0 <= i < list.len() ==> state.tasks.contains_key((#[trigger] list[i]).id)
            && state.tasks[list[i].id] == list[i]
    &&& forall|id: Seq<char>| #[trigger]
        state.tasks.contains_key(id) ==> exists|i: int|
            0 <= i < list.len() && (#[trigger] list[i]).id == id
}

/// Puts a snapshot behind all of tasks that are not younger.
fn insert_by_age(list: &mut Vec<TaskSnapshot>, task: TaskSnapshot) -> (at: usize)
    requires
        by_age(old(list)@),
    ensures
        by_age(final(list)@),
        at <= old(list)@.len(),
        final(list)@ == old(list)@.insert(at as int, task),
{
    let mut at: usize = list.len();
    while at > 0 && list[at - 1].created_at > task.created_at
        invariant
            at <= list@.len(),
            by_age(list@),
            forall|i: int|
                at <= i < list@.len() ==> (#[trigger] list@[i]).created_at > task.created_at,
        decreases at,
    {
        at = at - 1;
    }
    let ghost before = list@;
    list.insert(at, task);
    assert forall|i: int, j: int| 0 <= i < j < list@.len() implies (#[trigger] list@[i]).created_at
        <= (#[trigger] list@[j]).created_at by {
        let a = if i < at {
            i
        } else {
            i - 1
        };
        let b = if j < at {
            j
        } else {
            j - 1
        };
        if i != at {
            assert(list@[i] == before[a]);
        }
        if j != at {
            assert(list@[j] == before[b]);
        }
        if j == at && i < at - 1 {
            assert(before[i].created_at <= before[at - 1].created_at);
        }
    }
    at
}

/// Whether `list` holds the items of `all` in another order: item `i` of the list was item
/// `from[i]`, and item `k` has become item `to[k]`.
spec fn is_shuffled(
    list: Seq<TaskView>,
    all: Seq<TaskView>,
    from: Seq<int>,
    to: Seq<int>,
) -> bool {
    &&& list.len() == all.len() == from.len() == to.len()
    &&& forall|i: int|
        0 <= i < list.len() ==> 0 <= #[trigger] from[i] < all.len() && list[i] == all[from[i]]
            && to[from[i]] == i
    &&& forall|k: int|
        0 <= k < all.len() ==> 0 <= #[trigger] to[k] < all.len() && from[to[k]] == k
}

/// Where items have gone once another was put in front of item `at`, and then that other.
spec fn moved(to: Seq<int>, at: int) -> Seq<int> {
    Seq::new(
        to.len() + 1,
        |k: int|
            if k == to.len() {
                at
            } else if to[k] < at {
                to[k]
            } else {
                to[k] + 1
            },
    )
}

proof fn lemma_shuffled_insert(
    list: Seq<TaskView>,
    all: Seq<TaskView>,
    from: Seq<int>,
    to: Seq<int>,
    at: int,
    task: TaskView,
)
    requires
        is_shuffled(list, all, from, to),
        0 <= at <= list.len(),
    ensures
        is_shuffled(
            list.insert(at, task),
            all.push(task),
            from.insert(at, all.len() as int),
            moved(to, at),
        ),
{
    let list2 = list.insert(at, task);
    let all2 = all.push(task);
    let from2 = from.insert(at, all.len() as int);
    let to2 = moved(to, at);
    assert forall|i: int| 0 <= i < list2.len() implies 0 <= #[trigger] from2[i] < all2.len()
        && list2[i] == all2[from2[i]] && to2[from2[i]] == i by {
        if i < at {
            assert(from2[i] == from[i]);
        } else if i > at {
            assert(from2[i] == from[i - 1]);
        }
    }
    assert forall|k: int| 0 <= k < all2.len() implies 0 <= #[trigger] to2[k] < all2.len()
        && from2[to2[k]] == k by {
        if k < all.len() {
            assert(from[to[k]] == k);
        }
    }
}

impl AppState {
    /// All tasks, the oldest first.
    pub fn sorted_tasks(&self) -> (list: Vec<TaskSnapshot>)
        requires
            self.wf(),
        ensures
            lists_tasks(snapshot_views(list@), self@),
    {
        let mut list: Vec<TaskSnapshot> = Vec::new();
        let ghost all = Seq::new(self.tasks.entries@.len(), |k: int| self.tasks.entries@[k].1@);
        let ghost mut from: Seq<int> = Seq::empty();
        let ghost mut to: Seq<int> = Seq::empty();
        let mut n: usize = 0;
        assert(is_shuffled(snapshot_views(list@), all.take(0), from, to));
        while n < self.tasks.entries.len()
            invariant
                self.wf(),
                all == Seq::new(self.tasks.entries@.len(), |k: int| self.tasks.entries@[k].1@),
                n <= all.len(),
                by_age(list@),
                is_shuffled(snapshot_views(list@), all.take(n as int), from, to),
            decreases all.len() - n,
        {
            let task = self.tasks.entries[n].1.copy();
            let ghost new = task@;
            let ghost before = snapshot_views(list@);
            let at = insert_by_age(&mut list, task);
            proof {
                assert(snapshot_views(list@) == before.insert(at as int, new));
                assert(all.take(n + 1) == all.take(n as int).push(new));
                lemma_shuffled_insert(before, all.take(n as int), from, to, at as int, new);
                to = moved(to, at as int);
                from = from.insert(at as int, n as int);
            }
            n = n + 1;
        }
        proof {
            assert(all.take(all.len() as int) == all);
            self.lemma_shuffled_lists_tasks(list@, all, from, to);
        }
        list
    }

    /// A shuffled list of all entries, the oldest first, lists every task once.
    proof fn lemma_shuffled_lists_tasks(
        self,
        list: Seq<TaskSnapshot>,
        all: Seq<TaskView>,
        from: Seq<int>,
        to: Seq<int>,
    )
        requires
            self.wf(),
            by_age(list),
            all == Seq::new(self.tasks.entries@.len(), |k: int| self.tasks.entries@[k].1@),
            is_shuffled(snapshot_views(list), all, from, to),
        ensures
            lists_tasks(snapshot_views(list), self@),
    {
        let shown = snapshot_views(list);
        assert forall|i: int| 0 <= i < shown.len() implies self@.tasks.contains_key(
            (#[trigger] shown[i]).id,
        ) && self@.tasks[shown[i].id] == shown[i] && self.tasks.entries@[from[i]].0@
            == shown[i].id by {
            self.tasks.lemma_entry(from[i]);
            assert(all[from[i]] == self.tasks.entries@[from[i]].1@);
        }
        assert forall|i: int, j: int| 0 <= i < j < shown.len() implies (
        #[trigger] shown[i]).created_at <= (#[trigger] shown[j]).created_at && shown[i].id
            != shown[j].id by {
            assert(list[i].created_at <= list[j].created_at);
            assert(to[from[i]] == i && to[from[j]] == j);
            if shown[i].id == shown[j].id {
                assert(self.tasks.entries@[from[i]].0@ == self.tasks.entries@[from[j]].0@);
            }
        }
        assert forall|id: Seq<char>| #[trigger] self@.tasks.contains_key(id) implies exists|i: int|
            0 <= i < shown.len() && (#[trigger] shown[i]).id == id by {
            self.tasks.lemma_key(id);
            let k = self.tasks.index_of(id);
            assert(all[k] == self.tasks.entries@[k].1@);
            assert(shown[to[k]] == all[from[to[k]]]);
            assert(shown[to[k]].id == id);
        }
    }

    /// A task as it stands now.
    pub fn task_snapshot(&self, id: &str) -> (task: Option<TaskSnapshot>)
        requires
            self.wf(),
        ensures
            match task {
                Some(found) => self@.tasks.contains_key(id@) && self@.tasks[id@] == found@,
                None => !self@.tasks.contains_key(id@),
            },
    {
        match self.tasks.get(id) {
            Some(task) => Some(task.copy()),
            None => None,
        }
    }

    /// Deletes a task that has ended.
    pub fn delete_finished_task(&mut self, id: &str) -> (deleted: Result<TaskSnapshot, String>)
        requires
            old(self).wf(),
        ensures
            final(self).wf(),
            match deleted {
                Ok(task) => deletion(old(self)@, id@) == Ok::<StateView, Seq<char>>(final(self)@)
                    && task@ == old(self)@.tasks[id@],
                Err(text) => deletion(old(self)@, id@) == Err::<StateView, Seq<char>>(text@)
                    && *final(self) == *old(self),
            },
    {
        if self.controls.contains(id) {
            return Err("任务仍在运行或收尾，请先取消并等待状态刷新。".to_string());
        }
        match self.tasks.get(id) {
            None => {
                return Err("任务不存在。".to_string());
            },
            Some(task) => {
                if !task.status.is_terminal() {
                    return Err("只能删除已完成、失败或已取消的任务。".to_string());
                }
            },
        }
        proof {
            lemma_task_removed(self.tasks@, id@);
            lemma_artifacts_removed(self.artifacts@, id@);
            lemma_meter_removed(self.speed_meters@, id@);
        }
        let removed = self.tasks.remove(id);
        self.speed_meters.remove(id);
        self.artifacts.remove(id);
        match removed {
            Some(task) => Ok(task),
            None => Err("任务不存在。".to_string()),
        }
    }

    /// Deletes all tasks that have ended. Returns how many there were.
    pub fn clear_finished_tasks(&mut self) -> (count: usize)
        requires
            old(self).wf(),
        ensures
            final(self).wf(),
            final(self)@ == without_tasks(old(self)@, finished_ids(old(self)@)),
            finished_ids(old(self)@).finite(),
            count == finished_ids(old(self)@).len(),
    {
        let ids = self.collect_finished();
        let ghost all = views(ids@);
        let ghost before = self@;
        assert(without_tasks(before, all.take(0).to_set()) =~= before) by {
            assert(all.take(0).to_set() =~= Set::<Seq<char>>::empty());
            assert(before.tasks.remove_keys(Set::empty()) =~= before.tasks);
            assert(before.artifacts.remove_keys(Set::empty()) =~= before.artifacts);
            assert(before.meters.remove_keys(Set::empty()) =~= before.meters);
        }
        let mut i: usize = 0;
        while i < ids.len()
            invariant
                self.wf(),
                all == views(ids@),
                i <= ids@.len(),
                self@ == without_tasks(before, all.take(i as int).to_set()),
            decreases ids@.len() - i,
        {
            let id = &ids[i];
            proof {
                lemma_task_removed(self.tasks@, id@);
                lemma_artifacts_removed(self.artifacts@, id@);
                lemma_meter_removed(self.speed_meters@, id@);
                lemma_next_id(all, i as int);
                let done = all.take(i as int).to_set();
                assert(before.tasks.remove_keys(done).remove(id@) =~= before.tasks.remove_keys(
                    done.insert(id@),
                ));
                assert(before.artifacts.remove_keys(done).remove(id@)
                    =~= before.artifacts.remove_keys(done.insert(id@)));
                assert(before.meters.remove_keys(done).remove(id@) =~= before.meters.remove_keys(
                    done.insert(id@),
                ));
            }
            self.tasks.remove(id);
            self.speed_meters.remove(id);
            self.artifacts.remove(id);
            i = i + 1;
        }
        assert(all.take(all.len() as int) == all);
        proof {
            all.unique_seq_to_set();
        }
        ids.len()
    }

    /// The identifiers of the tasks that have ended and are not still winding up.
    fn collect_finished(&self) -> (ids: Vec<String>)
        requires
            self.wf(),
        ensures
            views(ids@).no_duplicates(),
            views(ids@).to_set() == finished_ids(self@),
    {
        let mut ids: Vec<String> = Vec::new();
        let ghost entries = self.tasks.entries@;
        let mut n: usize = 0;
        while n < self.tasks.entries.len()
            invariant
                self.wf(),
                entries == self.tasks.entries@,
                n <= entries.len(),
                forall|i: int|
                    0 <= i < ids@.len() ==> finished_ids(self@).contains(#[trigger] ids@[i]@) && (
                    exists|k: int| 0 <= k < n && ids@[i]@ == (#[trigger] entries[k]).0@),
                forall|i: int, j: int|
                    0 <= i < j < ids@.len() ==> #[trigger] ids@[i]@ != #[trigger] ids@[j]@,
                forall|k: int|
                    0 <= k < n && finished_ids(self@).contains((#[trigger] entries[k]).0@)
                        ==> exists|i: int|
                        0 <= i < ids@.len() && #[trigger] ids@[i]@ == entries[k].0@,
            decreases entries.len() - n,
        {
            let id = &self.tasks.entries[n].0;
            let ghost key = id@;
            proof {
                self.tasks.lemma_entry(n as int);
                assert(self@.tasks[key] == entries[n as int].1@);
            }
            let ended = self.tasks.entries[n].1.status.is_terminal();
            let ghost before = ids@;
            if ended && !self.controls.contains(id) {
                proof {
                    assert(finished_ids(self@).contains(key));
                    assert forall|i: int| 0 <= i < ids@.len() implies #[trigger] ids@[i]@
                        != key by {
                        let k = choose|k: int|
                            0 <= k < n && ids@[i]@ == (#[trigger] entries[k]).0@;
                        if ids@[i]@ == key {
                            assert(self.tasks.entries@[k].0@ == self.tasks.entries@[n as int].0@);
                        }
                    }
                }
                ids.push(id.clone());
                assert(ids@[before.len() as int]@ == key);
            }
            n = n + 1;
            proof {
                assert forall|i: int| 0 <= i < ids@.len() implies finished_ids(self@).contains(
                    #[trigger] ids@[i]@,
                ) && (exists|k: int| 0 <= k < n && ids@[i]@ == (#[trigger] entries[k]).0@) by {
                    if i < before.len() {
                        assert(ids@[i]@ == before[i]@);
                    } else {
                        assert(entries[n - 1].0@ == key);
                    }
                }
                assert forall|k: int|
                    0 <= k < n && finished_ids(self@).contains(
                        (#[trigger] entries[k]).0@,
                    ) implies exists|i: int|
                    0 <= i < ids@.len() && #[trigger] ids@[i]@ == entries[k].0@ by {
                    if k < n - 1 {
                        let i = choose|i: int|
                            0 <= i < before.len() && #[trigger] before[i]@ == entries[k].0@;
                        assert(ids@[i]@ == before[i]@);
                    }
                }
            }
        }
        proof {
            let found = views(ids@);
            assert(found.no_duplicates()) by {
                assert forall|i: int, j: int|
                    0 <= i < found.len() && 0 <= j < found.len() && i != j implies found[i]
                    != found[j] by {
                    if i < j {
                        assert(ids@[i]@ != ids@[j]@);
                    } else {
                        assert(ids@[j]@ != ids@[i]@);
                    }
                }
            }
            assert forall|id: Seq<char>| found.to_set().contains(id) == finished_ids(
                self@,
            ).contains(id) by {
                if found.contains(id) {
                    let i = choose|i: int| 0 <= i < found.len() && found[i] == id;
                    assert(ids@[i]@ == id);
                }
                if finished_ids(self@).contains(id) {
                    self.tasks.lemma_key(id);
                    let k = self.tasks.index_of(id);
                    assert(entries[k].0@ == id);
                    let i = choose|i: int| 0 <= i < ids@.len() && #[trigger] ids@[i]@ == id;
                    assert(found[i] == id);
                }
            }
            assert(found.to_set() =~= finished_ids(self@));
        }
        ids
    }

    /// What the user wants of a running task.
    pub fn get_control(&self, id: &str) -> (control: Result<TaskControl, String>)
        requires
            self.wf(),
        ensures
            match control {
                Ok(found) => self@.controls.contains_key(id@) && self@.controls[id@] == found,
                Err(text) => !self@.controls.contains_key(id@) && text@ == "task is not running"@,
            },
    {
        match self.controls.get(id) {
            Some(control) => Ok(*control),
            None => Err("task is not running".to_string()),
        }
    }

    /// Changes what the user wants of a running task, and its status with it.
    fn set_control(&mut self, id: &str, control: TaskControl, status: TaskStatus, now: u128)
        requires
            old(self).wf(),
            old(self)@.controls.contains_key(id@),
        ensures
            final(self).wf(),
            control_set(old(self)@, id@, control, status, now) == Ok::<StateView, Seq<char>>(
                final(self)@,
            ),
    {
        self.controls.insert(id.to_string(), control);
        self.set_status(id, status, now);
    }

    /// Cancels a running task.
    pub fn cancel_download(&mut self, id: &str, now: u128) -> (done: Result<(), String>)
        requires
            old(self).wf(),
        ensures
            final(self).wf(),
            match done {
                Ok(()) => control_set(
                    old(self)@,
                    id@,
                    TaskControl { cancelled: true, paused: false },
                    TaskStatus::Cancelled,
                    now,
                ) == Ok::<StateView, Seq<char>>(final(self)@),
                Err(text) => !old(self)@.controls.contains_key(id@) && text@
                    == "task is not running"@ && *final(self) == *old(self),
            },
    {
        let mut control = match self.get_control(id) {
            Ok(found) => found,
            Err(text) => return Err(text),
        };
        control.cancel();
        self.set_control(id, control, TaskStatus::Cancelled, now);
        Ok(())
    }

    /// Pauses a running task.
    pub fn pause_download(&mut self, id: &str, now: u128) -> (done: Result<(), String>)
        requires
            old(self).wf(),
        ensures
            final(self).wf(),
            match done {
                Ok(()) => control_set(
                    old(self)@,
                    id@,
                    TaskControl { paused: true, ..old(self)@.controls[id@] },
                    TaskStatus::Paused,
                    now,
                ) == Ok::<StateView, Seq<char>>(final(self)@),
                Err(text) => !old(self)@.controls.contains_key(id@) && text@
                    == "task is not running"@ && *final(self) == *old(self),
            },
    {
        let mut control = match self.get_control(id) {
            Ok(found) => found,
            Err(text) => return Err(text),
        };
        control.pause();
        self.set_control(id, control, TaskStatus::Paused, now);
        Ok(())
    }

    /// Lets a paused task go on.
    pub fn resume_download(&mut self, id: &str, now: u128) -> (done: Result<(), String>)
        requires
            old(self).wf(),
        ensures
            final(self).wf(),
            match done {
                Ok(()) => control_set(
                    old(self)@,
                    id@,
                    TaskControl { paused: false, ..old(self)@.controls[id@] },
                    TaskStatus::Queued,
                    now,
                ) == Ok::<StateView, Seq<char>>(final(self)@),
                Err(text) => !old(self)@.controls.contains_key(id@) && text@
                    == "task is not running"@ && *final(self) == *old(self),
            },
    {
        let mut control = match self.get_control(id) {
            Ok(found) => found,
            Err(text) => return Err(text),
        };
        control.resume();
        self.set_control(id, control, TaskStatus::Queued, now);
        Ok(())
    }
}

/// The identifiers up to and with identifier `i`.
proof fn lemma_next_id(ids: Seq<Seq<char>>, i: int)
    requires
        0 <= i < ids.len(),
    ensures
        ids.take(i + 1).to_set() == ids.take(i).to_set().insert(ids[i]),
{
    let before = ids.take(i);
    let after = ids.take(i + 1);
    assert forall|id: Seq<char>| after.to_set().contains(id) == before.to_set().insert(
        ids[i],
    ).contains(id) by {
        if before.to_set().contains(id) {
            let j = choose|j: int| 0 <= j < before.len() && before[j] == id;
            assert(after[j] == id);
        }
        if id == ids[i] {
            assert(after[i] == id);
        }
        if after.to_set().contains(id) && id != ids[i] {
            let j = choose|j: int| 0 <= j < after.len() && after[j] == id;
            assert(before[j] == id);
        }
    }
    assert(after.to_set() =~= before.to_set().insert(ids[i]));
}

/// One task more that was paused or resumed.
proof fn lemma_one_more_set(
    state: StateView,
    ids: Set<Seq<char>>,
    id: Seq<char>,
    paused: bool,
    status: TaskStatus,
    now: u128,
)
    requires
        state.controls.contains_key(id),
        !ids.contains(id),
        status == TaskStatus::Paused || status == TaskStatus::Queued,
    ensures
        ({
            let before = some_set(state, ids, paused, status, now);
            before.controls.contains_key(id) && control_set(
                before,
                id,
                TaskControl { paused, ..before.controls[id] },
                status,
                now,
            ) == Ok::<StateView, Seq<char>>(
                some_set(state, ids.insert(id), paused, status, now),
            )
        }),
{
    let before = some_set(state, ids, paused, status, now);
    let after = some_set(state, ids.insert(id), paused, status, now);
    let control = TaskControl { paused, ..before.controls[id] };
    let controlled = StateView { controls: before.controls.insert(id, control), ..before };
    let changed = status_set(controlled, id, status, now);
    assert(changed.controls =~= after.controls);
    assert(changed.tasks =~= after.tasks);
}

/// The program after a task's control was taken away.
pub open spec fn without_control(state: StateView, id: Seq<char>) -> StateView {
    StateView { controls: state.controls.remove(id), ..state }
}

/// The program after the files that a task has left behind were forgotten.
pub open spec fn without_artifacts(state: StateView, id: Seq<char>) -> StateView {
    StateView { artifacts: state.artifacts.remove(id), ..state }
}

/// What a cancelled task says of itself.
pub open spec fn cancel_text(removed: nat) -> Seq<char> {
    if removed == 0 {
        "已取消"@
    } else {
        "已取消，已清理 "@ + decimal(removed) + " 个临时文件"@
    }
}

/// The program after a task has come to an end, with the number of its files that were removed.
pub open spec fn task_finished(
    state: StateView,
    id: Seq<char>,
    outcome: Result<(), ErrorView>,
    removed: nat,
    now: u128,
) -> StateView {
    without_control(
        match outcome {
            Ok(_) => without_artifacts(status_set(state, id, TaskStatus::Completed, now), id),
            Err(ErrorView::Cancelled) => error_set(
                without_artifacts(state, id),
                id,
                TaskStatus::Cancelled,
                cancel_text(removed),
                now,
            ),
            Err(error) => error_set(state, id, TaskStatus::Failed, error_text(error), now),
        },
        id,
    )
}

/// What a cancelled task says of itself.
pub fn cancel_message(removed: usize) -> (text: String)
    ensures
        text@ == cancel_text(removed as nat),
{
    if removed == 0 {
        return "已取消".to_string();
    }
    let mut text = "已取消，已清理 ".to_string();
    push_decimal(&mut text, removed as u128);
    text.append(" 个临时文件");
    text
}

/// Which files are to be removed when a task is cancelled.
pub enum Cleanup {
    /// These files.
    Listed(Vec<String>),
    /// The incomplete file and the manifest beside this path.
    Beside(String),
    /// None.
    Nothing,
}

/// Whether these are the files that a cancelled task leaves behind: those that are listed for it,
/// or else those beside its output.
pub open spec fn is_cleanup(cleanup: Cleanup, state: StateView, id: Seq<char>) -> bool {
    match cleanup {
        Cleanup::Listed(paths) => artifacts_of(state, id) != Set::<Seq<char>>::empty() && path_set(
            paths@,
        ) == artifacts_of(state, id) && views(paths@).no_duplicates(),
        Cleanup::Beside(path) => artifacts_of(state, id) == Set::<Seq<char>>::empty()
            && state.tasks.contains_key(id) && path@ == state.tasks[id].output_path,
        Cleanup::Nothing => artifacts_of(state, id) == Set::<Seq<char>>::empty()
            && !state.tasks.contains_key(id),
    }
}

/// How a task has ended, in mathematical form.
pub open spec fn ended_view(outcome: Result<(), DownloadError>) -> Result<(), ErrorView> {
    match outcome {
        Ok(done) => Ok(done),
        Err(error) => Err(error@),
    }
}

/// Whether a list holds this path.
fn has_path(paths: &Vec<String>, path: &str) -> (found: bool)
    ensures
        found == path_set(paths@).contains(path@),
{
    let ghost all = views(paths@);
    let mut i: usize = 0;
    while i < paths.len()
        invariant
            all == views(paths@),
            i <= paths@.len(),
            forall|j: int| 0 <= j < i ==> all[j] != path@,
        decreases paths@.len() - i,
    {
        if same_text(&paths[i], path) {
            assert(all[i as int] == path@);
            return true;
        }
        i = i + 1;
    }
    false
}

/// Adds those of `more` to a list that it does not hold yet.
fn add_paths(paths: &mut Vec<String>, more: &Vec<String>)
    requires
        views(old(paths)@).no_duplicates(),
    ensures
        views(final(paths)@).no_duplicates(),
        path_set(final(paths)@) == path_set(old(paths)@).union(path_set(more@)),
{
    let ghost start = path_set(paths@);
    let ghost all = views(more@);
    let mut i: usize = 0;
    assert(start.union(all.take(0).to_set()) =~= start);
    while i < more.len()
        invariant
            all == views(more@),
            i <= more@.len(),
            views(paths@).no_duplicates(),
            path_set(paths@) == start.union(all.take(i as int).to_set()),
        decreases more@.len() - i,
    {
        let ghost before = views(paths@);
        proof {
            lemma_next_id(all, i as int);
        }
        if !has_path(paths, &more[i]) {
            paths.push(more[i].clone());
            proof {
                let after = views(paths@);
                assert(after == before.push(all[i as int]));
                lemma_next_id(after, before.len() as int);
                assert(after.take(before.len() as int) == before);
                assert(after.take(before.len() as int + 1) == after);
                assert(after.no_duplicates()) by {
                    assert forall|a: int, b: int|
                        0 <= a < after.len() && 0 <= b < after.len() && a != b implies after[a]
                        != after[b] by {
                        if a < before.len() && b < before.len() {
                            assert(before[a] != before[b]);
                        } else if a < before.len() {
                            assert(before.to_set().contains(before[a]));
                        } else {
                            assert(before.to_set().contains(before[b]));
                        }
                    }
                }
            }
        }
        proof {
            assert(path_set(paths@) =~= start.union(all.take(i + 1).to_set()));
        }
        i = i + 1;
    }
    assert(all.take(all.len() as int) == all);
}

proof fn lemma_artifacts_inserted(
    artifacts: Map<Seq<char>, Vec<String>>,
    id: Seq<char>,
    paths: Vec<String>,
)
    ensures
        artifact_views(artifacts.insert(id, paths)) == artifact_views(artifacts).insert(
            id,
            path_set(paths@),
        ),
{
    assert(artifact_views(artifacts.insert(id, paths)) =~= artifact_views(artifacts).insert(
        id,
        path_set(paths@),
    ));
}

impl AppState {
    /// Pauses or resumes all running tasks.
    fn set_all(&mut self, paused: bool, status: TaskStatus, now: u128)
        requires
            old(self).wf(),
            status == TaskStatus::Paused || status == TaskStatus::Queued,
        ensures
            final(self).wf(),
            final(self)@ == all_set(old(self)@, paused, status, now),
    {
        let ids = self.controls.keys();
        let ghost all = views(ids@);
        let ghost before = self@;
        let mut i: usize = 0;
        assert(self@ == some_set(before, all.take(0).to_set(), paused, status, now)) by {
            let none = some_set(before, all.take(0).to_set(), paused, status, now);
            assert(none.controls =~= before.controls);
            assert(none.tasks =~= before.tasks);
        }
        while i < ids.len()
            invariant
                self.wf(),
                status == TaskStatus::Paused || status == TaskStatus::Queued,
                all == views(ids@),
                all.no_duplicates(),
                all.to_set() == before.controls.dom(),
                i <= ids@.len(),
                self@ == some_set(before, all.take(i as int).to_set(), paused, status, now),
            decreases ids@.len() - i,
        {
            let id = &ids[i];
            proof {
                let done = all.take(i as int);
                assert(all[i as int] == id@);
                assert(all.to_set().contains(id@));
                assert(!done.to_set().contains(id@)) by {
                    if done.to_set().contains(id@) {
                        let j = choose|j: int| 0 <= j < done.len() && done[j] == id@;
                        assert(all[j] == all[i as int]);
                    }
                }
                lemma_next_id(all, i as int);
                lemma_one_more_set(before, done.to_set(), id@, paused, status, now);
            }
            let mut control = match self.controls.get(id) {
                Some(found) => *found,
                None => TaskControl::new(),
            };
            if paused {
                control.pause();
            } else {
                control.resume();
            }
            self.set_control(id, control, status, now);
            i = i + 1;
        }
        assert(all.take(all.len() as int) == all);
    }

    /// Pauses all running tasks.
    pub fn pause_all_downloads(&mut self, now: u128)
        requires
            old(self).wf(),
        ensures
            final(self).wf(),
            final(self)@ == all_set(old(self)@, true, TaskStatus::Paused, now),
    {
        self.set_all(true, TaskStatus::Paused, now);
    }

    /// Lets all running tasks go on.
    pub fn resume_all_downloads(&mut self, now: u128)
        requires
            old(self).wf(),
        ensures
            final(self).wf(),
            final(self)@ == all_set(old(self)@, false, TaskStatus::Queued, now),
    {
        self.set_all(false, TaskStatus::Queued, now);
    }

    /// Notes that a task does not run any more.
    pub fn remove_control(&mut self, id: &str)
        requires
            old(self).wf(),
        ensures
            final(self).wf(),
            final(self)@ == without_control(old(self)@, id@),
    {
        self.controls.remove(id);
    }

    /// Notes files that a task leaves behind.
    pub fn register_artifacts(&mut self, id: &str, paths: Vec<String>)
        requires
            old(self).wf(),
        ensures
            final(self).wf(),
            final(self)@ == (StateView {
                artifacts: old(self)@.artifacts.insert(
                    id@,
                    artifacts_of(old(self)@, id@).union(path_set(paths@)),
                ),
                ..old(self)@
            }),
    {
        let mut known = match self.artifacts.remove(id) {
            Some(found) => found,
            None => Vec::new(),
        };
        proof {
            lemma_artifacts_removed(old(self).artifacts@, id@);
            if !old(self).artifacts@.contains_key(id@) {
                assert(path_set(known@) =~= Set::<Seq<char>>::empty());
            }
        }
        add_paths(&mut known, &paths);
        proof {
            lemma_artifacts_inserted(self.artifacts@, id@, known);
            let all = artifact_views(old(self).artifacts@);
            assert(all.remove(id@).insert(id@, path_set(known@)) =~= all.insert(
                id@,
                path_set(known@),
            ));
        }
        self.artifacts.insert(id.to_string(), known);
    }

    /// The files that a task has left behind so far.
    pub fn artifacts_snapshot(&self, id: &str) -> (paths: Vec<String>)
        requires
            self.wf(),
        ensures
            views(paths@).no_duplicates(),
            path_set(paths@) == artifacts_of(self@, id@),
    {
        match self.artifacts.get(id) {
            Some(paths) => crate::plan::copy_texts(paths),
            None => {
                let paths: Vec<String> = Vec::new();
                assert(path_set(paths@) =~= Set::<Seq<char>>::empty());
                paths
            },
        }
    }

    /// Forgets the files that a task has left behind.
    pub fn clear_artifacts(&mut self, id: &str)
        requires
            old(self).wf(),
        ensures
            final(self).wf(),
            final(self)@ == without_artifacts(old(self)@, id@),
    {
        proof {
            lemma_artifacts_removed(self.artifacts@, id@);
        }
        self.artifacts.remove(id);
    }

    /// Which files are to be removed when a task is cancelled: those that it has left behind, or
    /// where none are known, those that would stand beside its output.
    pub fn cleanup_of(&self, id: &str) -> (cleanup: Cleanup)
        requires
            self.wf(),
        ensures
            is_cleanup(cleanup, self@, id@),
    {
        let paths = self.artifacts_snapshot(id);
        if paths.len() > 0 {
            proof {
                assert(views(paths@)[0] == paths@[0]@);
                assert(path_set(paths@).contains(paths@[0]@));
            }
            return Cleanup::Listed(paths);
        }
        assert(path_set(paths@) =~= Set::<Seq<char>>::empty());
        match self.tasks.get(id) {
            Some(task) => Cleanup::Beside(task.output_path.clone()),
            None => Cleanup::Nothing,
        }
    }

    /// The files that are removed once a task has ended: those of a cancelled task, and no others.
    pub fn cleanup_after(&self, id: &str, outcome: &Result<(), DownloadError>) -> (cleanup: Cleanup)
        requires
            self.wf(),
        ensures
            match ended_view(*outcome) {
                Err(ErrorView::Cancelled) => is_cleanup(cleanup, self@, id@),
                _ => cleanup is Nothing,
            },
    {
        match outcome {
            Err(DownloadError::Cancelled) => self.cleanup_of(id),
            _ => Cleanup::Nothing,
        }
    }

    /// Notes how a task has ended. For a cancelled task, `removed` of its files were removed.
    pub fn finish_task(
        &mut self,
        id: &str,
        outcome: Result<(), DownloadError>,
        removed: usize,
        now: u128,
    )
        requires
            old(self).wf(),
        ensures
            final(self).wf(),
            final(self)@ == task_finished(
                old(self)@,
                id@,
                ended_view(outcome),
                removed as nat,
                now,
            ),
    {
        match outcome {
            Ok(_) => {
                self.set_status(id, TaskStatus::Completed, now);
                self.clear_artifacts(id);
            },
            Err(DownloadError::Cancelled) => {
                self.clear_artifacts(id);
                self.set_error(id, TaskStatus::Cancelled, cancel_message(removed), now);
            },
            Err(error) => {
                self.set_error(id, TaskStatus::Failed, error.message(), now);
            },
        }
        self.remove_control(id);
    }

    /// A task whose output can be opened, or why it cannot be.
    pub fn openable_task(&self, id: &str) -> (task: Result<TaskSnapshot, String>)
        requires
            self.wf(),
        ensures
            match task {
                Ok(found) => openable(self@, id@) == Ok::<TaskView, Seq<char>>(found@),
                Err(text) => openable(self@, id@) == Err::<TaskView, Seq<char>>(text@),
            },
    {
        match self.task_snapshot(id) {
            None => Err("任务不存在。".to_string()),
            Some(task) => {
                if !matches!(task.status, TaskStatus::Completed) {
                    Err("只有已完成任务可以打开文件或文件夹。".to_string())
                } else if is_blank(&task.output_path) {
                    Err("任务没有保存路径。".to_string())
                } else {
                    Ok(task)
                }
            },
        }
    }
}

/// A task whose output can be opened, or why it cannot be.
pub open spec fn openable(state: StateView, id: Seq<char>) -> Result<TaskView, Seq<char>> {
    if !state.tasks.contains_key(id) {
        Err("任务不存在。"@)
    } else if state.tasks[id].status != TaskStatus::Completed {
        Err("只有已完成任务可以打开文件或文件夹。"@)
    } else if trim(state.tasks[id].output_path).len() == 0 {
        Err("任务没有保存路径。"@)
    } else {
        Ok(state.tasks[id])
    }
}

/// What stands at a path.
pub enum PathState {
    Folder,
    Other,
    Missing,
    /// It cannot be told; the text is the cause.
    Unreadable(String),
}

/// Whether the output of a task is a folder, or why it cannot be opened.
pub fn output_is_folder(found: PathState) -> (folder: Result<bool, String>)
    ensures
        match found {
            PathState::Folder => folder == Ok::<bool, String>(true),
            PathState::Other => folder == Ok::<bool, String>(false),
            PathState::Missing => folder matches Err(text) && text@
                == "文件不存在，可能已删除或路径已变更。"@,
            PathState::Unreadable(cause) => folder matches Err(text) && text@
                == "无法读取保存路径："@ + cause@,
        },
{
    match found {
        PathState::Folder => Ok(true),
        PathState::Other => Ok(false),
        PathState::Missing => Err("文件不存在，可能已删除或路径已变更。".to_string()),
        PathState::Unreadable(cause) => {
            let mut text = "无法读取保存路径：".to_string();
            text.append(&cause);
            Err(text)
        },
    }
}

/// Whether the folder that holds the output of a task can be opened, or why not.
pub fn folder_can_be_opened(found: PathState) -> (opened: Result<(), String>)
    ensures
        match found {
            PathState::Folder => opened is Ok,
            PathState::Other => opened matches Err(text) && text@
                == "保存路径不是文件夹，可能已变更。"@,
            PathState::Missing => opened matches Err(text) && text@
                == "保存文件夹不存在，可能已删除或路径已变更。"@,
            PathState::Unreadable(cause) => opened matches Err(text) && text@
                == "无法读取保存文件夹："@ + cause@,
        },
{
    match found {
        PathState::Folder => Ok(()),
        PathState::Other => Err("保存路径不是文件夹，可能已变更。".to_string()),
        PathState::Missing => Err("保存文件夹不存在，可能已删除或路径已变更。".to_string()),
        PathState::Unreadable(cause) => {
            let mut text = "无法读取保存文件夹：".to_string();
            text.append(&cause);
            Err(text)
        },
    }
}

/// What is said where a file cannot be opened.
pub fn open_failure(file_name: &str, cause: &str) -> (text: String)
    ensures
        text@ == "无法打开 "@ + file_name@ + "："@ + cause@,
{
    let mut text = "无法打开 ".to_string();
    text.append(file_name);
    text.append("：");
    text.append(cause);
    text
}

/// A task that has come to an end can be deleted, however it has ended.
pub proof fn finished_tasks_can_be_deleted(
    state: StateView,
    id: Seq<char>,
    outcome: Result<(), ErrorView>,
    removed: nat,
    now: u128,
)
    requires
        state.tasks.contains_key(id),
    ensures
        ({
            let after = task_finished(state, id, outcome, removed, now);
            &&& after.tasks.contains_key(id)
            &&& after.tasks[id].status.ended()
            &&& deletion(after, id) == Ok::<StateView, Seq<char>>(without_task(after, id))
        }),
{
}

/// A task that runs is neither deleted nor cleared away.
pub proof fn running_tasks_stay(state: StateView, id: Seq<char>)
    requires
        state.controls.contains_key(id),
        state.tasks.contains_key(id),
    ensures
        deletion(state, id) is Err,
        without_tasks(state, finished_ids(state)).tasks.contains_key(id),
        without_tasks(state, finished_ids(state)).tasks[id] == state.tasks[id],
{
}

/// Clearing away finished tasks leaves none that could be deleted.
pub proof fn clearing_leaves_nothing_to_delete(state: StateView, id: Seq<char>)
    ensures
        deletion(without_tasks(state, finished_ids(state)), id) is Err,
{
}

/// A task that is paused and resumed is wanted as before, and waits for its turn again.
pub proof fn resuming_undoes_pausing(state: StateView, id: Seq<char>, t1: u128, t2: u128)
    requires
        state.controls.contains_key(id),
        state.tasks.contains_key(id),
        !state.controls[id].paused,
    ensures
        ({
            let paused = control_set(
                state,
                id,
                TaskControl { paused: true, ..state.controls[id] },
                TaskStatus::Paused,
                t1,
            )->Ok_0;
            let resumed = control_set(
                paused,
                id,
                TaskControl { paused: false, ..paused.controls[id] },
                TaskStatus::Queued,
                t2,
            )->Ok_0;
            &&& resumed.controls == state.controls
            &&& resumed.tasks[id] == (TaskView {
                status: TaskStatus::Queued,
                speed_bits: 0,
                updated_at: t2,
                ..state.tasks[id]
            })
        }),
{
    let paused = control_set(
        state,
        id,
        TaskControl { paused: true, ..state.controls[id] },
        TaskStatus::Paused,
        t1,
    )->Ok_0;
    let resumed = control_set(
        paused,
        id,
        TaskControl { paused: false, ..paused.controls[id] },
        TaskStatus::Queued,
        t2,
    )->Ok_0;
    assert(resumed.controls =~= state.controls);
}

/// A task that was cancelled stays so, whether it is paused or resumed afterwards.
pub proof fn cancelling_is_final(state: StateView, id: Seq<char>, paused: bool, now: u128)
    requires
        state.controls.contains_key(id),
        state.controls[id].cancelled,
    ensures
        all_set(
            state,
            paused,
            if paused {
                TaskStatus::Paused
            } else {
                TaskStatus::Queued
            },
            now,
        ).controls[id].cancelled,
        (TaskControl { paused, ..state.controls[id] }).cancelled,
{
}

/// A task can be deleted exactly if it is there, has ended, and is not still winding up. Then
/// nothing is left of it. All other tasks stay as they are.
pub proof fn deleted_tasks_are_gone(state: StateView, id: Seq<char>, other: Seq<char>)
    ensures
        deletion(state, id) is Ok <==> !state.controls.contains_key(id) && state.tasks.contains_key(
            id,
        ) && (state.tasks[id].status == TaskStatus::Completed || state.tasks[id].status
            == TaskStatus::Failed || state.tasks[id].status == TaskStatus::Cancelled),
        deletion(state, id) matches Ok(after) ==> {
            &&& !after.tasks.contains_key(id)
            &&& !after.artifacts.contains_key(id)
            &&& !after.meters.contains_key(id)
            &&& after.controls == state.controls
            &&& other != id ==> untouched(state, after, other)
        },
        state.controls.contains_key(id) ==> deletion(state, id) == Err::<StateView, Seq<char>>(
            "任务仍在运行或收尾，请先取消并等待状态刷新。"@,
        ),
        !state.controls.contains_key(id) && !state.tasks.contains_key(id) ==> deletion(state, id)
            == Err::<StateView, Seq<char>>("任务不存在。"@),
        !state.controls.contains_key(id) && state.tasks.contains_key(id) && deletion(state, id)
            is Err ==> deletion(state, id) == Err::<StateView, Seq<char>>(
            "只能删除已完成、失败或已取消的任务。"@,
        ),
{
}

/// Clearing away takes exactly the tasks that could be deleted.
pub proof fn clearing_takes_what_could_be_deleted(state: StateView, id: Seq<char>)
    ensures
        deletion(state, id) is Ok <==> state.tasks.contains_key(id) && !without_tasks(
            state,
            finished_ids(state),
        ).tasks.contains_key(id),
        deletion(state, id) is Err ==> untouched(
            state,
            without_tasks(state, finished_ids(state)),
            id,
        ),
{
}

/// What the user wants of a task can be changed exactly while it runs. Then it is wanted as asked
/// and shows it. All other tasks stay as they are.
pub proof fn wishes_change_one_task(
    state: StateView,
    id: Seq<char>,
    control: TaskControl,
    status: TaskStatus,
    now: u128,
    other: Seq<char>,
)
    ensures
        control_set(state, id, control, status, now) is Ok <==> state.controls.contains_key(id),
        control_set(state, id, control, status, now) is Err ==> control_set(
            state,
            id,
            control,
            status,
            now,
        ) == Err::<StateView, Seq<char>>("task is not running"@),
        control_set(state, id, control, status, now) matches Ok(after) ==> {
            &&& other != id ==> untouched(state, after, other)
            &&& after.controls.contains_key(id) && after.controls[id] == control
            &&& after.artifacts == state.artifacts
            &&& after.tasks.contains_key(id) == state.tasks.contains_key(id)
            &&& state.tasks.contains_key(id) ==> after.tasks[id].status == status
                && after.tasks[id].updated_at == now && after.tasks[id].error
                == state.tasks[id].error && keeps_settings(state.tasks[id], after.tasks[id])
                && keeps_progress(state.tasks[id], after.tasks[id])
        },
{
}

/// Pausing or resuming all tasks changes each that runs, and none that does not. A task that was
/// cancelled stays so.
pub proof fn all_running_tasks_are_set(
    state: StateView,
    paused: bool,
    status: TaskStatus,
    now: u128,
    id: Seq<char>,
)
    ensures
        ({
            let after = all_set(state, paused, status, now);
            &&& !state.controls.contains_key(id) ==> untouched(state, after, id)
            &&& state.controls.contains_key(id) ==> {
                &&& after.controls.contains_key(id)
                &&& after.controls[id].paused == paused
                &&& after.controls[id].cancelled == state.controls[id].cancelled
                &&& after.tasks.contains_key(id) == state.tasks.contains_key(id)
                &&& state.tasks.contains_key(id) ==> after.tasks[id].status == status
                    && after.tasks[id].speed_bits == 0 && after.tasks[id].updated_at == now
                    && after.tasks[id].error == state.tasks[id].error && keeps_settings(
                    state.tasks[id],
                    after.tasks[id],
                ) && keeps_progress(state.tasks[id], after.tasks[id])
            }
            &&& after.artifacts == state.artifacts
            &&& after.meters == state.meters
        }),
{
}

/// How a task ends: with success it is complete, and what it has left behind on the way is
/// forgotten. One that was cancelled says so, and how many files were removed. Any other failure is
/// shown with its text, and what was left behind is kept for a further try. In each case it does
/// not run any more and has no meter, and all other tasks stay as they are.
pub proof fn tasks_end_as_they_went(
    state: StateView,
    id: Seq<char>,
    outcome: Result<(), ErrorView>,
    removed: nat,
    now: u128,
    other: Seq<char>,
)
    ensures
        ({
            let after = task_finished(state, id, outcome, removed, now);
            &&& other != id ==> untouched(state, after, other)
            &&& !after.controls.contains_key(id)
            &&& !after.meters.contains_key(id)
            &&& after.tasks.contains_key(id) == state.tasks.contains_key(id)
            &&& state.tasks.contains_key(id) ==> {
                &&& outcome is Ok ==> after.tasks[id].status == TaskStatus::Completed
                    && after.tasks[id].error == state.tasks[id].error
                &&& outcome == Err::<(), ErrorView>(ErrorView::Cancelled) ==> after.tasks[id].status
                    == TaskStatus::Cancelled && after.tasks[id].error == Some(
                    if removed == 0 {
                        "已取消"@
                    } else {
                        "已取消，已清理 "@ + decimal(removed) + " 个临时文件"@
                    },
                )
                &&& outcome matches Err(error) ==> error == ErrorView::Cancelled || (
                after.tasks[id].status == TaskStatus::Failed && after.tasks[id].error == Some(
                    error_text(error),
                ))
                &&& after.tasks[id].speed_bits == 0
                &&& after.tasks[id].updated_at == now
                &&& keeps_settings(state.tasks[id], after.tasks[id])
                &&& keeps_progress(state.tasks[id], after.tasks[id])
            }
            &&& outcome is Ok || outcome == Err::<(), ErrorView>(ErrorView::Cancelled)
                ==> !after.artifacts.contains_key(id)
            &&& outcome matches Err(error) ==> error == ErrorView::Cancelled || after.artifacts
                == state.artifacts
        }),
{
}

/// The output of a task can be opened exactly if the task is there, is complete, and has a path
/// with something in it besides white space.
pub proof fn complete_tasks_can_be_opened(state: StateView, id: Seq<char>, i: int)
    requires
        state.tasks.contains_key(id),
    ensures
        state.tasks[id].status == TaskStatus::Completed && 0 <= i
            < state.tasks[id].output_path.len() && !is_whitespace(state.tasks[id].output_path[i])
            ==> openable(state, id) == Ok::<TaskView, Seq<char>>(state.tasks[id]),
        state.tasks[id].status != TaskStatus::Completed ==> openable(state, id) == Err::<
            TaskView,
            Seq<char>,
        >("只有已完成任务可以打开文件或文件夹。"@),
        state.tasks[id].status == TaskStatus::Completed && (forall|k: int|
            0 <= k < state.tasks[id].output_path.len() ==> is_whitespace(
                #[trigger] state.tasks[id].output_path[k],
            )) ==> openable(state, id) == Err::<TaskView, Seq<char>>("任务没有保存路径。"@),
{
    let path = state.tasks[id].output_path;
    if 0 <= i < path.len() && !is_whitespace(path[i]) {
        visible_text_stays(path, i);
    }
    if forall|k: int| 0 <= k < path.len() ==> is_whitespace(#[trigger] path[k]) {
        assert forall|k: int| 0 <= k < path.len() implies CharClass::Whitespace.has(
            #[trigger] path[k],
        ) by {
            assert(is_whitespace(path[k]));
        }
        trimming_leaves_nothing_of_the_class(path, CharClass::Whitespace);
    }
}

/// Pausing a task that runs asks it to wait and shows it, and a task that does not run cannot be
/// paused. A task that was cancelled stays so. All other tasks stay as they are.
pub proof fn paused_tasks_wait(
    state: &mut AppState,
    id: &str,
    now: u128,
    done: Result<(), String>,
    other: Seq<char>,
)
    requires
        call_ensures(AppState::pause_download, (state, id, now), done),
    ensures
        done is Ok <==> old(state)@.controls.contains_key(id@),
        done is Err ==> *final(state) == *old(state),
        done is Ok ==> {
            &&& final(state)@.controls[id@].paused
            &&& final(state)@.controls[id@].cancelled == old(state)@.controls[id@].cancelled
            &&& old(state)@.tasks.contains_key(id@) ==> final(state)@.tasks[id@].status
                == TaskStatus::Paused
            &&& other != id@ ==> untouched(old(state)@, final(state)@, other)
        },
{
}

/// Resuming a task that runs lets it go on and shows that it waits for its turn.
pub proof fn resumed_tasks_go_on(
    state: &mut AppState,
    id: &str,
    now: u128,
    done: Result<(), String>,
    other: Seq<char>,
)
    requires
        call_ensures(AppState::resume_download, (state, id, now), done),
    ensures
        done is Ok <==> old(state)@.controls.contains_key(id@),
        done is Err ==> *final(state) == *old(state),
        done is Ok ==> {
            &&& !final(state)@.controls[id@].paused
            &&& final(state)@.controls[id@].cancelled == old(state)@.controls[id@].cancelled
            &&& old(state)@.tasks.contains_key(id@) ==> final(state)@.tasks[id@].status
                == TaskStatus::Queued
            &&& other != id@ ==> untouched(old(state)@, final(state)@, other)
        },
{
}

/// Cancelling a task that runs asks it to end, even where it was paused, and shows it.
pub proof fn cancelled_tasks_end(
    state: &mut AppState,
    id: &str,
    now: u128,
    done: Result<(), String>,
    other: Seq<char>,
)
    requires
        call_ensures(AppState::cancel_download, (state, id, now), done),
    ensures
        done is Ok <==> old(state)@.controls.contains_key(id@),
        done is Err ==> *final(state) == *old(state),
        done is Ok ==> {
            &&& final(state)@.controls[id@].cancelled
            &&& !final(state)@.controls[id@].paused
            &&& old(state)@.tasks.contains_key(id@) ==> final(state)@.tasks[id@].status
                == TaskStatus::Cancelled
            &&& other != id@ ==> untouched(old(state)@, final(state)@, other)
        },
{
}

/// Pausing all tasks and resuming all tasks asks and shows of each that runs what doing so to it
/// alone would.
pub proof fn all_tasks_wait_or_go_on(state: &mut AppState, now: u128, done: (), id: Seq<char>)
    requires
        old(state)@.controls.contains_key(id),
        old(state)@.tasks.contains_key(id),
    ensures
        call_ensures(AppState::pause_all_downloads, (state, now), done) ==> final(state)@.controls[id].paused && final(state)@.tasks[id].status == TaskStatus::Paused,
        call_ensures(AppState::resume_all_downloads, (state, now), done) ==> !final(state)@.controls[id].paused && final(state)@.tasks[id].status == TaskStatus::Queued,
{
}

/// Files that a task leaves behind are noted in addition to those that are noted already.
pub proof fn noted_files_add_up(
    state: &mut AppState,
    id: &str,
    paths: Vec<String>,
    done: (),
    path: Seq<char>,
    other: Seq<char>,
)
    requires
        call_ensures(AppState::register_artifacts, (state, id, paths), done),
    ensures
        final(state)@.artifacts.contains_key(id@),
        final(state)@.artifacts[id@].contains(path) <==> (old(state)@.artifacts.contains_key(id@)
            && old(state)@.artifacts[id@].contains(path)) || views(paths@).contains(path),
        final(state)@.tasks == old(state)@.tasks,
        final(state)@.controls == old(state)@.controls,
        other != id@ ==> untouched(old(state)@, final(state)@, other),
{
}

/// Files are removed once a task has ended only if it was cancelled. Then all that were noted are,
/// or where none were, what stands beside its output.
pub proof fn only_cancelled_tasks_are_cleaned_up(
    state: &AppState,
    id: &str,
    outcome: &Result<(), DownloadError>,
    cleanup: Cleanup,
    path: Seq<char>,
)
    requires
        call_ensures(AppState::cleanup_after, (state, id, outcome), cleanup),
    ensures
        outcome is Ok ==> cleanup is Nothing,
        outcome matches Err(error) ==> (error@ != ErrorView::Cancelled ==> cleanup is Nothing),
        outcome matches Err(error) ==> (error@ == ErrorView::Cancelled ==> {
            &&& state@.artifacts.contains_key(id@) && state@.artifacts[id@].contains(path) ==> (
            cleanup matches Cleanup::Listed(paths) && views(paths@).contains(path))
            &&& cleanup matches Cleanup::Listed(paths) ==> (views(paths@).contains(path)
                ==> state@.artifacts.contains_key(id@) && state@.artifacts[id@].contains(path))
            &&& cleanup matches Cleanup::Beside(beside) ==> state@.tasks.contains_key(id@)
                && beside@ == state@.tasks[id@].output_path
        }),
{
    if state@.artifacts.contains_key(id@) && state@.artifacts[id@].contains(path) {
        assert(crate::queue::artifacts_of(state@, id@).contains(path));
    }
    if let Cleanup::Listed(paths) = cleanup {
        assert(path_set(paths@).contains(path) <==> views(paths@).contains(path));
    }
}

/// What stands at the place of a task's output is opened as what it is, and where nothing does, or
/// it cannot be told, that is reported.
pub proof fn outputs_are_opened_as_they_are(
    found: PathState,
    folder: Result<bool, String>,
    opened: Result<(), String>,
)
    requires
        call_ensures(output_is_folder, (found,), folder),
        call_ensures(folder_can_be_opened, (found,), opened),
    ensures
        folder == Ok::<bool, String>(true) <==> found is Folder,
        folder == Ok::<bool, String>(false) <==> found is Other,
        folder is Err <==> found is Missing || found is Unreadable,
        opened is Ok <==> found is Folder,
{
}

/// The list of tasks holds every task once, as it stands, and an older one before a younger.
pub proof fn lists_hold_every_task(
    state: &AppState,
    list: Vec<TaskSnapshot>,
    i: int,
    j: int,
    id: Seq<char>,
)
    requires
        call_ensures(AppState::sorted_tasks, (state,), list),
        0 <= i < j < list@.len(),
    ensures
        list@[i].created_at <= list@[j].created_at,
        list@[i].id@ != list@[j].id@,
        state@.tasks.contains_key(list@[i].id@) && state@.tasks[list@[i].id@] == list@[i]@,
        state@.tasks.contains_key(id) ==> exists|k: int|
            0 <= k < list@.len() && (#[trigger] list@[k]).id@ == id,
{
    let views = snapshot_views(list@);
    assert(views[i] == list@[i]@ && views[j] == list@[j]@);
    if state@.tasks.contains_key(id) {
        let k = choose|k: int| 0 <= k < views.len() && (#[trigger] views[k]).id == id;
        assert(list@[k].id@ == id);
    }
}

/// Deleting a task gives it back as it was, and nothing of it stays. What cannot be deleted stays
/// as it is.
pub proof fn deleting_gives_the_task_back(
    state: &mut AppState,
    id: &str,
    deleted: Result<TaskSnapshot, String>,
    other: Seq<char>,
)
    requires
        call_ensures(AppState::delete_finished_task, (state, id), deleted),
    ensures
        deleted matches Ok(task) ==> {
            &&& old(state)@.tasks.contains_key(id@) && task@ == old(state)@.tasks[id@]
            &&& !old(state)@.controls.contains_key(id@)
            &&& task.status == TaskStatus::Completed || task.status == TaskStatus::Failed
                || task.status == TaskStatus::Cancelled
            &&& !final(state)@.tasks.contains_key(id@)
            &&& other != id@ ==> untouched(old(state)@, final(state)@, other)
        },
        deleted is Err ==> *final(state) == *old(state),
        deleted is Err ==> old(state)@.controls.contains_key(id@) || !old(
            state,
        )@.tasks.contains_key(id@) || !(old(state)@.tasks[id@].status == TaskStatus::Completed || old(
            state,
        )@.tasks[id@].status == TaskStatus::Failed || old(state)@.tasks[id@].status
            == TaskStatus::Cancelled),
{
    deleted_tasks_are_gone(old(state)@, id@, other);
    if let Ok(task) = deleted {
        assert(task@.status == task.status);
    }
}

/// A task that has come to its end shows how, and does not run any more.
pub proof fn finished_tasks_show_how_they_ended(
    state: &mut AppState,
    id: &str,
    outcome: Result<(), DownloadError>,
    removed: usize,
    now: u128,
    done: (),
    other: Seq<char>,
)
    requires
        call_ensures(AppState::finish_task, (state, id, outcome, removed, now), done),
        old(state)@.tasks.contains_key(id@),
    ensures
        !final(state)@.controls.contains_key(id@),
        outcome is Ok ==> final(state)@.tasks[id@].status == TaskStatus::Completed,
        outcome matches Err(error) ==> if error@ == ErrorView::Cancelled {
            final(state)@.tasks[id@].status == TaskStatus::Cancelled
        } else {
            final(state)@.tasks[id@].status == TaskStatus::Failed && final(state)@.tasks[id@].error
                == Some(error_text(error@))
        },
        other != id@ ==> untouched(old(state)@, final(state)@, other),
{
}

} // verus!
