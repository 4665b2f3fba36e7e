use vstd::prelude::*;
use crate::datetime::{CivilDateTime, current_datetime};
use crate::task::{
    Task, TaskRecord, TaskView, RecordView, all_wf, decode_tasks, decoded, encode_tasks,
    records_view, stored_form, tasks_view,
};

verus! {

/// What reading the task file gave, as the caller found it.
pub enum Stored {
    /// There is no task file.
    Missing,
    /// The file exists but could not be read.
    Unreadable,
    /// The file was read but does not hold a list of task records.
    Malformed,
    /// The records that the file holds, in order.
    Records(Vec<TaskRecord>),
}

/// Why writing the task file failed, with the cause in words.
pub enum SaveFailure {
    Serialize(String),
    Write(String),
}

/// What removing the task file gave.
pub enum Removal {
    Removed,
    Absent,
    Failed(String),
}

/// No task has the id that was asked for.
#[derive(Clone, Copy, Debug, PartialEq, Eq, Structural)]
pub struct TaskNotFound {
    pub id: u32,
}

/// The tasks of the session, in insertion order, and the last error to show.
pub struct ToDoApp {
    pub tasks: Vec<Task>,
    pub error_message: String,
}

pub open spec fn load_error_text() -> Seq<char> {
    "Error loading task"@
}

pub open spec fn malformed_text() -> Seq<char> {
    "Error loading task: the task file is malformed"@
}

pub open spec fn serialize_error_text() -> Seq<char> {
    "Error serializing tasks "@
}

pub open spec fn save_error_text() -> Seq<char> {
    "Error saving tasks "@
}

pub open spec fn clear_error_text() -> Seq<char> {
    "Error removing tasks "@
}

/// The task that adding gives, with the id `id`.
pub open spec fn new_task(id: int, name: Seq<char>, description: Seq<char>, date: CivilDateTime) -> TaskView {
    TaskView { id: id as u32, name, description, date, done: false }
}

/// No two tasks share an id.
pub open spec fn ids_distinct(ts: Seq<TaskView>) -> bool {
    forall|i: int, j: int|
        #![trigger ts[i], ts[j]]
        0 <= i < ts.len() && 0 <= j < ts.len() && i != j ==> ts[i].id != ts[j].id
}

/// The largest id in the list; 0 for an empty list.
pub open spec fn max_id(ts: Seq<TaskView>) -> int
    decreases ts.len(),
{
    if ts.len() == 0 {
        0
    } else {
        let m = max_id(ts.drop_last());
        if ts.last().id > m {
            ts.last().id as int
        } else {
            m
        }
    }
}

/// Every id is at most the largest id, which fits a `u32`.
pub proof fn lemma_max_id_bounds(ts: Seq<TaskView>)
    ensures
        0 <= max_id(ts) <= 0xffff_ffff,
        forall|i: int| 0 <= i < ts.len() ==> #[trigger] ts[i].id <= max_id(ts),
    decreases ts.len(),
{
    if ts.len() > 0 {
        let init = ts.drop_last();
        lemma_max_id_bounds(init);
        assert forall|i: int| 0 <= i < ts.len() implies #[trigger] ts[i].id <= max_id(ts) by {
            if i < ts.len() - 1 {
                assert(ts[i] == init[i]);
            }
        }
    }
}

/// The index of the first task with the id, if any.
pub open spec fn first_with_id(ts: Seq<TaskView>, id: u32) -> Option<int> {
    if exists|i: int| 0 <= i < ts.len() && ts[i].id == id {
        Some(choose|i: int| 0 <= i < ts.len() && ts[i].id == id && forall|j: int| 0 <= j < i ==> ts[j].id != id)
    } else {
        None
    }
}

pub open spec fn toggled(t: TaskView) -> TaskView {
    TaskView { done: !t.done, ..t }
}

impl ToDoApp {
    pub open spec fn view(&self) -> Seq<TaskView> {
        tasks_view(self.tasks@)
    }

    /// Every task is valid, and no two share an id.
    pub open spec fn wf(&self) -> bool {
        all_wf(self.view()) && ids_distinct(self.view())
    }

    /// The session that starts from what reading the task file gave: a
    /// missing file is an empty list with no error; a file that cannot be
    /// read, or does not hold valid task records with distinct ids, is an
    /// empty list with an error to show.
    pub fn new(stored: Stored) -> (r: ToDoApp)
        ensures
            r.wf(),
            match stored {
                Stored::Missing => r.view().len() == 0 && r.error_message@.len() == 0,
                Stored::Unreadable => r.view().len() == 0 && r.error_message@ == load_error_text(),
                Stored::Malformed => r.view().len() == 0 && r.error_message@ == malformed_text(),
                Stored::Records(rs) => match decoded(records_view(rs@)) {
                    Some(ts) => if ids_distinct(ts) {
                        r.view() == ts && r.error_message@.len() == 0
                    } else {
                        r.view().len() == 0 && r.error_message@ == malformed_text()
                    },
                    None => r.view().len() == 0 && r.error_message@ == malformed_text(),
                },
            },
    {
        let empty = ToDoApp { tasks: Vec::new(), error_message: String::new() };
        proof {
            assert(empty.view() =~= Seq::<TaskView>::empty());
        }
        match stored {
            Stored::Missing => empty,
            Stored::Unreadable => ToDoApp {
                error_message: String::from_str("Error loading task"),
                ..empty
            },
            Stored::Malformed => ToDoApp {
                error_message: String::from_str("Error loading task: the task file is malformed"),
                ..empty
            },
            Stored::Records(rs) => match decode_tasks(&rs) {
                Ok(tasks) => {
                    proof {
                        crate::task::lemma_decoded_wf(records_view(rs@));
                    }
                    if has_distinct_ids(&tasks) {
                        ToDoApp { tasks, error_message: String::new() }
                    } else {
                        ToDoApp {
                            error_message: String::from_str(
                                "Error loading task: the task file is malformed",
                            ),
                            ..empty
                        }
                    }
                },
                Err(_) => ToDoApp {
                    error_message: String::from_str("Error loading task: the task file is malformed"),
                    ..empty
                },
            },
        }
    }

    /// The records to write to the task file, one per task, in order.
    pub fn records(&self) -> (r: Vec<TaskRecord>)
        requires
            self.wf(),
        ensures
            records_view(r@) == self.view().map_values(|t: TaskView| stored_form(t)),
    {
        encode_tasks(&self.tasks)
    }

    /// The id that the next added task gets: one more than the largest id,
    /// or `None` when the largest id is already `u32::MAX`.
    pub fn next_id(&self) -> (r: Option<u32>)
        ensures
            r == (if max_id(self.view()) < 0xffff_ffff {
                Some((max_id(self.view()) + 1) as u32)
            } else {
                None::<u32>
            }),
    {
        let mut m: u32 = 0;
        let mut i: usize = 0;
        while i < self.tasks.len()
            invariant
                i <= self.view().len(),
                m == max_id(self.view().take(i as int)),
            decreases self.view().len() - i,
        {
            proof {
                assert(self.view().take(i + 1).drop_last() =~= self.view().take(i as int));
            }
            if self.tasks[i].id > m {
                m = self.tasks[i].id;
            }
            i = i + 1;
        }
        proof {
            assert(self.view().take(i as int) =~= self.view());
        }
        if m < 0xffff_ffff {
            Some(m + 1)
        } else {
            None
        }
    }

    /// Appends a task whose id is one more than the largest id, not done,
    /// dated `date`, or `now` when no date is given. Adds nothing, and returns
    /// false, when the largest id is already `u32::MAX`.
    pub fn add_task_at(
        &mut self,
        name: String,
        description: String,
        date: Option<CivilDateTime>,
        now: CivilDateTime,
    ) -> (added: bool)
        requires
            old(self).wf(),
            name@.len() > 0,
            date matches Some(d) ==> d.wf(),
            now.wf(),
        ensures
            final(self).wf(),
            final(self).error_message == old(self).error_message,
            added == (max_id(old(self).view()) < 0xffff_ffff),
            added ==> final(self).view() == old(self).view().push(
                new_task(
                    max_id(old(self).view()) + 1,
                    name@,
                    description@,
                    match date {
                        Some(d) => d,
                        None => now,
                    },
                ),
            ),
            added ==> forall|i: int|
                0 <= i < old(self).view().len() ==> #[trigger] old(self).view()[i].id < final(self).view().last().id,
            !added ==> final(self).view() == old(self).view(),
    {
        let id = match self.next_id() {
            Some(id) => id,
            None => {
                return false;
            },
        };
        let date = match date {
            Some(d) => d,
            None => now,
        };
        let task = Task { id, name, description, date, done: false };
        self.tasks.push(task);
        proof {
            let v = old(self).view();
            lemma_max_id_bounds(v);
            assert(self.view() =~= v.push(task@));
            assert forall|i: int, j: int|
                #![trigger self.view()[i], self.view()[j]]
                0 <= i < self.view().len() && 0 <= j < self.view().len() && i != j implies
                self.view()[i].id != self.view()[j].id by {
                if i < v.len() && j < v.len() {
                    assert(v[i] == self.view()[i] && v[j] == self.view()[j]);
                } else if i < v.len() {
                    assert(v[i].id <= max_id(v));
                } else {
                    assert(v[j].id <= max_id(v));
                }
            }
        }
        true
    }

    /// Appends a task whose id is one more than the largest id, not done,
    /// dated `date`, or the current time when no date is given. Adds nothing,
    /// and returns false, when the largest id is already `u32::MAX` or, with
    /// no date given, the clock cannot be read.
    pub fn add_task(&mut self, name: String, description: String, date: Option<CivilDateTime>) -> (added: bool)
        requires
            old(self).wf(),
            name@.len() > 0,
            date matches Some(d) ==> d.wf(),
        ensures
            final(self).wf(),
            final(self).error_message == old(self).error_message,
            date is Some && max_id(old(self).view()) < 0xffff_ffff ==> added,
            added ==> max_id(old(self).view()) < 0xffff_ffff,
            !added ==> final(self).view() == old(self).view(),
            added ==> final(self).view().len() == old(self).view().len() + 1,
            added ==> final(self).view().take(old(self).view().len() as int) == old(self).view(),
            added ==> ({
                let t = final(self).view().last();
                &&& t.id == max_id(old(self).view()) + 1
                &&& t.name == name@
                &&& t.description == description@
                &&& !t.done
                &&& t.date.wf()
                &&& date matches Some(d) ==> t.date == d
            }),
            added ==> forall|i: int|
                0 <= i < old(self).view().len() ==> #[trigger] old(self).view()[i].id < final(self).view().last().id,
    {
        let date = match date {
            Some(d) => d,
            None => match current_datetime() {
                Some(now) => now,
                None => {
                    return false;
                },
            },
        };
        let added = self.add_task_at(name, description, Some(date), date);
        proof {
            if added {
                assert(self.view().take(old(self).view().len() as int) =~= old(self).view());
            }
        }
        added
    }

    /// Flips the done flag of the task at `index`.
    pub fn toggle_at(&mut self, index: usize)
        requires
            old(self).wf(),
            index < old(self).view().len(),
        ensures
            final(self).wf(),
            final(self).view() == old(self).view().update(
                index as int,
                toggled(old(self).view()[index as int]),
            ),
            final(self).error_message == old(self).error_message,
    {
        let old_task = &self.tasks[index];
        let task = Task {
            id: old_task.id,
            name: old_task.name.clone(),
            description: old_task.description.clone(),
            date: old_task.date,
            done: !old_task.done,
        };
        self.tasks.set(index, task);
        proof {
            assert(self.view() =~= old(self).view().update(
                index as int,
                toggled(old(self).view()[index as int]),
            ));
            assert forall|i: int| 0 <= i < self.view().len() implies #[trigger] self.view()[i].wf() by {
                assert(old(self).view()[i].wf());
            }
            assert forall|i: int, j: int|
                #![trigger self.view()[i], self.view()[j]]
                0 <= i < self.view().len() && 0 <= j < self.view().len() && i != j implies
                self.view()[i].id != self.view()[j].id by {
                assert(old(self).view()[i].id == self.view()[i].id);
                assert(old(self).view()[j].id == self.view()[j].id);
            }
        }
    }

    /// Flips the done flag of the first task with the id; reports the id
    /// when no task has it, and then changes nothing. Completion is a toggle
    /// everywhere: the same call on a done task makes it pending again.
    pub fn toggle_done(&mut self, id: u32) -> (r: Result<(), TaskNotFound>)
        requires
            old(self).wf(),
        ensures
            final(self).wf(),
            final(self).error_message == old(self).error_message,
            match first_with_id(old(self).view(), id) {
                Some(i) => r is Ok && final(self).view() == old(self).view().update(
                    i,
                    toggled(old(self).view()[i]),
                ),
                None => r == Err::<(), TaskNotFound>(TaskNotFound { id }) && final(self).view()
                    == old(self).view(),
            },
    {
        let mut i: usize = 0;
        while i < self.tasks.len()
            invariant
                i <= self.view().len(),
                self.view() == old(self).view(),
                self.error_message == old(self).error_message,
                self.wf(),
                forall|j: int| 0 <= j < i ==> #[trigger] self.view()[j].id != id,
            decreases self.view().len() - i,
        {
            if self.tasks[i].id == id {
                proof {
                    let v = old(self).view();
                    assert(v[i as int].id == id);
                    let k = first_with_id(v, id)->0;
                    assert(0 <= k < v.len() && v[k].id == id && forall|j: int|
                        0 <= j < k ==> v[j].id != id);
                    assert(k == i) by {
                        if k < i {
                            assert(self.view()[k].id != id);
                        }
                        if k > i {
                            assert(v[i as int].id != id);
                        }
                    }
                }
                self.toggle_at(i);
                return Ok(());
            }
            i = i + 1;
        }
        Err(TaskNotFound { id })
    }

    /// Takes in what writing the task file gave. On success nothing changes;
    /// on failure the error to show names the cause. The tasks stay as they
    /// are either way. Returns whether the tasks were saved.
    pub fn finish_save(&mut self, outcome: Result<(), SaveFailure>) -> (r: bool)
        ensures
            final(self).tasks == old(self).tasks,
            r == outcome is Ok,
            match outcome {
                Ok(()) => final(self).error_message == old(self).error_message,
                Err(SaveFailure::Serialize(c)) => final(self).error_message@
                    == serialize_error_text() + c@,
                Err(SaveFailure::Write(c)) => final(self).error_message@ == save_error_text() + c@,
            },
    {
        match outcome {
            Ok(()) => true,
            Err(SaveFailure::Serialize(c)) => {
                self.error_message = String::from_str("Error serializing tasks ").concat(c.as_str());
                false
            },
            Err(SaveFailure::Write(c)) => {
                self.error_message = String::from_str("Error saving tasks ").concat(c.as_str());
                false
            },
        }
    }

    /// Takes in what removing the task file gave. A removed or absent file
    /// empties the list; any other failure leaves the tasks as they are and
    /// names the cause in the error to show. Returns whether the list is
    /// now cleared.
    pub fn finish_clear(&mut self, removal: Removal) -> (r: bool)
        requires
            old(self).wf(),
        ensures
            final(self).wf(),
            r == !(removal is Failed),
            match removal {
                Removal::Failed(c) => final(self).tasks == old(self).tasks
                    && final(self).error_message@ == clear_error_text() + c@,
                _ => final(self).view().len() == 0 && final(self).error_message
                    == old(self).error_message,
            },
    {
        match removal {
            Removal::Failed(c) => {
                self.error_message = String::from_str("Error removing tasks ").concat(c.as_str());
                false
            },
            _ => {
                self.tasks = Vec::new();
                proof {
                    assert(self.view() =~= Seq::<TaskView>::empty());
                }
                true
            },
        }
    }
}

/// Whether no two tasks share an id.
fn has_distinct_ids(ts: &Vec<Task>) -> (r: bool)
    ensures
        r == ids_distinct(tasks_view(ts@)),
{
    let mut i: usize = 0;
    while i < ts.len()
        invariant
            i <= ts@.len(),
            forall|a: int, b: int| 0 <= a < b < i ==> #[trigger] ts@[a].id != #[trigger] ts@[b].id,
        decreases ts@.len() - i,
    {
        let mut j: usize = 0;
        while j < i
            invariant
                i < ts@.len(),
                j <= i,
                forall|a: int| 0 <= a < j ==> #[trigger] ts@[a].id != ts@[i as int].id,
            decreases i - j,
        {
            if ts[j].id == ts[i].id {
                proof {
                    let v = tasks_view(ts@);
                    assert(v[j as int].id == v[i as int].id);
                }
                return false;
            }
            j = j + 1;
        }
        i = i + 1;
    }
    proof {
        let v = tasks_view(ts@);
        assert forall|a: int, b: int|
            #![trigger v[a], v[b]]
            0 <= a < v.len() && 0 <= b < v.len() && a != b implies v[a].id != v[b].id by {
            if a < b {
                assert(ts@[a].id != ts@[b].id);
            } else {
                assert(ts@[b].id != ts@[a].id);
            }
        }
    }
    true
}

} // verus!
