use vstd::prelude::*;
use crate::datetime::{CivilDateTime, lemma_text_injective};

verus! {

/// One to-do item.
#[derive(Debug)]
pub struct Task {
    pub id: u32,
    pub name: String,
    pub description: String,
    pub date: CivilDateTime,
    pub done: bool,
}

pub struct TaskView {
    pub id: u32,
    pub name: Seq<char>,
    pub description: Seq<char>,
    pub date: CivilDateTime,
    pub done: bool,
}

impl View for Task {
    type V = TaskView;

    open spec fn view(&self) -> TaskView {
        TaskView {
            id: self.id,
            name: self.name@,
            description: self.description@,
            date: self.date,
            done: self.done,
        }
    }
}

impl TaskView {
    /// A positive id, a non-empty name and a valid date.
    pub open spec fn wf(self) -> bool {
        self.id >= 1 && self.name.len() > 0 && self.date.wf()
    }
}

pub open spec fn tasks_view(ts: Seq<Task>) -> Seq<TaskView> {
    ts.map_values(|t: Task| t@)
}

pub open spec fn all_wf(ts: Seq<TaskView>) -> bool {
    forall|i: int| 0 <= i < ts.len() ==> #[trigger] ts[i].wf()
}

/// A task as it is stored: the date as `YYYY-MM-DD HH:MM:SS` text.
#[derive(Debug)]
pub struct TaskRecord {
    pub id: u32,
    pub name: String,
    pub description: String,
    pub date: String,
    pub done: bool,
}

pub struct RecordView {
    pub id: u32,
    pub name: Seq<char>,
    pub description: Seq<char>,
    pub date: Seq<char>,
    pub done: bool,
}

impl View for TaskRecord {
    type V = RecordView;

    open spec fn view(&self) -> RecordView {
        RecordView {
            id: self.id,
            name: self.name@,
            description: self.description@,
            date: self.date@,
            done: self.done,
        }
    }
}

pub open spec fn records_view(rs: Seq<TaskRecord>) -> Seq<RecordView> {
    rs.map_values(|r: TaskRecord| r@)
}

/// Why a stored record does not make a task.
#[derive(Clone, Copy, Debug, PartialEq, Eq, Structural)]
pub enum RecordFault {
    ZeroId,
    EmptyName,
    BadDate,
}

/// A stored collection that does not make a list of tasks: the record at
/// `index` is the first bad one.
#[derive(Clone, Copy, Debug, PartialEq, Eq, Structural)]
pub struct RecordError {
    pub index: usize,
    pub fault: RecordFault,
}

pub open spec fn stored_form(t: TaskView) -> RecordView {
    RecordView {
        id: t.id,
        name: t.name,
        description: t.description,
        date: t.date.text(),
        done: t.done,
    }
}

pub open spec fn is_date_text(s: Seq<char>) -> bool {
    exists|d: CivilDateTime| d.wf() && d.text() == s
}

pub open spec fn date_of_text(s: Seq<char>) -> CivilDateTime {
    choose|d: CivilDateTime| d.wf() && d.text() == s
}

/// The first check that a record fails, if any.
pub open spec fn record_fault(r: RecordView) -> Option<RecordFault> {
    if r.id == 0 {
        Some(RecordFault::ZeroId)
    } else if r.name.len() == 0 {
        Some(RecordFault::EmptyName)
    } else if !is_date_text(r.date) {
        Some(RecordFault::BadDate)
    } else {
        None
    }
}

/// The task that a sound record stands for.
pub open spec fn task_of(r: RecordView) -> TaskView {
    TaskView {
        id: r.id,
        name: r.name,
        description: r.description,
        date: date_of_text(r.date),
        done: r.done,
    }
}

pub open spec fn all_sound(rs: Seq<RecordView>) -> bool {
    forall|i: int| 0 <= i < rs.len() ==> record_fault(#[trigger] rs[i]).is_none()
}

/// The tasks that a stored collection holds; `None` when any record is bad.
pub open spec fn decoded(rs: Seq<RecordView>) -> Option<Seq<TaskView>> {
    if all_sound(rs) {
        Some(rs.map_values(|r: RecordView| task_of(r)))
    } else {
        None
    }
}

impl Task {
    /// The stored form of the task: its date as text.
    pub fn to_stored(&self) -> (r: TaskRecord)
        requires
            self@.wf(),
        ensures
            r@ == stored_form(self@),
    {
        TaskRecord {
            id: self.id,
            name: self.name.clone(),
            description: self.description.clone(),
            date: self.date.format(),
            done: self.done,
        }
    }
}

impl TaskRecord {
    /// The task that this record stores, or the first check it fails.
    pub fn to_task(&self) -> (r: Result<Task, RecordFault>)
        ensures
            match r {
                Ok(t) => record_fault(self@).is_none() && t@ == task_of(self@) && t@.wf(),
                Err(f) => record_fault(self@) == Some(f),
            },
    {
        if self.id == 0 {
            return Err(RecordFault::ZeroId);
        }
        if self.name.as_str().unicode_len() == 0 {
            return Err(RecordFault::EmptyName);
        }
        match CivilDateTime::parse(self.date.as_str()) {
            Ok(d) => {
                proof {
                    let c = date_of_text(self.date@);
                    lemma_text_injective(c, d);
                }
                Ok(
                    Task {
                        id: self.id,
                        name: self.name.clone(),
                        description: self.description.clone(),
                        date: d,
                        done: self.done,
                    },
                )
            },
            Err(_) => Err(RecordFault::BadDate),
        }
    }
}

/// The records that store a list of tasks, in its order.
pub fn encode_tasks(ts: &Vec<Task>) -> (r: Vec<TaskRecord>)
    requires
        all_wf(tasks_view(ts@)),
    ensures
        records_view(r@) == tasks_view(ts@).map_values(|t: TaskView| stored_form(t)),
{
    let mut r: Vec<TaskRecord> = Vec::new();
    let mut i: usize = 0;
    while i < ts.len()
        invariant
            i <= ts@.len(),
            all_wf(tasks_view(ts@)),
            r@.len() == i,
            forall|k: int| 0 <= k < i ==> #[trigger] r@[k]@ == stored_form(ts@[k]@),
        decreases ts@.len() - i,
    {
        assert(tasks_view(ts@)[i as int].wf());
        let rec = ts[i].to_stored();
        r.push(rec);
        i = i + 1;
    }
    assert(records_view(r@) =~= tasks_view(ts@).map_values(|t: TaskView| stored_form(t)));
    r
}

/// The tasks that a stored collection holds, all of them or none: the first
/// bad record makes the whole collection unreadable.
pub fn decode_tasks(rs: &Vec<TaskRecord>) -> (r: Result<Vec<Task>, RecordError>)
    ensures
        match r {
            Ok(ts) => decoded(records_view(rs@)) == Some(tasks_view(ts@)),
            Err(e) => {
                &&& decoded(records_view(rs@)).is_none()
                &&& e.index < rs@.len()
                &&& all_sound(records_view(rs@).subrange(0, e.index as int))
                &&& record_fault(rs@[e.index as int]@) == Some(e.fault)
            },
        },
{
    let mut ts: Vec<Task> = Vec::new();
    let mut i: usize = 0;
    while i < rs.len()
        invariant
            i <= rs@.len(),
            ts@.len() == i,
            forall|k: int| 0 <= k < i ==> record_fault(#[trigger] rs@[k]@).is_none(),
            forall|k: int| 0 <= k < i ==> #[trigger] ts@[k]@ == task_of(rs@[k]@),
        decreases rs@.len() - i,
    {
        match rs[i].to_task() {
            Ok(t) => {
                ts.push(t);
                i = i + 1;
            },
            Err(f) => {
                assert(records_view(rs@)[i as int] == rs@[i as int]@);
                assert(!all_sound(records_view(rs@)));
                assert forall|k: int| 0 <= k < i implies record_fault(
                    #[trigger] records_view(rs@).subrange(0, i as int)[k],
                ).is_none() by {
                    assert(records_view(rs@).subrange(0, i as int)[k] == rs@[k]@);
                }
                return Err(RecordError { index: i, fault: f });
            },
        }
    }
    assert(all_sound(records_view(rs@)));
    assert(tasks_view(ts@) =~= records_view(rs@).map_values(|r: RecordView| task_of(r)));
    Ok(ts)
}

/// Storing a list of valid tasks and reading it back gives the same list, in
/// the same order, with the same ids, names, descriptions, dates and flags.
pub proof fn lemma_stored_round_trip(ts: Seq<TaskView>)
    requires
        all_wf(ts),
    ensures
        decoded(ts.map_values(|t: TaskView| stored_form(t))) == Some(ts),
{
    let rs = ts.map_values(|t: TaskView| stored_form(t));
    assert forall|i: int| 0 <= i < rs.len() implies record_fault(#[trigger] rs[i]).is_none()
        && task_of(rs[i]) == ts[i] by {
        assert(ts[i].wf());
        assert(is_date_text(rs[i].date));
        lemma_text_injective(date_of_text(rs[i].date), ts[i].date);
    }
    assert(rs.map_values(|r: RecordView| task_of(r)) =~= ts);
}

/// Every task that a stored collection holds is valid.
pub proof fn lemma_decoded_wf(rs: Seq<RecordView>)
    requires
        decoded(rs) is Some,
    ensures
        all_wf(decoded(rs)->0),
{
    let ts = decoded(rs)->0;
    assert forall|i: int| 0 <= i < ts.len() implies #[trigger] ts[i].wf() by {
        assert(record_fault(rs[i]).is_none());
        assert(is_date_text(rs[i].date));
    }
}

} // verus!
