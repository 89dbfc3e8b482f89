//! Tasks as the database holds them, and the tasks read from them.

use vstd::prelude::*;
use crate::models::task::Task;
use crate::storage::{BadTime, TimeField};
use crate::time::{parse_rfc3339, parsed_instant, rfc3339_parse};

verus! {

/// A row of the `tasks` table: the creation time is the stored text.
#[derive(Debug)]
pub struct TaskRow {
    pub id: i64,
    pub title: String,
    pub created_at: String,
    pub completed: bool,
}

/// The task that a row holds, where its creation time parses.
pub open spec fn task_of_row(row: TaskRow) -> Option<Task> {
    match parsed_instant(row.created_at@) {
        Some(at) => Some(Task { id: row.id, title: row.title, created_at: at, completed: row.completed }),
        None => None,
    }
}

/// `t` is the task inserted under `id` with `title`, created at the instant
/// that `created_text` denotes, and not done.
pub open spec fn task_added(t: Task, id: i64, title: Seq<char>, created_text: Seq<char>) -> bool {
    &&& t.id == id
    &&& t.title@ == title
    &&& Some(t.created_at) == parsed_instant(created_text)
    &&& !t.completed
}

/// The task just inserted under `id`, with the creation time read back from
/// the text it was stored with; the error is the parser's where that text does
/// not parse.
pub fn add_task(id: i64, title: &str, created_text: &str) -> (r: Result<Task, chrono::ParseError>)
    ensures
        r is Ok <==> parsed_instant(created_text@) is Some,
        r matches Err(e) ==> rfc3339_parse(created_text@) == Err::<(i64, u32), chrono::ParseError>(e),
        r matches Ok(t) ==> task_added(t, id, title@, created_text@),
{
    match parse_rfc3339(created_text) {
        Ok(at) => {
            let mut owned = String::new();
            crate::text::push_text(&mut owned, title);
            Ok(Task::new(id, owned, at, false))
        },
        Err(e) => Err(e),
    }
}

/// Whether the creation time of a row parses.
pub open spec fn task_row_parses(row: TaskRow) -> bool {
    parsed_instant(row.created_at@) is Some
}

/// The first row whose creation time does not parse, with the parser's error
/// on its text; `None` where every creation time parses.
pub fn first_bad_task_time(rows: &Vec<TaskRow>) -> (r: Option<BadTime>)
    ensures
        r is None <==> (forall|i: int| 0 <= i < rows@.len() ==> task_row_parses(#[trigger] rows@[i])),
        r matches Some(e) ==> exists|i: int|
            {
                &&& 0 <= i < rows@.len()
                &&& !task_row_parses(#[trigger] rows@[i])
                &&& forall|j: int| 0 <= j < i ==> task_row_parses(#[trigger] rows@[j])
                &&& e.id == rows@[i].id
                &&& e.field == TimeField::CreatedAt
                &&& e.text@ == rows@[i].created_at@
            },
        r matches Some(e) ==> rfc3339_parse(e.text@) == Err::<(i64, u32), chrono::ParseError>(e.error),
{
    let mut i: usize = 0;
    while i < rows.len()
        invariant
            i <= rows@.len(),
            forall|j: int| 0 <= j < i ==> task_row_parses(#[trigger] rows@[j]),
        decreases rows.len() - i,
    {
        let row = &rows[i];
        match parse_rfc3339(row.created_at.as_str()) {
            Ok(_) => {},
            Err(e) => {
                return Some(
                    BadTime { id: row.id, field: TimeField::CreatedAt, text: row.created_at.clone(), error: e },
                );
            },
        }
        i = i + 1;
    }
    None
}

/// The tasks that the rows hold, in order; every creation time must parse.
pub fn get_tasks(rows: &Vec<TaskRow>) -> (tasks: Vec<Task>)
    requires
        forall|i: int| 0 <= i < rows@.len() ==> task_row_parses(#[trigger] rows@[i]),
    ensures
        tasks@.len() == rows@.len(),
        forall|i: int| 0 <= i < rows@.len() ==> Some(#[trigger] tasks@[i]) == task_of_row(rows@[i]),
{
    let mut tasks: Vec<Task> = Vec::new();
    let mut i: usize = 0;
    while i < rows.len()
        invariant
            i <= rows@.len(),
            tasks@.len() == i,
            forall|j: int| 0 <= j < rows@.len() ==> task_row_parses(#[trigger] rows@[j]),
            forall|j: int| 0 <= j < i ==> Some(#[trigger] tasks@[j]) == task_of_row(rows@[j]),
        decreases rows.len() - i,
    {
        let row = &rows[i];
        assert(task_row_parses(rows@[i as int]));
        if let Ok(at) = parse_rfc3339(row.created_at.as_str()) {
            tasks.push(Task::new(row.id, row.title.clone(), at, row.completed));
        }
        i = i + 1;
    }
    tasks
}

/// The tasks that the rows hold, in order, where every creation time parses;
/// else the first row whose creation time does not, which the tool cannot show.
pub fn try_get_tasks(rows: &Vec<TaskRow>) -> (r: Result<Vec<Task>, BadTime>)
    ensures
        r is Ok <==> (forall|i: int| 0 <= i < rows@.len() ==> task_row_parses(#[trigger] rows@[i])),
        r matches Ok(tasks) ==> {
            &&& tasks@.len() == rows@.len()
            &&& forall|i: int| 0 <= i < rows@.len() ==> Some(#[trigger] tasks@[i]) == task_of_row(rows@[i])
        },
        r matches Err(e) ==> exists|i: int|
            {
                &&& 0 <= i < rows@.len()
                &&& !task_row_parses(#[trigger] rows@[i])
                &&& forall|j: int| 0 <= j < i ==> task_row_parses(#[trigger] rows@[j])
                &&& e.id == rows@[i].id
                &&& e.field == TimeField::CreatedAt
                &&& e.text@ == rows@[i].created_at@
            },
        r matches Err(e) ==> rfc3339_parse(e.text@) == Err::<(i64, u32), chrono::ParseError>(e.error),
{
    match first_bad_task_time(rows) {
        Some(e) => Err(e),
        None => Ok(get_tasks(rows)),
    }
}

/// Two tasks with the same id, the same title text, the same creation
/// instant and the same state.
pub open spec fn same_task(a: Task, b: Task) -> bool {
    &&& a.id == b.id
    &&& a.title@ == b.title@
    &&& a.created_at == b.created_at
    &&& a.completed == b.completed
}

/// `row` is the row that the insert of a task writes: its id, its title, the
/// creation text it was stored with, and not done.
pub open spec fn stored_row(row: TaskRow, id: i64, title: Seq<char>, created_text: Seq<char>) -> bool {
    &&& row.id == id
    &&& row.title@ == title
    &&& row.created_at@ == created_text
    &&& !row.completed
}

/// A task added and then read back from the row stored for it is the same task.
pub proof fn lemma_stored_task_reads_back(
    t: Task,
    id: i64,
    title: Seq<char>,
    created_text: Seq<char>,
    row: TaskRow,
)
    requires
        task_added(t, id, title, created_text),
        stored_row(row, id, title, created_text),
    ensures
        task_row_parses(row),
        task_of_row(row) matches Some(u) && same_task(u, t),
{
}

/// Reading back a table whose only row with the added task's id is the row
/// stored for it lists that task once: at that row, the same task; elsewhere,
/// tasks with other ids.
pub proof fn lemma_added_task_listed(
    t: Task,
    id: i64,
    title: Seq<char>,
    created_text: Seq<char>,
    rows: Seq<TaskRow>,
    tasks: Seq<Task>,
    k: int,
)
    requires
        task_added(t, id, title, created_text),
        0 <= k < rows.len(),
        stored_row(rows[k], id, title, created_text),
        forall|i: int| 0 <= i < rows.len() && i != k ==> (#[trigger] rows[i]).id != id,
        tasks.len() == rows.len(),
        forall|i: int| 0 <= i < rows.len() ==> Some(#[trigger] tasks[i]) == task_of_row(rows[i]),
    ensures
        same_task(tasks[k], t),
        forall|i: int| 0 <= i < tasks.len() && i != k ==> (#[trigger] tasks[i]).id != t.id,
{
    assert(Some(tasks[k]) == task_of_row(rows[k]));
    assert forall|i: int| 0 <= i < tasks.len() && i != k implies (#[trigger] tasks[i]).id != t.id by {
        assert(Some(tasks[i]) == task_of_row(rows[i]));
        assert(rows[i].id != id);
    }
}

} // verus!
