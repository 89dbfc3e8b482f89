//! The task commands: `:tasks`, `:add`, `:complete`, `:reopen`, `:rename`,
//! and the deletion of a task (the prompt's `:delete` removes a timer).

use vstd::prelude::*;
use crate::models::task::Task;
use crate::repl::{replies, Plan, StoreOp};
use crate::text::{
    i64_of_text, i64_to_text, int_text, lemma_int_text_short, parse_i64, push_repeated, push_text, spaces, text_of, trim,
    trimmed,
};

verus! {

/// The id that an argument gives: the trimmed argument read as an `i64`.
pub open spec fn id_of_arg(arg: Seq<char>) -> Option<i64> {
    i64_of_text(trimmed(arg))
}

/// Reads an id argument.
pub fn read_id(arg: &str) -> (id: Option<i64>)
    ensures
        id == id_of_arg(arg@),
{
    let t = trim(arg);
    parse_i64(t.as_str())
}

/// `:add <title>`: adds a task titled with the trimmed argument, unless that is empty.
pub fn add(arg: &str) -> (p: Plan)
    ensures
        trimmed(arg@).len() == 0 ==> replies(p, "Usage: :add <task name>"@),
        trimmed(arg@).len() > 0 ==> (p matches Plan::Store(StoreOp::AddTask(title)) && title@
            == trimmed(arg@)),
{
    let title = trim(arg);
    if title.as_str().unicode_len() == 0 {
        Plan::Reply(text_of("Usage: :add <task name>"))
    } else {
        Plan::Store(StoreOp::AddTask(title))
    }
}

/// The line answered where no task has the id given.
pub open spec fn no_task_with_id(arg: Seq<char>) -> Seq<char> {
    "Couldn't find task with ID: "@ + arg
}

fn no_task_with_id_message(arg: &str) -> (m: String)
    ensures
        m@ == no_task_with_id(arg@),
{
    let mut m = text_of("Couldn't find task with ID: ");
    push_text(&mut m, arg);
    m
}

/// `:complete <id>`: marks the task with that id done.
pub fn complete(id: &str) -> (p: Plan)
    ensures
        match id_of_arg(id@) {
            None => replies(p, "Usage: :complete <task id>"@),
            Some(v) => if v <= 0 {
                replies(p, no_task_with_id(id@))
            } else {
                p == Plan::Store(StoreOp::CompleteTask(v))
            },
        },
{
    match read_id(id) {
        None => Plan::Reply(text_of("Usage: :complete <task id>")),
        Some(v) => if v <= 0 {
            Plan::Reply(no_task_with_id_message(id))
        } else {
            Plan::Store(StoreOp::CompleteTask(v))
        },
    }
}

/// `:reopen <id>`: marks the task with that id not done.
pub fn incomplete(id: &str) -> (p: Plan)
    ensures
        match id_of_arg(id@) {
            None => replies(p, "Usage: :reopen <task id>"@),
            Some(v) => if v <= 0 {
                replies(p, no_task_with_id(id@))
            } else {
                p == Plan::Store(StoreOp::IncompleteTask(v))
            },
        },
{
    match read_id(id) {
        None => Plan::Reply(text_of("Usage: :reopen <task id>")),
        Some(v) => if v <= 0 {
            Plan::Reply(no_task_with_id_message(id))
        } else {
            Plan::Store(StoreOp::IncompleteTask(v))
        },
    }
}

/// `:rename <id> <title>`: gives the task with that id the new title, as
/// typed, unless the title is blank.
pub fn edit(id: &str, new_title: &str) -> (p: Plan)
    ensures
        match id_of_arg(id@) {
            None => replies(p, "Usage: :rename <task id> <new title>"@),
            Some(v) => if v <= 0 {
                replies(p, no_task_with_id(id@))
            } else if trimmed(new_title@).len() == 0 {
                replies(p, "New title cannot be empty."@)
            } else {
                p matches Plan::Store(StoreOp::EditTask(i, t)) && i == v && t@ == new_title@
            },
        },
{
    match read_id(id) {
        None => Plan::Reply(text_of("Usage: :rename <task id> <new title>")),
        Some(v) => if v <= 0 {
            Plan::Reply(no_task_with_id_message(id))
        } else {
            let t = trim(new_title);
            if t.as_str().unicode_len() == 0 {
                Plan::Reply(text_of("New title cannot be empty."))
            } else {
                Plan::Store(StoreOp::EditTask(v, text_of(new_title)))
            }
        },
    }
}

/// `:delete <id>`: removes the task with that id.
pub fn delete(id: &str) -> (p: Plan)
    ensures
        match id_of_arg(id@) {
            None => replies(p, "Usage: :delete <task id>"@),
            Some(v) => if v <= 0 {
                replies(p, "Couldn't find task."@)
            } else {
                p == Plan::Store(StoreOp::DeleteTask(v))
            },
        },
{
    match read_id(id) {
        None => Plan::Reply(text_of("Usage: :delete <task id>")),
        Some(v) => if v <= 0 {
            Plan::Reply(text_of("Couldn't find task."))
        } else {
            Plan::Store(StoreOp::DeleteTask(v))
        },
    }
}

/// The spaces between the two ends of a listed line: what is left of the
/// width once both ends are written, or none.
pub open spec fn gap(width: nat, left: Seq<char>, right: Seq<char>) -> nat {
    if left.len() + right.len() < width {
        (width - left.len() - right.len()) as nat
    } else {
        0
    }
}

/// A listed line: `left` at the start, `right` at the end of the width.
pub open spec fn spread(width: nat, left: Seq<char>, right: Seq<char>) -> Seq<char> {
    left + spaces(gap(width, left, right)) + right
}

/// The line listing a task: a check box, the title, and the id at the right
/// end of the width.
pub open spec fn task_line(t: Task, width: nat) -> Seq<char> {
    let mark = if t.completed { "✓"@ } else { " "@ };
    spread(width, "["@ + mark + "] "@ + t.title@, "id: "@ + int_text(t.id as int))
}

/// Builds `left + gap + right` laid out in `width`.
pub fn spread_line(width: usize, left: &str, right: &str) -> (line: String)
    requires
        left@.len() + right@.len() <= usize::MAX,
    ensures
        line@ == spread(width as nat, left@, right@),
{
    let used = left.unicode_len() + right.unicode_len();
    let pad = if used < width { width - used } else { 0 };
    let mut line = text_of(left);
    push_repeated(&mut line, ' ', pad);
    push_text(&mut line, right);
    assert(crate::text::repeated(' ', pad as nat) == spaces(pad as nat));
    line
}

/// The longest title the list lays out: a line's two ends must be countable.
pub open spec fn listable_title(title: Seq<char>) -> bool {
    title.len() + 32 <= usize::MAX
}

/// The lines of the task list laid out in `width`: one per task, in order,
/// or a single line saying there are none.
pub fn list(tasks: &Vec<Task>, width: usize) -> (lines: Vec<String>)
    requires
        forall|i: int| 0 <= i < tasks@.len() ==> listable_title(#[trigger] tasks@[i].title@),
    ensures
        tasks@.len() == 0 ==> lines@.len() == 1 && lines@[0]@ == "📝  No tasks found."@,
        tasks@.len() > 0 ==> {
            &&& lines@.len() == tasks@.len()
            &&& forall|i: int| 0 <= i < tasks@.len() ==> (#[trigger] lines@[i])@ == task_line(tasks@[i], width as nat)
        },
{
    let mut lines: Vec<String> = Vec::new();
    if tasks.len() == 0 {
        lines.push(text_of("📝  No tasks found."));
        return lines;
    }
    let mut i: usize = 0;
    while i < tasks.len()
        invariant
            i <= tasks@.len(),
            lines@.len() == i,
            forall|j: int| 0 <= j < tasks@.len() ==> listable_title(#[trigger] tasks@[j].title@),
            forall|j: int| 0 <= j < i ==> (#[trigger] lines@[j])@ == task_line(tasks@[j], width as nat),
        decreases tasks.len() - i,
    {
        let t = &tasks[i];
        let mut left = if t.completed { text_of("[✓] ") } else { text_of("[ ] ") };
        proof {
            reveal_strlit("[✓] ");
            reveal_strlit("[ ] ");
            reveal_strlit("[");
            reveal_strlit("✓");
            reveal_strlit(" ");
            reveal_strlit("] ");
        }
        push_text(&mut left, t.title.as_str());
        let mut right = text_of("id: ");
        let digits = i64_to_text(t.id);
        push_text(&mut right, digits.as_str());
        proof {
            reveal_strlit("id: ");
            lemma_int_text_short(t.id as int);
        }
        let line = spread_line(width, left.as_str(), right.as_str());
        lines.push(line);
        i = i + 1;
    }
    lines
}

/// A spread line holds `left` at the start, `right` at the end and only
/// spaces between, and it is as long as the width or as both ends together,
/// whichever is longer.
pub proof fn lemma_spread_shape(width: nat, left: Seq<char>, right: Seq<char>)
    ensures
        spread(width, left, right).len() == (if left.len() + right.len() < width {
            width as int
        } else {
            left.len() + right.len() as int
        }),
        spread(width, left, right).take(left.len() as int) == left,
        spread(width, left, right).skip(spread(width, left, right).len() - right.len()) == right,
        forall|i: int|
            left.len() <= i < spread(width, left, right).len() - right.len() ==> #[trigger] spread(
                width,
                left,
                right,
            )[i] == ' ',
{
    let line = spread(width, left, right);
    let gap_text = spaces(gap(width, left, right));
    assert(line.take(left.len() as int) =~= left);
    assert(line.skip(line.len() - right.len()) =~= right);
    assert forall|i: int| left.len() <= i < line.len() - right.len() implies #[trigger] line[i] == ' ' by {
        assert(line[i] == gap_text[i - left.len()]);
    }
}

/// A listed task line starts with its check box and its whole title, ends
/// with `id: ` and its id, and has only spaces between.
pub proof fn lemma_task_line_shape(t: Task, width: nat)
    ensures
        ({
            let line = task_line(t, width);
            let left = (if t.completed { "[✓] "@ } else { "[ ] "@ }) + t.title@;
            let right = "id: "@ + int_text(t.id as int);
            &&& line.take(left.len() as int) == left
            &&& line.skip(line.len() - right.len()) == right
            &&& forall|i: int| left.len() <= i < line.len() - right.len() ==> #[trigger] line[i] == ' '
            &&& line.len() == (if left.len() + right.len() < width {
                width as int
            } else {
                left.len() + right.len() as int
            })
        }),
{
    reveal_strlit("[✓] ");
    reveal_strlit("[ ] ");
    reveal_strlit("[");
    reveal_strlit("✓");
    reveal_strlit(" ");
    reveal_strlit("] ");
    let mark = if t.completed { "✓"@ } else { " "@ };
    let left = (if t.completed { "[✓] "@ } else { "[ ] "@ }) + t.title@;
    assert("["@ + mark + "] "@ + t.title@ =~= left);
    lemma_spread_shape(width, left, "id: "@ + int_text(t.id as int));
}

} // verus!
