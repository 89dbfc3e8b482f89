//! The command loop: what a typed line asks for, and what each command does
//! before and after it touches the database.

pub mod task;
pub mod timer;

use vstd::prelude::*;
use crate::text::{
    after_first_space, before_first_space, push_text, split_first_space, text_eq, text_of, trim,
    trimmed,
};

verus! {

/// A command typed at the prompt.
#[derive(Debug)]
pub enum Command {
    /// `:help`
    Help,
    /// `:exit` or `:quit`
    Exit,
    /// `:tasks`
    Tasks,
    /// `:add <task name>`
    Add(String),
    /// `:rename <task id> <new name>`: the id, and the rest of the argument
    Rename(String, String),
    /// `:complete <task id>`
    Complete(String),
    /// `:reopen <task id>`
    Reopen(String),
    /// `:timers`
    Timers,
    /// `:start <note>`
    Start(String),
    /// `:end <timer id>`
    End(String),
    /// `:delete <timer id>`
    Delete(String),
    /// `:show`
    Show,
    /// an empty line
    Blank,
    /// anything else: the whole line, trimmed
    Unknown(String),
}

/// The first word of a line: the trimmed line up to its first space.
pub open spec fn command_word(input: Seq<char>) -> Seq<char> {
    before_first_space(trimmed(input))
}

/// The argument of a line: what follows the first space of the trimmed line,
/// trimmed, or nothing.
pub open spec fn command_arg(input: Seq<char>) -> Seq<char> {
    match after_first_space(trimmed(input)) {
        Some(rest) => trimmed(rest),
        None => Seq::empty(),
    }
}

/// What follows the first space of `s`, or nothing.
pub open spec fn rest_after_space(s: Seq<char>) -> Seq<char> {
    match after_first_space(s) {
        Some(rest) => rest,
        None => Seq::empty(),
    }
}

/// `c` is the command that the line `input` asks for. `:delete` removes a
/// timer; deleting a task has no word of its own at the prompt.
pub open spec fn is_command_for(c: Command, input: Seq<char>) -> bool {
    let w = command_word(input);
    let a = command_arg(input);
    if w == ":help"@ {
        c is Help
    } else if w == ":exit"@ || w == ":quit"@ {
        c is Exit
    } else if w == ":tasks"@ {
        c is Tasks
    } else if w == ":add"@ {
        c matches Command::Add(x) && x@ == a
    } else if w == ":rename"@ {
        c matches Command::Rename(i, t) && i@ == before_first_space(a) && t@ == rest_after_space(a)
    } else if w == ":complete"@ {
        c matches Command::Complete(x) && x@ == a
    } else if w == ":reopen"@ {
        c matches Command::Reopen(x) && x@ == a
    } else if w == ":timers"@ {
        c is Timers
    } else if w == ":start"@ {
        c matches Command::Start(x) && x@ == a
    } else if w == ":end"@ {
        c matches Command::End(x) && x@ == a
    } else if w == ":delete"@ {
        c matches Command::Delete(x) && x@ == a
    } else if w == ":show"@ {
        c is Show
    } else if w.len() == 0 {
        c is Blank
    } else {
        c matches Command::Unknown(x) && x@ == trimmed(input)
    }
}

/// White space around a line does not change the command it asks for.
pub proof fn lemma_command_ignores_outer_space(c: Command, input: Seq<char>)
    ensures
        is_command_for(c, input) <==> is_command_for(c, trimmed(input)),
{
    crate::text::lemma_trimmed_idempotent(input);
}

/// The command that a line typed at the prompt asks for.
pub fn read_command(input: &str) -> (c: Command)
    ensures
        is_command_for(c, input@),
{
    let line = trim(input);
    let (word, rest) = split_first_space(line.as_str());
    let arg = match rest {
        Some(r) => trim(r.as_str()),
        None => String::new(),
    };
    let w = word.as_str();
    if text_eq(w, ":help") {
        Command::Help
    } else if text_eq(w, ":exit") || text_eq(w, ":quit") {
        Command::Exit
    } else if text_eq(w, ":tasks") {
        Command::Tasks
    } else if text_eq(w, ":add") {
        Command::Add(arg)
    } else if text_eq(w, ":rename") {
        let (id, rest) = split_first_space(arg.as_str());
        let title = match rest {
            Some(t) => t,
            None => String::new(),
        };
        Command::Rename(id, title)
    } else if text_eq(w, ":complete") {
        Command::Complete(arg)
    } else if text_eq(w, ":reopen") {
        Command::Reopen(arg)
    } else if text_eq(w, ":timers") {
        Command::Timers
    } else if text_eq(w, ":start") {
        Command::Start(arg)
    } else if text_eq(w, ":end") {
        Command::End(arg)
    } else if text_eq(w, ":delete") {
        Command::Delete(arg)
    } else if text_eq(w, ":show") {
        Command::Show
    } else if w.unicode_len() == 0 {
        Command::Blank
    } else {
        Command::Unknown(line)
    }
}

/// The two lines answered to an unknown command.
pub fn unknown_reply(line: &str) -> (out: Vec<String>)
    ensures
        out@.len() == 2,
        out@[0]@ == "Unknown command: "@ + line@,
        out@[1]@ == "Type :help for a list of commands."@,
{
    let mut first = text_of("Unknown command: ");
    push_text(&mut first, line);
    let mut out = Vec::new();
    out.push(first);
    out.push(text_of("Type :help for a list of commands."));
    out
}

/// The width that lines are laid out in: the terminal's column count where
/// its size is known, else 80.
pub fn terminal_width(size: Option<(u16, u16)>) -> (w: usize)
    ensures
        w == (match size {
            Some((cols, _)) => cols as usize,
            None => 80,
        }),
{
    match size {
        Some((cols, _)) => cols as usize,
        None => 80,
    }
}

/// A change to the database that a command asks for.
#[derive(Debug)]
pub enum StoreOp {
    /// insert a task with this title
    AddTask(String),
    /// mark the task with this id done
    CompleteTask(i64),
    /// mark the task with this id not done
    IncompleteTask(i64),
    /// give the task with this id this title
    EditTask(i64, String),
    /// remove the task with this id
    DeleteTask(i64),
    /// end the timer with this id, if it is running
    EndTimer(i64),
    /// remove the timer with this id
    DeleteTimer(i64),
}

/// What a command does with its argument: answer with a line and store
/// nothing, or make a change to the database.
#[derive(Debug)]
pub enum Plan {
    Reply(String),
    Store(StoreOp),
}

/// `p` answers with exactly the line `text` and stores nothing.
pub open spec fn replies(p: Plan, text: Seq<char>) -> bool {
    p matches Plan::Reply(m) && m@ == text
}

/// The line shown once a change is made.
pub open spec fn done_text(op: StoreOp) -> Seq<char> {
    match op {
        StoreOp::AddTask(_) => "📝  Task added successfully."@,
        StoreOp::CompleteTask(_) => "📝  Task marked as completed."@,
        StoreOp::IncompleteTask(_) => "📝  Task marked as incomplete."@,
        StoreOp::EditTask(_, _) => "📝  Task updated."@,
        StoreOp::DeleteTask(_) => "📝  Task deleted successfully."@,
        StoreOp::EndTimer(_) => "⏱  Timer ended."@,
        StoreOp::DeleteTimer(_) => "⏱  Timer deleted."@,
    }
}

/// The line shown once the change `op` is made.
pub fn done_message(op: &StoreOp) -> (m: String)
    ensures
        m@ == done_text(*op),
{
    match op {
        StoreOp::AddTask(_) => text_of("📝  Task added successfully."),
        StoreOp::CompleteTask(_) => text_of("📝  Task marked as completed."),
        StoreOp::IncompleteTask(_) => text_of("📝  Task marked as incomplete."),
        StoreOp::EditTask(_, _) => text_of("📝  Task updated."),
        StoreOp::DeleteTask(_) => text_of("📝  Task deleted successfully."),
        StoreOp::EndTimer(_) => text_of("⏱  Timer ended."),
        StoreOp::DeleteTimer(_) => text_of("⏱  Timer deleted."),
    }
}

/// The argument of a command is the whole rest of the line after its word and
/// one space, trimmed and otherwise unchanged; for `:rename`, that rest is the
/// id (a text without spaces), then a space and the new title, or the id alone.
pub proof fn lemma_command_argument(c: Command, input: Seq<char>, word: Seq<char>, rest: Seq<char>)
    requires
        is_command_for(c, input),
        trimmed(input) == word + seq![' '] + rest,
        word == ":start"@ || word == ":add"@ || word == ":complete"@ || word == ":reopen"@ || word
            == ":end"@ || word == ":delete"@ || word == ":rename"@,
    ensures
        word == ":start"@ ==> (c matches Command::Start(x) && x@ == trimmed(rest)),
        word == ":add"@ ==> (c matches Command::Add(x) && x@ == trimmed(rest)),
        word == ":complete"@ ==> (c matches Command::Complete(x) && x@ == trimmed(rest)),
        word == ":reopen"@ ==> (c matches Command::Reopen(x) && x@ == trimmed(rest)),
        word == ":end"@ ==> (c matches Command::End(x) && x@ == trimmed(rest)),
        word == ":delete"@ ==> (c matches Command::Delete(x) && x@ == trimmed(rest)),
        word == ":rename"@ ==> (c matches Command::Rename(i, t) && (forall|j: int|
            0 <= j < i@.len() ==> i@[j] != ' ') && ((trimmed(rest) == i@ && t@.len() == 0)
            || trimmed(rest) == i@ + seq![' '] + t@)),
{
    reveal_strlit(":help");
    reveal_strlit(":exit");
    reveal_strlit(":quit");
    reveal_strlit(":tasks");
    reveal_strlit(":add");
    reveal_strlit(":rename");
    reveal_strlit(":complete");
    reveal_strlit(":reopen");
    reveal_strlit(":timers");
    reveal_strlit(":start");
    reveal_strlit(":end");
    reveal_strlit(":delete");
    reveal_strlit(":show");
    assert(":start"@[1] != ":tasks"@[1]);
    assert(":end"@[1] != ":add"@[1]);
    assert(":reopen"@[3] != ":rename"@[3]);
    assert(":reopen"@[1] != ":timers"@[1]);
    assert(":reopen"@[1] != ":delete"@[1]);
    assert(":delete"@[1] != ":rename"@[1]);
    assert(":delete"@[1] != ":timers"@[1]);
    assert(":rename"@[1] != ":timers"@[1]);
    assert(forall|j: int| 0 <= j < word.len() ==> word[j] != ' ');
    crate::text::lemma_split_after_word(word, rest);
    assert(command_word(input) == word);
    assert(command_arg(input) == trimmed(rest));
    if word == ":rename"@ {
        lemma_rename_split(trimmed(rest));
    }
}

proof fn lemma_rename_split(a: Seq<char>)
    ensures
        forall|j: int| 0 <= j < before_first_space(a).len() ==> before_first_space(a)[j] != ' ',
        (a == before_first_space(a) && rest_after_space(a).len() == 0) || a == before_first_space(a)
            + seq![' '] + rest_after_space(a),
    decreases a.len(),
{
    if a.len() > 0 && a[0] != ' ' {
        let t = a.drop_first();
        lemma_rename_split(t);
        assert(before_first_space(a) == seq![a[0]] + before_first_space(t));
        assert(rest_after_space(a) == rest_after_space(t));
        if t == before_first_space(t) && rest_after_space(t).len() == 0 {
            assert(a =~= seq![a[0]] + t);
        } else {
            assert(a =~= seq![a[0]] + (before_first_space(t) + seq![' '] + rest_after_space(t)));
        }
    } else if a.len() > 0 {
        assert(a =~= Seq::<char>::empty() + seq![' '] + a.drop_first());
    }
}

} // verus!
