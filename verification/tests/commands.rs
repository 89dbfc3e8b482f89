use tempus::repl::task::{add, complete, delete, edit, incomplete, read_id};
use tempus::repl::timer::{delete as delete_timer, end as end_timer};
use tempus::repl::{done_message, read_command, terminal_width, unknown_reply, Command, Plan, StoreOp};

fn reply(p: &Plan) -> Option<&str> {
    match p {
        Plan::Reply(m) => Some(m.as_str()),
        Plan::Store(_) => None,
    }
}

#[test]
fn command_words_are_recognised() {
    assert!(matches!(read_command(":help"), Command::Help));
    assert!(matches!(read_command(":exit"), Command::Exit));
    assert!(matches!(read_command(":quit\n"), Command::Exit));
    assert!(matches!(read_command(":timers"), Command::Timers));
    assert!(matches!(read_command(":tasks"), Command::Tasks));
    assert!(matches!(read_command(":show"), Command::Show));
}

#[test]
fn command_arguments_are_trimmed() {
    match read_command("  :start   write the report  \n") {
        Command::Start(note) => assert_eq!(note, "write the report"),
        other => panic!("unexpected {:?}", other),
    }
    match read_command(":delete 12") {
        Command::Delete(id) => assert_eq!(id, "12"),
        other => panic!("unexpected {:?}", other),
    }
    match read_command(":start") {
        Command::Start(note) => assert_eq!(note, ""),
        other => panic!("unexpected {:?}", other),
    }
}

#[test]
fn task_commands_are_recognised() {
    match read_command(":add Buy milk") {
        Command::Add(name) => assert_eq!(name, "Buy milk"),
        other => panic!("unexpected {:?}", other),
    }
    match read_command(":rename 3 Buy oat milk ") {
        Command::Rename(id, title) => assert_eq!((id.as_str(), title.as_str()), ("3", "Buy oat milk")),
        other => panic!("unexpected {:?}", other),
    }
    match read_command(":rename 3") {
        Command::Rename(id, title) => assert_eq!((id.as_str(), title.as_str()), ("3", "")),
        other => panic!("unexpected {:?}", other),
    }
    match read_command(":complete 4") {
        Command::Complete(id) => assert_eq!(id, "4"),
        other => panic!("unexpected {:?}", other),
    }
    match read_command(":reopen 4") {
        Command::Reopen(id) => assert_eq!(id, "4"),
        other => panic!("unexpected {:?}", other),
    }
}

#[test]
fn end_takes_a_timer_id() {
    match read_command(":end 1") {
        Command::End(id) => assert_eq!(id, "1"),
        other => panic!("unexpected {:?}", other),
    }
    assert!(matches!(end_timer("1"), Plan::Store(StoreOp::EndTimer(1))));
    assert_eq!(reply(&end_timer("")), Some("Usage: :end <timer id>"));
    assert_eq!(reply(&end_timer("0")), Some("Couldn't find timer."));
    assert_eq!(done_message(&StoreOp::EndTimer(1)), "⏱  Timer ended.");
}

#[test]
fn blank_lines_are_blank() {
    assert!(matches!(read_command(""), Command::Blank));
    assert!(matches!(read_command("   \t \n"), Command::Blank));
}

#[test]
fn other_lines_are_unknown() {
    match read_command("  :Help me  ") {
        Command::Unknown(line) => assert_eq!(line, ":Help me"),
        other => panic!("unexpected {:?}", other),
    }
    match read_command(":help\tnow") {
        Command::Unknown(line) => assert_eq!(line, ":help\tnow"),
        other => panic!("unexpected {:?}", other),
    }
    assert_eq!(
        unknown_reply(":nope"),
        vec!["Unknown command: :nope".to_string(), "Type :help for a list of commands.".to_string()]
    );
}

#[test]
fn space_around_a_line_does_not_change_its_command() {
    for line in [":timers", ":start read", ":delete 3", ":add milk", ":rename 2 x", ":end 4", "hello", ""] {
        let padded = format!(" \t{}  \n", line);
        assert_eq!(format!("{:?}", read_command(line)), format!("{:?}", read_command(&padded)));
    }
}

#[test]
fn add_needs_a_title() {
    assert_eq!(reply(&add("   ")), Some("Usage: :add <task name>"));
    match add("  buy milk ") {
        Plan::Store(StoreOp::AddTask(t)) => assert_eq!(t, "buy milk"),
        other => panic!("unexpected {:?}", other),
    }
}

#[test]
fn ids_are_read_after_trimming() {
    assert_eq!(read_id(" 42 "), Some(42));
    assert_eq!(read_id("4 2"), None);
    assert_eq!(read_id(""), None);
}

#[test]
fn complete_checks_its_id() {
    assert_eq!(reply(&complete("abc")), Some("Usage: :complete <task id>"));
    assert_eq!(reply(&complete(" 0")), Some("Couldn't find task with ID:  0"));
    assert_eq!(reply(&complete("-3")), Some("Couldn't find task with ID: -3"));
    assert!(matches!(complete(" 3 "), Plan::Store(StoreOp::CompleteTask(3))));
}

#[test]
fn incomplete_checks_its_id() {
    assert_eq!(reply(&incomplete("x1")), Some("Usage: :reopen <task id>"));
    assert_eq!(reply(&incomplete("0")), Some("Couldn't find task with ID: 0"));
    assert!(matches!(incomplete("9"), Plan::Store(StoreOp::IncompleteTask(9))));
}

#[test]
fn edit_checks_id_then_title() {
    assert_eq!(reply(&edit("one", "x")), Some("Usage: :rename <task id> <new title>"));
    assert_eq!(reply(&edit("0", "x")), Some("Couldn't find task with ID: 0"));
    assert_eq!(reply(&edit("2", "  \t")), Some("New title cannot be empty."));
    match edit("2", " new name ") {
        Plan::Store(StoreOp::EditTask(2, t)) => assert_eq!(t, " new name "),
        other => panic!("unexpected {:?}", other),
    }
}

#[test]
fn delete_checks_its_id() {
    assert_eq!(reply(&delete("?")), Some("Usage: :delete <task id>"));
    assert_eq!(reply(&delete("-1")), Some("Couldn't find task."));
    assert!(matches!(delete("5"), Plan::Store(StoreOp::DeleteTask(5))));
    assert_eq!(reply(&delete_timer("")), Some("Usage: :delete <task id>"));
    assert_eq!(reply(&delete_timer("0")), Some("Couldn't find task."));
    assert!(matches!(delete_timer(" 8"), Plan::Store(StoreOp::DeleteTimer(8))));
}

#[test]
fn each_change_has_its_done_message() {
    assert_eq!(done_message(&StoreOp::AddTask("a".to_string())), "📝  Task added successfully.");
    assert_eq!(done_message(&StoreOp::CompleteTask(1)), "📝  Task marked as completed.");
    assert_eq!(done_message(&StoreOp::IncompleteTask(1)), "📝  Task marked as incomplete.");
    assert_eq!(done_message(&StoreOp::EditTask(1, "b".to_string())), "📝  Task updated.");
    assert_eq!(done_message(&StoreOp::DeleteTask(1)), "📝  Task deleted successfully.");
    assert_eq!(done_message(&StoreOp::DeleteTimer(1)), "⏱  Timer deleted.");
}

#[test]
fn width_defaults_to_eighty() {
    assert_eq!(terminal_width(Some((120, 40))), 120);
    assert_eq!(terminal_width(None), 80);
}
