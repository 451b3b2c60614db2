use bolt::command::Command;
use bolt::entry::Entry;
use bolt::executor::{Executor, ReplControl};
use bolt::output::ReplOutput;
use bolt::repl::{Core, Key};
use bolt::store::Store;
use bolt::time::Timestamp;

fn at(secs: u64) -> Option<Timestamp> {
    Some(Timestamp::new(secs, 0))
}

fn type_line(core: &mut Core, line: &str, now: Option<Timestamp>) -> ReplControl {
    for c in line.chars() {
        assert_eq!(core.handle_key_at(Key::Char(c), now), ReplControl::Continue);
    }
    core.handle_key_at(Key::Enter, now)
}

#[test]
fn output_collects_text_and_lines() {
    let mut out = ReplOutput::new();
    out.repl_write("ab");
    out.repl_write_line("cd");
    out.repl_write_line("");
    assert_eq!(out.take(), "abcd\n\n");
    assert_eq!(out.take(), "");
}

#[test]
fn executor_reports_lookups() {
    let exec = Executor::new();
    let mut store = Store::new();
    let mut out = ReplOutput::new();
    let put = Command::Put("a".to_string(), "1".to_string(), Some(1));
    assert_eq!(exec.execute_command_at(&put, &mut store, &mut out, at(10)), ReplControl::Continue);
    assert_eq!(out.take(), "");
    let get = Command::Get("a".to_string());
    exec.execute_command_at(&get, &mut store, &mut out, at(11));
    assert_eq!(out.take(), "\rValue: 1\n");
    exec.execute_command_at(&Command::Keys, &mut store, &mut out, at(12));
    assert_eq!(out.take(), "\ra\n");
    exec.execute_command_at(&get, &mut store, &mut out, at(12));
    assert_eq!(out.take(), "\rKey not found: a\n");
    exec.execute_command_at(&Command::Keys, &mut store, &mut out, at(12));
    assert_eq!(out.take(), "");
}

#[test]
fn executor_handles_the_other_commands() {
    let exec = Executor::new();
    let mut store = Store::new();
    let mut out = ReplOutput::new();
    store.set("a".to_string(), Entry::new("1".to_string(), None));
    store.set("b".to_string(), Entry::new("2".to_string(), None));
    assert_eq!(exec.execute_command(&Command::Keys, &mut store, &mut out), ReplControl::Continue);
    assert_eq!(out.take(), "\ra\n\rb\n");
    let delete = Command::Delete("a".to_string());
    assert_eq!(exec.execute_command(&delete, &mut store, &mut out), ReplControl::Continue);
    assert_eq!(out.take(), "");
    assert_eq!(store.keys(), vec!["b".to_string()]);
    let unknown = Command::Unknown("what now".to_string());
    assert_eq!(exec.execute_command(&unknown, &mut store, &mut out), ReplControl::Continue);
    assert_eq!(out.take(), "\rUnknown command: what now\n");
    assert_eq!(exec.execute_command(&Command::Empty, &mut store, &mut out), ReplControl::Continue);
    assert_eq!(exec.execute_command(&Command::Exit, &mut store, &mut out), ReplControl::Exit);
    assert_eq!(out.take(), "");
    let put = Command::Put("c".to_string(), "3".to_string(), None);
    exec.execute_command(&put, &mut store, &mut out);
    exec.execute_command(&Command::Get("c".to_string()), &mut store, &mut out);
    assert_eq!(out.take(), "\rValue: 3\n");
}

#[test]
fn typing_and_backspace_edit_the_line() {
    let mut core = Core::new();
    core.handle_key(Key::Char('a'));
    core.handle_key(Key::Char('é'));
    core.handle_key(Key::Char('c'));
    assert_eq!(core.buffer(), "aéc");
    core.handle_key(Key::Backspace);
    core.handle_key(Key::Other);
    assert_eq!(core.buffer(), "aé");
    core.handle_key(Key::Backspace);
    core.handle_key(Key::Backspace);
    core.handle_key(Key::Backspace);
    assert_eq!(core.buffer(), "");
    assert_eq!(core.history_index(), None);
    assert_eq!(core.take_output(), "");
}

#[test]
fn enter_runs_the_line_and_records_it() {
    let mut core = Core::new();
    assert_eq!(type_line(&mut core, "set a 1 1", at(100)), ReplControl::Continue);
    assert_eq!(core.take_output(), "\n");
    assert_eq!(core.buffer(), "");
    assert_eq!(core.history_len(), 1);
    assert_eq!(type_line(&mut core, "get a", at(101)), ReplControl::Continue);
    assert_eq!(core.take_output(), "\n\rValue: 1\n");
    assert_eq!(type_line(&mut core, "keys", at(105)), ReplControl::Continue);
    assert_eq!(core.take_output(), "\n\ra\n");
    assert_eq!(type_line(&mut core, "get a", at(105)), ReplControl::Continue);
    assert_eq!(core.take_output(), "\n\rKey not found: a\n");
    assert_eq!(type_line(&mut core, "", at(105)), ReplControl::Continue);
    assert_eq!(core.take_output(), "\n");
    assert_eq!(core.history_len(), 4);
    assert_eq!(type_line(&mut core, "bogus", at(105)), ReplControl::Continue);
    assert_eq!(core.take_output(), "\n\rUnknown command: bogus\n");
    assert_eq!(type_line(&mut core, "exit", at(105)), ReplControl::Exit);
    assert_eq!(core.take_output(), "\n\rBye!\r\n");
    assert_eq!(core.buffer(), "exit");
    assert_eq!(core.history_len(), 5);
    assert!(core.store_mut().keys().is_empty());
}

#[test]
fn up_and_down_walk_the_history() {
    let mut core = Core::new();
    core.handle_key(Key::Up);
    assert_eq!(core.history_index(), None);
    type_line(&mut core, "get one", at(0));
    type_line(&mut core, "get two", at(0));
    core.handle_key(Key::Char('x'));
    core.handle_key(Key::Down);
    assert_eq!(core.buffer(), "x");
    core.handle_key(Key::Up);
    assert_eq!((core.history_index(), core.buffer().as_str()), (Some(1), "get two"));
    core.handle_key(Key::Up);
    assert_eq!((core.history_index(), core.buffer().as_str()), (Some(0), "get one"));
    core.handle_key(Key::Up);
    assert_eq!((core.history_index(), core.buffer().as_str()), (Some(0), "get one"));
    core.handle_key(Key::Down);
    assert_eq!((core.history_index(), core.buffer().as_str()), (Some(1), "get two"));
    core.handle_key(Key::Down);
    assert_eq!((core.history_index(), core.buffer().as_str()), (None, ""));
}

#[test]
fn session_on_a_loaded_store_sees_its_entries() {
    let mut store = Store::new();
    store.set("k".to_string(), Entry::new("v".to_string(), None));
    let mut core = Core::with_store(store);
    assert_eq!(type_line(&mut core, "get k", None), ReplControl::Continue);
    assert_eq!(core.take_output(), "\n\rValue: v\n");
    let saved = core.store_mut().save_snapshot();
    assert_eq!(saved.len(), 1);
}
