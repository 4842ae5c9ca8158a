use tmplt::interpreter::{CmdOut, Interpreter};
use tmplt::task::Action;
use tmplt::{construct_interpreter, construct_tree};

fn interpreter_for(lines: &[&str]) -> Interpreter {
    let lines: Vec<String> = lines.iter().map(|s| s.to_string()).collect();
    let tree = construct_tree(lines).expect("known sections");
    construct_interpreter(tree)
}

#[test]
fn variables_resolve_inside_scripts() {
    let mut it = interpreter_for(&[
        "__VAR :",
        "name = demo",
        "__SCRIPTS :",
        "DEFER npm i",
        "echo #name loud",
    ]);
    it.interpret().expect("the template is well-formed");
    assert_eq!(it._commands_buf.len(), 2);

    let first = &it._commands_buf[0];
    assert_eq!(first.command_name, "npm");
    assert_eq!(first.args, vec!["i"]);
    assert!(first.defered);

    let second = &it._commands_buf[1];
    assert_eq!(second.command_name, "echo");
    assert_eq!(second.args, vec!["demo", "loud"]);
    assert!(!second.defered);

    // The variable buffer is cleared once interpretation is done.
    assert!(it._variable_buf.is_empty());
}

#[test]
fn directory_lines_become_fs_actions() {
    let mut it = interpreter_for(&[
        "__CWD :",
        "FILE main.rs",
        "DEFER FOLDER build",
        "src",
    ]);
    it.interpret().expect("the template is well-formed");
    assert_eq!(it._fs_actions_buf.len(), 3);

    let file = &it._fs_actions_buf[0];
    assert_eq!(file.0, "main.rs");
    assert!(file.1, "FILE asks for a file");
    assert!(!file.2);

    let folder = &it._fs_actions_buf[1];
    assert_eq!(folder.0, "build");
    assert!(!folder.1);
    assert!(folder.2, "DEFER defers the action");

    let bare = &it._fs_actions_buf[2];
    assert_eq!(bare.0, "src");
    assert!(!bare.1);
    assert!(!bare.2);
}

#[test]
fn demo_lines_become_copy_commands() {
    let mut it = interpreter_for(&["__DEMO :", "a COPY_INTO b", "DEFER c COPY_INTO d"]);
    it.interpret().expect("the template is well-formed");
    assert_eq!(it._commands_buf.len(), 2);

    let plain = &it._commands_buf[0];
    assert_eq!(plain.command_name, "copy");
    assert_eq!(plain.args, vec!["a", "b"]);
    assert!(!plain.defered);

    let deferred = &it._commands_buf[1];
    assert_eq!(deferred.command_name, "copy");
    assert_eq!(deferred.args, vec!["c", "d"]);
    assert!(deferred.defered);
}

#[test]
fn a_forward_slash_in_a_demo_line_is_rejected() {
    let mut it = interpreter_for(&["__DEMO :", "a/b COPY_INTO c"]);
    let err = it.interpret().unwrap_err();
    assert_eq!(err.when(), "interpreting the demo section");
}

#[test]
fn an_undeclared_variable_is_rejected() {
    let mut it = interpreter_for(&["__SCRIPTS :", "echo #nope"]);
    let err = it.interpret().unwrap_err();
    assert_eq!(err.when(), "interpreting the scripts section");
}

#[test]
fn a_malformed_variable_line_is_rejected() {
    let mut it = interpreter_for(&["__VAR :", "name ="]);
    let err = it.interpret().unwrap_err();
    assert_eq!(err.when(), "interpreting variables");

    let mut it = interpreter_for(&["__VAR :", "name value extra"]);
    let err = it.interpret().unwrap_err();
    assert_eq!(err.when(), "interpreting variables");
}

#[test]
fn the_executor_sees_fs_actions_before_commands() {
    let mut it = interpreter_for(&["__CWD :", "src", "__SCRIPTS :", "echo hi"]);
    it.interpret().expect("the template is well-formed");
    let mut executor = it
        .create_tasks_executor(&10)
        .expect("an executor is always produced");

    let batch = executor.next_batch().expect("one immediate batch");
    assert_eq!(batch.len(), 2);
    assert_eq!(batch[0].id, 0);
    assert!(matches!(&batch[0].action, Action::MakePath { path, is_file }
        if path == "src" && !is_file));
    assert_eq!(batch[1].id, 1);
    assert!(matches!(&batch[1].action, Action::RunCommand { args }
        if args == &vec!["echo".to_string(), "hi".to_string()]));
    assert!(executor.next_batch().is_none());

    executor.toggle_switch();
    assert!(executor.next_batch().is_none());
}

#[test]
fn command_output_decodes_utf8() {
    let out = CmdOut::new(vec![104, 105], vec![111, 104]);
    assert_eq!(out.stdout(), "hi");
    assert_eq!(out.stderr(), "oh");
}
