use rush::builtin::{change_dir_message, echo_line, BuiltinAction};
use rush::command::ShellCommand;

fn strings(words: &[&str]) -> Vec<String> {
    words.iter().map(|w| w.to_string()).collect()
}

#[test]
fn echo_joins_without_separators() {
    assert_eq!(ShellCommand::Echo.action(strings(&["a", "b", "c"])), BuiltinAction::Print("abc\n".to_string()));
    assert_eq!(echo_line(&strings(&["hello", "world"])), "helloworld\n");
}

#[test]
fn echo_without_arguments_prints_a_newline() {
    assert_eq!(ShellCommand::Echo.action(Vec::new()), BuiltinAction::Print("\n".to_string()));
}

#[test]
fn cd_takes_exactly_one_argument() {
    assert_eq!(ShellCommand::Cd.action(strings(&["/tmp"])), BuiltinAction::ChangeDir("/tmp".to_string()));
    assert_eq!(ShellCommand::Cd.action(Vec::new()), BuiltinAction::UsageError);
    assert_eq!(ShellCommand::Cd.action(strings(&["a", "b"])), BuiltinAction::UsageError);
}

#[test]
fn cd_confirmation_names_the_path() {
    assert_eq!(change_dir_message("/tmp"), "Changed directory to /tmp\n");
}

#[test]
fn exit_ignores_its_arguments() {
    assert_eq!(ShellCommand::Exit.action(Vec::new()), BuiltinAction::Exit);
    assert_eq!(ShellCommand::Exit.action(strings(&["3"])), BuiltinAction::Exit);
}
