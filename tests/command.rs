use rush::command::{Command, CommandType, ShellCommand};

fn strings(words: &[&str]) -> Vec<String> {
    words.iter().map(|w| w.to_string()).collect()
}

#[test]
fn built_in_names_are_matched_exactly() {
    assert_eq!(CommandType::parse("echo"), CommandType::ShellCommand(ShellCommand::Echo));
    assert_eq!(CommandType::parse("cd"), CommandType::ShellCommand(ShellCommand::Cd));
    assert_eq!(CommandType::parse("exit"), CommandType::ShellCommand(ShellCommand::Exit));
    assert_eq!(CommandType::parse("Echo"), CommandType::SystemCommand("Echo".to_string()));
    assert_eq!(CommandType::parse("ls"), CommandType::SystemCommand("ls".to_string()));
    assert_eq!(CommandType::parse("/bin/echo"), CommandType::SystemCommand("/bin/echo".to_string()));
}

#[test]
fn built_in_words() {
    assert_eq!(ShellCommand::Echo.to_string(), "echo");
    assert_eq!(ShellCommand::Cd.to_string(), "cd");
    assert_eq!(ShellCommand::Exit.to_string(), "exit");
}

#[test]
fn stage_from_tokens() {
    assert_eq!(Command::parse(Vec::new()), None);
    let c = Command::parse(strings(&["ls", "-l", "/tmp"])).unwrap();
    assert_eq!(c.kind, CommandType::SystemCommand("ls".to_string()));
    assert_eq!(c.args, strings(&["-l", "/tmp"]));
    let c = Command::parse(strings(&["cd"])).unwrap();
    assert_eq!(c.kind, CommandType::ShellCommand(ShellCommand::Cd));
    assert!(c.args.is_empty());
}

#[test]
fn one_stage_keeps_its_tokens() {
    let stages = Command::parse_pipes("ls -l /tmp\n").unwrap();
    assert_eq!(stages.len(), 1);
    assert_eq!(stages[0].kind, CommandType::SystemCommand("ls".to_string()));
    assert_eq!(stages[0].args, strings(&["-l", "/tmp"]));
}

#[test]
fn stages_in_textual_order() {
    let stages = Command::parse_pipes("echo hi | grep h|wc -l").unwrap();
    assert_eq!(stages.len(), 3);
    assert_eq!(stages[0].kind, CommandType::ShellCommand(ShellCommand::Echo));
    assert_eq!(stages[0].args, strings(&["hi"]));
    assert_eq!(stages[1].kind, CommandType::SystemCommand("grep".to_string()));
    assert_eq!(stages[1].args, strings(&["h"]));
    assert_eq!(stages[2].kind, CommandType::SystemCommand("wc".to_string()));
    assert_eq!(stages[2].args, strings(&["-l"]));
}

#[test]
fn two_delimiters_in_a_row_are_rejected() {
    assert_eq!(Command::parse_pipes("cmd1 | | cmd2"), None);
    assert_eq!(Command::parse_pipes("cmd1 || cmd2"), None);
}

#[test]
fn empty_or_dangling_stages_are_rejected() {
    assert_eq!(Command::parse_pipes(""), None);
    assert_eq!(Command::parse_pipes("  \t\n"), None);
    assert_eq!(Command::parse_pipes("ls |"), None);
    assert_eq!(Command::parse_pipes("| ls"), None);
}
