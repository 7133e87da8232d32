use rush::command::{Command, CommandType, ShellCommand};
use rush::pipeline::{reinvoke_line, Launch, Program, Spawn};

fn strings(words: &[&str]) -> Vec<String> {
    words.iter().map(|w| w.to_string()).collect()
}

fn plan(line: &str) -> Vec<Launch> {
    Command::pipe_commands(Command::parse_pipes(line).unwrap())
}

#[test]
fn lone_built_in_runs_in_process() {
    assert_eq!(plan("echo a b c"), vec![Launch::InProcess(ShellCommand::Echo, strings(&["a", "b", "c"]))]);
}

#[test]
fn lone_exit_runs_in_process() {
    assert_eq!(plan("exit\n"), vec![Launch::InProcess(ShellCommand::Exit, Vec::new())]);
}

#[test]
fn lone_external_is_spawned_with_inherited_streams() {
    let expected = Spawn {
        program: Program::Named("ls".to_string()),
        args: strings(&["-l"]),
        stdin_from_previous: false,
        stdout_to_pipe: false,
    };
    assert_eq!(plan("ls -l"), vec![Launch::Spawn(expected)]);
}

#[test]
fn external_stages_are_chained() {
    let launches = plan("ls | grep a | wc -l");
    assert_eq!(launches.len(), 3);
    let names = ["ls", "grep", "wc"];
    for (i, l) in launches.iter().enumerate() {
        match l {
            Launch::Spawn(sp) => {
                assert_eq!(sp.program, Program::Named(names[i].to_string()));
                assert_eq!(sp.stdin_from_previous, i > 0);
                assert_eq!(sp.stdout_to_pipe, i < 2);
            }
            Launch::InProcess(..) => panic!("stage {} should be spawned", i),
        }
    }
}

#[test]
fn built_in_feeding_external_is_relaunched() {
    let launches = plan("echo hi | cat");
    let first = Spawn {
        program: Program::CurrentExe,
        args: strings(&["-c", "echo hi"]),
        stdin_from_previous: false,
        stdout_to_pipe: true,
    };
    let second = Spawn {
        program: Program::Named("cat".to_string()),
        args: Vec::new(),
        stdin_from_previous: true,
        stdout_to_pipe: false,
    };
    assert_eq!(launches, vec![Launch::Spawn(first), Launch::Spawn(second)]);
}

#[test]
fn relaunch_line_keeps_arguments_apart() {
    assert_eq!(reinvoke_line(ShellCommand::Echo, &strings(&["a", "b"])), "echo a b");
    assert_eq!(reinvoke_line(ShellCommand::Exit, &Vec::new()), "exit");
    assert_eq!(reinvoke_line(ShellCommand::Cd, &strings(&["/tmp"])), "cd /tmp");
}

#[test]
fn relaunch_line_reads_back_as_the_same_stage() {
    let line = reinvoke_line(ShellCommand::Echo, &strings(&["x", "y", "z"]));
    let stages = Command::parse_pipes(&line).unwrap();
    assert_eq!(stages.len(), 1);
    assert_eq!(stages[0].kind, CommandType::ShellCommand(ShellCommand::Echo));
    assert_eq!(stages[0].args, strings(&["x", "y", "z"]));
    assert_eq!(plan(&line), vec![Launch::InProcess(ShellCommand::Echo, strings(&["x", "y", "z"]))]);
}

#[test]
fn exit_inside_a_pipeline_is_relaunched() {
    let launches = plan("exit | cat");
    match &launches[0] {
        Launch::Spawn(sp) => {
            assert_eq!(sp.program, Program::CurrentExe);
            assert_eq!(sp.args, strings(&["-c", "exit"]));
            assert!(sp.stdout_to_pipe);
        }
        Launch::InProcess(..) => panic!("exit in a pipeline runs in its own process"),
    }
}
