use vstd::prelude::*;
use vstd::string::StringExecFns;

use crate::command::{builtin_named, classifies, describes, Command, CommandType, ShellCommand};
use crate::text::{
    is_token, joined, lemma_single_stage, lemma_stage_tokens_are_tokens, stage_tokens, texts, well_formed,
};

verus! {

/// The executable that a spawned stage runs.
#[derive(PartialEq, Eq, Debug)]
pub enum Program {
    /// The shell's own executable, asked to run one built-in.
    CurrentExe,
    /// A program looked up by name.
    Named(String),
}

/// A process to start, and how its standard streams are wired.
#[derive(PartialEq, Eq, Debug)]
pub struct Spawn {
    pub program: Program,
    pub args: Vec<String>,
    /// Read from the previous stage's output, else from the shell's input.
    pub stdin_from_previous: bool,
    /// Write into a pipe for the next stage, else to the shell's output.
    pub stdout_to_pipe: bool,
}

/// How one stage of a pipeline is run.
#[derive(PartialEq, Eq, Debug)]
pub enum Launch {
    /// A built-in that makes up the whole pipeline runs in the shell's own process.
    InProcess(ShellCommand, Vec<String>),
    /// Every other stage runs in a process of its own.
    Spawn(Spawn),
}

/// The option that tells the shell's executable to run one command line and stop.
pub open spec fn reinvoke_flag() -> Seq<char> {
    seq!['-', 'c']
}

/// The command line that a re-launched shell is given to run built-in `b`.
pub open spec fn reinvoke_text(b: ShellCommand, args: Seq<Seq<char>>) -> Seq<char> {
    joined(seq![b.name()] + args)
}

/// `sp` runs stage `c`.
pub open spec fn runs(c: Command, sp: Spawn) -> bool {
    match c.kind {
        CommandType::SystemCommand(p) => {
            &&& sp.program matches Program::Named(q) && q@ == p@
            &&& texts(sp.args@) == texts(c.args@)
        },
        CommandType::ShellCommand(b) => {
            &&& sp.program == Program::CurrentExe
            &&& texts(sp.args@) == seq![reinvoke_flag(), reinvoke_text(b, texts(c.args@))]
        },
    }
}

/// `r` is how stage `c` runs, given whether stages stand before and after it.
pub open spec fn launches(c: Command, has_previous: bool, has_next: bool, r: Launch) -> bool {
    if c.kind is ShellCommand && !has_previous && !has_next {
        r matches Launch::InProcess(b, a) && c.kind == CommandType::ShellCommand(b)
            && texts(a@) == texts(c.args@)
    } else {
        r matches Launch::Spawn(sp) && {
            &&& sp.stdin_from_previous == has_previous
            &&& sp.stdout_to_pipe == has_next
            &&& runs(c, sp)
        }
    }
}

/// `l` starts stage `c` as a process, at place `i` of a chain of `n` stages.
pub open spec fn spawned_at(c: Command, i: int, n: int, l: Launch) -> bool {
    l matches Launch::Spawn(sp) && {
        &&& sp.stdin_from_previous == (i > 0)
        &&& sp.stdout_to_pipe == (i + 1 < n)
        &&& runs(c, sp)
    }
}

/// The command line that makes a re-launched shell run built-in `b` on `args`.
pub fn reinvoke_line(b: ShellCommand, args: &Vec<String>) -> (r: String)
    ensures
        r@ == reinvoke_text(b, texts(args@)),
{
    let mut out = b.to_string().to_owned();
    let ghost name = seq![b.name()];
    let mut i: usize = 0;
    assert(name + texts(args@).take(0) == name);
    while i < args.len()
        invariant
            i <= args@.len(),
            name == seq![b.name()],
            out@ == joined(name + texts(args@).take(i as int)),
        decreases args@.len() - i,
    {
        assert((name + texts(args@).take(i + 1)).drop_last() == name + texts(args@).take(i as int));
        proof {
            reveal_strlit(" ");
        }
        out.append(" ");
        out.append(args[i].as_str());
        i = i + 1;
    }
    assert(texts(args@).take(args@.len() as int) == texts(args@));
    out
}

impl Command {
    /// Decides how this stage runs, given whether stages stand before and after it.
    pub fn launch(self, has_previous: bool, has_next: bool) -> (r: Launch)
        ensures
            launches(self, has_previous, has_next, r),
    {
        match self.kind {
            CommandType::ShellCommand(b) => {
                if !has_previous && !has_next {
                    Launch::InProcess(b, self.args)
                } else {
                    let line = reinvoke_line(b, &self.args);
                    proof {
                        reveal_strlit("-c");
                    }
                    let flag = "-c".to_owned();
                    assert(flag@ == reinvoke_flag());
                    let mut args: Vec<String> = Vec::new();
                    args.push(flag);
                    args.push(line);
                    assert(texts(args@) =~= seq![reinvoke_flag(), reinvoke_text(b, texts(self.args@))]);
                    Launch::Spawn(Spawn {
                        program: Program::CurrentExe,
                        args,
                        stdin_from_previous: has_previous,
                        stdout_to_pipe: has_next,
                    })
                }
            },
            CommandType::SystemCommand(p) => Launch::Spawn(Spawn {
                program: Program::Named(p),
                args: self.args,
                stdin_from_previous: has_previous,
                stdout_to_pipe: has_next,
            }),
        }
    }
}

/// The command line handed to a re-launched shell reads back as one stage: the same
/// built-in, with the same arguments.
pub proof fn lemma_reinvoke_round_trip(b: ShellCommand, args: Seq<Seq<char>>)
    requires
        forall|i: int| 0 <= i < args.len() ==> is_token(#[trigger] args[i]),
    ensures
        well_formed(reinvoke_text(b, args)),
        stage_tokens(reinvoke_text(b, args)) == seq![seq![b.name()] + args],
        builtin_named(b.name()) == Some(b),
{
    let a = seq![b.name()] + args;
    assert(is_token(b.name()));
    assert forall|i: int| 0 <= i < a.len() implies is_token(#[trigger] a[i]) by {
        if i > 0 {
            assert(a[i] == args[i - 1]);
        }
    }
    lemma_single_stage(a);
}

/// A built-in stage parsed from any line is re-launched with a command line that
/// parses back into exactly the tokens of that stage.
pub proof fn lemma_stage_relaunch(line: Seq<char>, i: int, c: Command, b: ShellCommand)
    requires
        0 <= i < stage_tokens(line).len(),
        describes(c, stage_tokens(line)[i]),
        c.kind == CommandType::ShellCommand(b),
    ensures
        well_formed(reinvoke_text(b, texts(c.args@))),
        stage_tokens(reinvoke_text(b, texts(c.args@))) == seq![stage_tokens(line)[i]],
{
    let toks = stage_tokens(line)[i];
    lemma_stage_tokens_are_tokens(line, i);
    let args = texts(c.args@);
    assert(args == toks.drop_first());
    assert forall|j: int| 0 <= j < args.len() implies is_token(#[trigger] args[j]) by {
        assert(args[j] == toks[j + 1]);
    }
    lemma_reinvoke_round_trip(b, args);
    assert(classifies(c.kind, toks[0]));
    assert(toks[0] == b.name());
    assert(seq![b.name()] + args =~= toks);
}

impl Command {
    /// Decides how each stage of a pipeline runs: stage `i` reads what stage `i - 1`
    /// writes, and only the last stage writes to the shell's own output.
    pub fn pipe_commands(commands: Vec<Command>) -> (r: Vec<Launch>)
        ensures
            r@.len() == commands@.len(),
            forall|i: int|
                0 <= i < r@.len() ==> launches(
                    commands@[i],
                    i > 0,
                    i + 1 < commands@.len(),
                    #[trigger] r@[i],
                ),
            (forall|i: int| 0 <= i < commands@.len() ==> (#[trigger] commands@[i]).kind is SystemCommand)
                ==> forall|i: int|
                0 <= i < r@.len() ==> spawned_at(commands@[i], i, r@.len() as int, #[trigger] r@[i]),
    {
        let ghost all = commands@;
        let n = commands.len();
        let mut rest = commands;
        let mut out: Vec<Launch> = Vec::new();
        let mut i: usize = 0;
        while i < n
            invariant
                n == all.len(),
                i <= n,
                rest@ == all.skip(i as int),
                out@.len() == i,
                forall|j: int| 0 <= j < i ==> launches(all[j], j > 0, j + 1 < n, #[trigger] out@[j]),
            decreases n - i,
        {
            let c = rest.remove(0);
            assert(c == all[i as int]);
            assert(rest@ == all.skip(i + 1));
            let l = c.launch(i > 0, i + 1 < n);
            out.push(l);
            i = i + 1;
        }
        out
    }
}

} // verus!
