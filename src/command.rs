use vstd::prelude::*;

use crate::text::{same_text, split_stages, split_words, stage_tokens, texts, well_formed};

verus! {

/// The commands that the shell carries out itself.
#[derive(Clone, Copy, PartialEq, Eq, Structural, Debug)]
pub enum ShellCommand {
    Echo,
    Cd,
    Exit,
}

/// What the first token of a stage names: a built-in, or a program to run.
#[derive(PartialEq, Eq, Debug)]
pub enum CommandType {
    ShellCommand(ShellCommand),
    SystemCommand(String),
}

impl ShellCommand {
    /// The word that invokes the built-in.
    pub open spec fn name(self) -> Seq<char> {
        match self {
            ShellCommand::Echo => seq!['e', 'c', 'h', 'o'],
            ShellCommand::Cd => seq!['c', 'd'],
            ShellCommand::Exit => seq!['e', 'x', 'i', 't'],
        }
    }

    /// The word that invokes the built-in.
    pub fn to_string(&self) -> (r: &'static str)
        ensures
            r@ == self.name(),
    {
        proof {
            reveal_strlit("echo");
            reveal_strlit("cd");
            reveal_strlit("exit");
        }
        match self {
            ShellCommand::Echo => "echo",
            ShellCommand::Cd => "cd",
            ShellCommand::Exit => "exit",
        }
    }
}

/// The built-in that the word `s` names, if any; names are matched exactly.
pub open spec fn builtin_named(s: Seq<char>) -> Option<ShellCommand> {
    if s == ShellCommand::Echo.name() {
        Some(ShellCommand::Echo)
    } else if s == ShellCommand::Cd.name() {
        Some(ShellCommand::Cd)
    } else if s == ShellCommand::Exit.name() {
        Some(ShellCommand::Exit)
    } else {
        None
    }
}

/// `kind` is the classification of the word `program`.
pub open spec fn classifies(kind: CommandType, program: Seq<char>) -> bool {
    match builtin_named(program) {
        Some(b) => kind == CommandType::ShellCommand(b),
        None => match kind {
            CommandType::SystemCommand(p) => p@ == program,
            CommandType::ShellCommand(_) => false,
        },
    }
}

impl CommandType {
    /// Classifies the first word of a stage.
    pub fn parse(program: &str) -> (r: CommandType)
        ensures
            classifies(r, program@),
    {
        let echo = ShellCommand::Echo;
        let cd = ShellCommand::Cd;
        let exit = ShellCommand::Exit;
        if same_text(program, echo.to_string()) {
            CommandType::ShellCommand(echo)
        } else if same_text(program, cd.to_string()) {
            CommandType::ShellCommand(cd)
        } else if same_text(program, exit.to_string()) {
            CommandType::ShellCommand(exit)
        } else {
            CommandType::SystemCommand(program.to_owned())
        }
    }
}


/// One stage of a pipeline: what it runs, and the tokens that follow.
#[derive(PartialEq, Eq, Debug)]
pub struct Command {
    pub kind: CommandType,
    pub args: Vec<String>,
}

/// `c` is the stage written as `tokens`.
pub open spec fn describes(c: Command, tokens: Seq<Seq<char>>) -> bool {
    &&& tokens.len() > 0
    &&& classifies(c.kind, tokens[0])
    &&& texts(c.args@) == tokens.drop_first()
}

impl Command {
    /// Builds a stage from its tokens; there is none without a first token.
    pub fn parse(tokens: Vec<String>) -> (r: Option<Command>)
        ensures
            r is None <==> tokens@.len() == 0,
            r matches Some(c) ==> describes(c, texts(tokens@)),
    {
        if tokens.len() == 0 {
            return None;
        }
        let mut args = tokens;
        let first = args.remove(0);
        let kind = CommandType::parse(first.as_str());
        assert(texts(args@) == texts(tokens@).drop_first());
        Some(Command { kind, args })
    }

    /// Parses a line into its stages; a stage without tokens makes the line malformed.
    pub fn parse_pipes(line: &str) -> (r: Option<Vec<Command>>)
        ensures
            r is Some <==> well_formed(line@),
            r matches Some(cs) ==> {
                &&& cs@.len() == stage_tokens(line@).len()
                &&& forall|i: int| 0 <= i < cs@.len() ==> describes(#[trigger] cs@[i], stage_tokens(line@)[i])
            },
    {
        let segments = split_stages(line);
        let ghost st = stage_tokens(line@);
        assert(st.len() == segments@.len());
        let mut out: Vec<Command> = Vec::new();
        let mut i: usize = 0;
        while i < segments.len()
            invariant
                st == stage_tokens(line@),
                st.len() == segments@.len(),
                texts(segments@) == crate::text::pipe_segments(line@),
                i <= segments@.len(),
                out@.len() == i,
                forall|j: int| 0 <= j < i ==> st[j].len() > 0,
                forall|j: int| 0 <= j < i ==> describes(#[trigger] out@[j], st[j]),
            decreases segments@.len() - i,
        {
            let tokens = split_words(segments[i].as_str());
            assert(texts(segments@)[i as int] == segments@[i as int]@);
            assert(texts(tokens@) == st[i as int]);
            match Command::parse(tokens) {
                Some(c) => {
                    out.push(c);
                }
                None => {
                    assert(st[i as int].len() == 0);
                    return None;
                }
            }
            i = i + 1;
        }
        Some(out)
    }
}

} // verus!
