use vstd::prelude::*;
use vstd::string::StringExecFns;

use crate::command::ShellCommand;
use crate::text::{concatenated, texts};

verus! {

/// What a built-in asks of the process that runs it.
#[derive(PartialEq, Eq, Debug)]
pub enum BuiltinAction {
    /// Write this text to the output stream.
    Print(String),
    /// Make this path the working directory.
    ChangeDir(String),
    /// End the process with success status.
    Exit,
    /// The built-in was given the wrong number of arguments.
    UsageError,
}

/// What `echo` writes for the given arguments: all of them, unseparated, then a newline.
pub open spec fn echo_text(args: Seq<Seq<char>>) -> Seq<char> {
    concatenated(args) + seq!['\n']
}

/// The action that built-in `b` takes on the given arguments.
pub open spec fn action_of(b: ShellCommand, args: Seq<Seq<char>>, r: BuiltinAction) -> bool {
    match b {
        ShellCommand::Echo => r matches BuiltinAction::Print(t) && t@ == echo_text(args),
        ShellCommand::Cd => if args.len() == 1 {
            r matches BuiltinAction::ChangeDir(p) && p@ == args[0]
        } else {
            r == BuiltinAction::UsageError
        },
        ShellCommand::Exit => r == BuiltinAction::Exit,
    }
}

/// The confirmation that `cd` writes after moving to `path`.
pub open spec fn change_dir_text(path: Seq<char>) -> Seq<char> {
    "Changed directory to "@ + path + seq!['\n']
}

/// Joins the arguments with nothing between them and ends the line.
pub fn echo_line(args: &Vec<String>) -> (r: String)
    ensures
        r@ == echo_text(texts(args@)),
{
    let mut out = String::new();
    let mut i: usize = 0;
    while i < args.len()
        invariant
            i <= args@.len(),
            out@ == concatenated(texts(args@).take(i as int)),
        decreases args@.len() - i,
    {
        assert(texts(args@).take(i + 1).drop_last() == texts(args@).take(i as int));
        out.append(args[i].as_str());
        i = i + 1;
    }
    assert(texts(args@).take(args@.len() as int) == texts(args@));
    proof {
        reveal_strlit("\n");
    }
    out.append("\n");
    out
}

/// The confirmation line for a change of working directory to `path`.
pub fn change_dir_message(path: &str) -> (r: String)
    ensures
        r@ == change_dir_text(path@),
{
    let mut out = "Changed directory to ".to_owned();
    out.append(path);
    proof {
        reveal_strlit("\n");
    }
    out.append("\n");
    out
}

impl ShellCommand {
    /// Decides what the built-in does with its arguments.
    pub fn action(&self, args: Vec<String>) -> (r: BuiltinAction)
        ensures
            action_of(*self, texts(args@), r),
    {
        match self {
            ShellCommand::Echo => BuiltinAction::Print(echo_line(&args)),
            ShellCommand::Cd => {
                if args.len() == 1 {
                    let mut args = args;
                    BuiltinAction::ChangeDir(args.remove(0))
                } else {
                    BuiltinAction::UsageError
                }
            },
            ShellCommand::Exit => BuiltinAction::Exit,
        }
    }
}

} // verus!
