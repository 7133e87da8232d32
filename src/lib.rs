use vstd::prelude::*;

/// What the built-in commands do with their arguments.
pub mod builtin;
/// Stages of a pipeline and how a line is parsed into them.
pub mod command;
/// How each stage of a pipeline is started and wired to its neighbours.
pub mod pipeline;
/// Splitting a line into stages and tokens.
pub mod text;

verus! {

} // verus!
