//! Dispatch of parsed commands to the built-ins.
use vstd::prelude::*;
use crate::parser::Command;

verus! {

/// The shell's own state. It holds nothing yet; the working directory and
/// the environment belong to the process.
pub struct Shell {}

/// The built-in commands that run a program of their own.
#[derive(Debug, Clone, Copy, PartialEq, Eq, Structural)]
pub enum Builtin {
    Echo,
    Cd,
    Ls,
    Pwd,
    Cat,
    Cp,
    Rm,
    Mv,
    Mkdir,
    Help,
}

/// What the caller has to do for a command.
#[derive(Debug)]
pub enum Action {
    /// Run this built-in with these arguments.
    Run(Builtin, Vec<String>),
    /// Nothing: `exit` and unknown commands are handled by the caller's loop.
    Skip,
}

/// The built-in that runs a command, if one does.
pub open spec fn builtin_for(cmd: Command) -> Option<Builtin> {
    match cmd {
        Command::Echo => Some(Builtin::Echo),
        Command::Cd => Some(Builtin::Cd),
        Command::Ls => Some(Builtin::Ls),
        Command::Pwd => Some(Builtin::Pwd),
        Command::Cat => Some(Builtin::Cat),
        Command::Cp => Some(Builtin::Cp),
        Command::Rm => Some(Builtin::Rm),
        Command::Mv => Some(Builtin::Mv),
        Command::Mkdir => Some(Builtin::Mkdir),
        Command::Help => Some(Builtin::Help),
        Command::Exit => None,
        Command::Unknown(_) => None,
    }
}

impl Shell {
    pub fn new() -> (r: Shell)
        ensures
            r == (Shell {}),
    {
        Shell {}
    }

    /// Decides what running `cmd` with `args` takes: the matching built-in
    /// with the arguments unchanged, or nothing for `exit` and unknown names.
    pub fn execute(&mut self, cmd: Command, args: Vec<String>) -> (r: Action)
        ensures
            *final(self) == *old(self),
            match builtin_for(cmd) {
                Some(b) => r == Action::Run(b, args),
                None => r is Skip,
            },
    {
        match cmd {
            Command::Echo => Action::Run(Builtin::Echo, args),
            Command::Cd => Action::Run(Builtin::Cd, args),
            Command::Ls => Action::Run(Builtin::Ls, args),
            Command::Pwd => Action::Run(Builtin::Pwd, args),
            Command::Cat => Action::Run(Builtin::Cat, args),
            Command::Cp => Action::Run(Builtin::Cp, args),
            Command::Rm => Action::Run(Builtin::Rm, args),
            Command::Mv => Action::Run(Builtin::Mv, args),
            Command::Mkdir => Action::Run(Builtin::Mkdir, args),
            Command::Help => Action::Run(Builtin::Help, args),
            Command::Exit | Command::Unknown(_) => Action::Skip,
        }
    }
}

} // verus!
