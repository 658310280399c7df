//! What a command name stands for: a builtin of the shell, or a file found
//! on the search path.

use crate::search_path::{candidates, find_binary, found_first, found_none};
use vstd::prelude::*;

verus! {

/// The commands that the shell carries out itself.
#[derive(Debug, Clone, Copy, PartialEq, Eq, Structural)]
pub enum Builtin {
    Cd,
    Echo,
    Exit,
    Pwd,
    Type,
}

/// A name that is no builtin's.
#[derive(Debug, Clone, Copy, PartialEq, Eq, Structural)]
pub struct ParseBuiltinError;

/// A name that is neither a builtin's nor found on the search path.
#[derive(Debug, Clone, Copy, PartialEq, Eq, Structural)]
pub struct ParseExecutableError;

/// The builtin whose name is exactly `name`, if any.
pub open spec fn builtin_named(name: Seq<char>) -> Option<Builtin> {
    if name == "cd"@ {
        Some(Builtin::Cd)
    } else if name == "echo"@ {
        Some(Builtin::Echo)
    } else if name == "exit"@ {
        Some(Builtin::Exit)
    } else if name == "pwd"@ {
        Some(Builtin::Pwd)
    } else if name == "type"@ {
        Some(Builtin::Type)
    } else {
        None
    }
}

impl Builtin {
    /// The builtin named exactly `s`: no abbreviation, no case folding.
    pub fn from_str(s: &str) -> (r: Result<Builtin, ParseBuiltinError>)
        ensures
            match builtin_named(s@) {
                Some(b) => r == Ok::<_, ParseBuiltinError>(b),
                None => r == Err::<Builtin, _>(ParseBuiltinError),
            },
    {
        let name = s.to_owned();
        if name == "cd".to_owned() {
            Ok(Builtin::Cd)
        } else if name == "echo".to_owned() {
            Ok(Builtin::Echo)
        } else if name == "exit".to_owned() {
            Ok(Builtin::Exit)
        } else if name == "pwd".to_owned() {
            Ok(Builtin::Pwd)
        } else if name == "type".to_owned() {
            Ok(Builtin::Type)
        } else {
            Err(ParseBuiltinError)
        }
    }
}

/// What a command name resolves to.
#[derive(Debug, PartialEq, Eq)]
pub enum Executable {
    Builtin(Builtin),
    /// The path of the file to run.
    Binary(String),
}

/// `r` is what `name` resolves to, given the answers of the probe `f` on the
/// candidate paths: a builtin first; else the first candidate that the probe
/// accepted; else no command.
pub open spec fn resolves_to<F: Fn(&str) -> bool>(
    f: F,
    name: Seq<char>,
    path_var: Seq<char>,
    r: Result<Executable, ParseExecutableError>,
) -> bool {
    let cands = candidates(name, path_var);
    match builtin_named(name) {
        Some(b) => r == Ok::<_, ParseExecutableError>(Executable::Builtin(b)),
        None => match r {
            Ok(Executable::Binary(p)) => exists|i: int| found_first(f, cands, i) && p@ == cands[i],
            Ok(Executable::Builtin(_)) => false,
            Err(_) => found_none(f, cands),
        },
    }
}

/// A builtin's name resolves to that builtin, whatever files the search path
/// holds: the probe's answers and the search path play no part.
pub proof fn lemma_builtin_wins<F: Fn(&str) -> bool>(
    is_file: F,
    name: Seq<char>,
    path_var: Seq<char>,
    r: Result<Executable, ParseExecutableError>,
)
    requires
        builtin_named(name) is Some,
        resolves_to(is_file, name, path_var, r),
    ensures
        r == Ok::<_, ParseExecutableError>(Executable::Builtin(builtin_named(name)->Some_0)),
{
}

impl Executable {
    /// Resolves `command`: a builtin of that name wins over any file; else
    /// the command is looked up on the search path `path_var`, with
    /// `is_file` telling which paths are files.
    pub fn from_str<F: Fn(&str) -> bool>(command: &str, path_var: &str, is_file: &F) -> (r: Result<
        Executable,
        ParseExecutableError,
    >)
        requires
            forall|p: &str| call_requires(*is_file, (p,)),
        ensures
            resolves_to(*is_file, command@, path_var@, r),
    {
        if let Ok(builtin) = Builtin::from_str(command) {
            return Ok(Executable::Builtin(builtin));
        }
        match find_binary(command, path_var, is_file) {
            Some(path) => Ok(Executable::Binary(path)),
            None => Err(ParseExecutableError),
        }
    }
}

} // verus!
