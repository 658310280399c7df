//! One turn of the shell: what a line of input makes the shell do.
//!
//! The shell's decisions are made here; carrying them out (printing,
//! changing directory, running a program, leaving) is left to the caller,
//! which hands the outcome of each file-system question back through a probe.

use crate::builtins::builtin_acts;
use crate::executables::{Executable, ParseExecutableError, resolves_to};
use crate::text::chars_of;
use crate::tokenizer::{parse_command, string_views, tokens_of};
use vstd::prelude::*;

verus! {

/// What the shell knows of its surroundings during one turn.
#[derive(Debug)]
pub struct Session {
    /// The working directory.
    pub cwd: String,
    /// The home directory, if one is set.
    pub home: Option<String>,
    /// The search path: directories separated by colons.
    pub search_path: String,
}

/// What a turn asks the caller to do.
#[derive(Debug, PartialEq, Eq)]
pub enum Action {
    /// Nothing: the line held no command.
    Nothing,
    /// Print each of these lines.
    Print(Vec<String>),
    /// Make this directory the working directory.
    ChangeDir(String),
    /// End the shell with this exit code.
    Exit(i32),
    /// Run the program at this path with these arguments and wait for it.
    Spawn(String, Vec<String>),
}

/// `a` prints exactly `lines`.
pub open spec fn prints(a: Action, lines: Seq<Seq<char>>) -> bool {
    match a {
        Action::Print(v) => string_views(v@) == lines,
        _ => false,
    }
}

/// `a` changes to the directory `dir`.
pub open spec fn changes_dir(a: Action, dir: Seq<char>) -> bool {
    match a {
        Action::ChangeDir(d) => d@ == dir,
        _ => false,
    }
}

/// `a` runs the program at `path` with the arguments `args`.
pub open spec fn spawns(a: Action, path: Seq<char>, args: Seq<Seq<char>>) -> bool {
    match a {
        Action::Spawn(p, v) => p@ == path && string_views(v@) == args,
        _ => false,
    }
}

/// A home directory setting, as characters.
pub open spec fn home_view(h: Option<String>) -> Option<Seq<char>> {
    match h {
        Some(s) => Some(s@),
        None => None,
    }
}

/// An action that prints the one line `line`.
pub fn print_line(line: String) -> (r: Action)
    ensures
        prints(r, seq![line@]),
{
    let v = vec![line];
    assert(string_views(v@) =~= seq![line@]);
    Action::Print(v)
}

/// `s` without the line breaks (`\n`, `\r`) at its end.
pub open spec fn line_body(s: Seq<char>) -> Seq<char>
    decreases s.len(),
{
    if s.len() > 0 && (s.last() == '\n' || s.last() == '\r') {
        line_body(s.drop_last())
    } else {
        s
    }
}

/// `r` is what the command `name` does with the arguments `args`, where
/// `name` resolved to `e`.
pub open spec fn command_acts<F: Fn(&str) -> bool, G: Fn(&str) -> bool>(
    name: Seq<char>,
    args: Seq<Seq<char>>,
    session: Session,
    is_file: F,
    is_dir: G,
    e: Result<Executable, ParseExecutableError>,
    r: Action,
) -> bool {
    match e {
        Ok(Executable::Builtin(b)) => builtin_acts(b, args, session, is_file, is_dir, r),
        Ok(Executable::Binary(p)) => spawns(r, p@, args),
        Err(_) => prints(r, seq![name + ": command not found"@]),
    }
}

/// `r` is what the input `input` makes the shell do in `session`: a line
/// that cannot be split prints why; one with no command, or an empty one,
/// does nothing; otherwise the first token is the command and the others its
/// arguments.
pub open spec fn turn_acts<F: Fn(&str) -> bool, G: Fn(&str) -> bool>(
    session: Session,
    input: Seq<char>,
    is_file: F,
    is_dir: G,
    r: Action,
) -> bool {
    match tokens_of(input) {
        Err(err) => prints(r, seq![err.message_spec()]),
        Ok(ts) => if ts.len() == 0 || ts[0].len() == 0 {
            r is Nothing
        } else {
            exists|e: Result<Executable, ParseExecutableError>|
                resolves_to(is_file, ts[0], session.search_path@, e) && command_acts(
                    ts[0],
                    ts.drop_first(),
                    session,
                    is_file,
                    is_dir,
                    e,
                    r,
                )
        },
    }
}

/// What the input `input`, with no line break at its end, makes the shell do.
pub fn execute<F: Fn(&str) -> bool, G: Fn(&str) -> bool>(
    session: &Session,
    input: &str,
    is_file: &F,
    is_dir: &G,
) -> (r: Action)
    requires
        forall|p: &str| call_requires(*is_file, (p,)),
        forall|p: &str| call_requires(*is_dir, (p,)),
    ensures
        turn_acts(*session, input@, *is_file, *is_dir, r),
{
    let (command, args) = match parse_command(input) {
        Ok(parsed) => parsed,
        Err(err) => return print_line(err.message()),
    };
    let command = match command {
        Some(command) => command,
        None => return Action::Nothing,
    };
    if command.as_str().is_empty() {
        return Action::Nothing;
    }
    let executable = Executable::from_str(command.as_str(), session.search_path.as_str(), is_file);
    let r = match &executable {
        Ok(Executable::Builtin(builtin)) => builtin.execute(&args, session, is_file, is_dir),
        Ok(Executable::Binary(path)) => Action::Spawn(path.clone(), args),
        Err(_) => {
            let mut message = command.clone();
            message.append(": command not found");
            print_line(message)
        },
    };
    assert(command_acts(
        command@,
        tokens_of(input@)->Ok_0.drop_first(),
        *session,
        *is_file,
        *is_dir,
        executable,
        r,
    ));
    r
}

/// What one line of input, as read with its line break, makes the shell do.
pub fn run<F: Fn(&str) -> bool, G: Fn(&str) -> bool>(
    session: &Session,
    line: &str,
    is_file: &F,
    is_dir: &G,
) -> (r: Action)
    requires
        forall|p: &str| call_requires(*is_file, (p,)),
        forall|p: &str| call_requires(*is_dir, (p,)),
    ensures
        turn_acts(*session, line_body(line@), *is_file, *is_dir, r),
{
    let chars = chars_of(line);
    let mut n: usize = chars.len();
    assert(line@.take(n as int) =~= line@);
    while n > 0 && (chars[n - 1] == '\n' || chars[n - 1] == '\r')
        invariant
            n <= chars.len(),
            chars@ == line@,
            line_body(line@) == line_body(line@.take(n as int)),
        decreases n,
    {
        assert(line@.take(n as int).drop_last() =~= line@.take(n - 1));
        n = n - 1;
    }
    let body = line.substring_char(0, n);
    assert(body@ =~= line@.take(n as int));
    execute(session, body, is_file, is_dir)
}

} // verus!
