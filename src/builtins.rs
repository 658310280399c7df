//! The builtin commands, as decisions on their arguments and the session.

use crate::executables::{Builtin, Executable, ParseExecutableError, resolves_to};
use crate::repl::{Action, Session, changes_dir, home_view, print_line, prints};
use crate::search_path::{join_path, joined_path, probe_said};
use crate::text::chars_of;
use crate::tokenizer::{join_with_spaces, string_views};
use vstd::prelude::*;

verus! {

pub open spec fn is_digit(c: char) -> bool {
    '0' <= c <= '9'
}

/// The value of the decimal digits `d`.
pub open spec fn digits_value(d: Seq<char>) -> int
    decreases d.len(),
{
    if d.len() == 0 {
        0
    } else {
        digits_value(d.drop_last()) * 10 + ((d.last() as u32) as int - 48)
    }
}

/// The integer that `s` writes: an optional `+` or `-`, then one or more
/// decimal digits.
pub open spec fn decimal_value(s: Seq<char>) -> Option<int> {
    let signed = s.len() > 0 && (s[0] == '+' || s[0] == '-');
    let d = if signed {
        s.drop_first()
    } else {
        s
    };
    if d.len() > 0 && forall|k: int| 0 <= k < d.len() ==> is_digit(#[trigger] d[k]) {
        if signed && s[0] == '-' {
            Some(-digits_value(d))
        } else {
            Some(digits_value(d))
        }
    } else {
        None
    }
}

/// The `i32` that `s` writes, if it writes one in range.
pub open spec fn i32_of(s: Seq<char>) -> Option<i32> {
    match decimal_value(s) {
        Some(v) => if i32::MIN <= v <= i32::MAX {
            Some(v as i32)
        } else {
            None
        },
        None => None,
    }
}

/// Relies on `i32`'s `FromStr`: it accepts an optional `+` or `-` followed
/// by one or more ASCII digits whose value fits in `i32`, and nothing else.
#[verifier::external_body]
fn parse_i32(s: &str) -> (r: Option<i32>)
    ensures
        r == i32_of(s@),
{
    s.parse::<i32>().ok()
}

/// `p` begins with a `~` that stands for the home directory: `~` alone or
/// followed by `/`.
pub open spec fn uses_home(p: Seq<char>) -> bool {
    p.len() >= 1 && p[0] == '~' && (p.len() == 1 || p[1] == '/')
}

/// `p` without the separators at its start.
pub open spec fn without_leading_slashes(p: Seq<char>) -> Seq<char>
    decreases p.len(),
{
    if p.len() > 0 && p[0] == '/' {
        without_leading_slashes(p.drop_first())
    } else {
        p
    }
}

/// `p` with its leading `~` replaced by the home directory `home`: what
/// follows the `~`, without its leading separators, is taken relative to
/// `home`.
pub open spec fn expanded_home(p: Seq<char>, home: Seq<char>) -> Seq<char> {
    if !uses_home(p) {
        p
    } else {
        joined_path(home, without_leading_slashes(p.subrange(1, p.len() as int)))
    }
}

/// Replaces a leading `~` of `path` by the home directory `home`.
pub fn expand_home(path: &str, home: &str) -> (r: String)
    ensures
        r@ == expanded_home(path@, home@),
{
    let p = chars_of(path);
    if p.len() >= 1 && p[0] == '~' && (p.len() == 1 || p[1] == '/') {
        let mut i: usize = 1;
        while i < p.len() && p[i] == '/'
            invariant
                1 <= i <= p.len(),
                p@ == path@,
                without_leading_slashes(p@.subrange(1, p@.len() as int))
                    == without_leading_slashes(p@.subrange(i as int, p@.len() as int)),
            decreases p.len() - i,
        {
            assert(p@.subrange(i as int, p@.len() as int).drop_first() =~= p@.subrange(
                i + 1,
                p@.len() as int,
            ));
            i = i + 1;
        }
        let rest = path.substring_char(i, p.len());
        join_path(home, rest)
    } else {
        path.to_owned()
    }
}

/// The directory that `cd` is asked for, before it is taken relative to the
/// working directory: the argument with `~` expanded, or the home directory
/// when there is no argument; `None` where a home directory is needed and
/// none is set.
pub open spec fn cd_request(args: Seq<Seq<char>>, home: Option<Seq<char>>) -> Option<Seq<char>> {
    if args.len() == 0 {
        home
    } else if uses_home(args[0]) {
        match home {
            Some(h) => Some(expanded_home(args[0], h)),
            None => None,
        }
    } else {
        Some(args[0])
    }
}

/// `r` is what `cd` with the arguments `args` does, given the answer of the
/// probe `is_dir` on the directory it goes to.
pub open spec fn cd_acts<G: Fn(&str) -> bool>(
    args: Seq<Seq<char>>,
    session: Session,
    is_dir: G,
    r: Action,
) -> bool {
    if args.len() > 1 {
        prints(r, seq!["cd: too many arguments"@])
    } else {
        match cd_request(args, home_view(session.home)) {
            None => prints(r, seq!["cd: HOME not set"@]),
            Some(t) => {
                let full = joined_path(session.cwd@, t);
                let shown = if args.len() == 0 {
                    t
                } else {
                    args[0]
                };
                ||| probe_said(is_dir, full, true) && changes_dir(r, full)
                ||| probe_said(is_dir, full, false) && prints(
                    r,
                    seq!["cd: "@ + shown + ": No such file or directory"@],
                )
            },
        }
    }
}

fn no_such_directory(shown: &str) -> (r: Action)
    ensures
        prints(r, seq!["cd: "@ + shown@ + ": No such file or directory"@]),
{
    let mut m = "cd: ".to_owned();
    m.append(shown);
    m.append(": No such file or directory");
    print_line(m)
}

/// `cd`: changes to the directory named by its one argument, or to the home
/// directory when it has none.
fn process_cd<G: Fn(&str) -> bool>(args: &Vec<String>, session: &Session, is_dir: &G) -> (r:
    Action)
    requires
        forall|p: &str| call_requires(*is_dir, (p,)),
    ensures
        cd_acts(string_views(args@), *session, *is_dir, r),
{
    if args.len() > 1 {
        return print_line("cd: too many arguments".to_owned());
    }
    let target = if args.len() == 1 {
        let arg = args[0].as_str();
        let p = chars_of(arg);
        if p.len() >= 1 && p[0] == '~' && (p.len() == 1 || p[1] == '/') {
            match &session.home {
                Some(h) => expand_home(arg, h.as_str()),
                None => return print_line("cd: HOME not set".to_owned()),
            }
        } else {
            arg.to_owned()
        }
    } else {
        match &session.home {
            Some(h) => h.clone(),
            None => return print_line("cd: HOME not set".to_owned()),
        }
    };
    let full = join_path(session.cwd.as_str(), target.as_str());
    if is_dir(full.as_str()) {
        Action::ChangeDir(full)
    } else if args.len() == 1 {
        no_such_directory(args[0].as_str())
    } else {
        no_such_directory(target.as_str())
    }
}

/// `r` is what `exit` with the arguments `args` does.
pub open spec fn exit_acts(args: Seq<Seq<char>>, r: Action) -> bool {
    if args.len() > 1 {
        prints(r, seq!["exit: too many arguments"@])
    } else if args.len() == 1 {
        r == Action::Exit(
            match i32_of(args[0]) {
                Some(code) => code,
                None => 1,
            },
        )
    } else {
        r == Action::Exit(0)
    }
}

/// `exit`: ends the shell with the code its argument writes, 1 if it writes
/// none, 0 without an argument.
fn process_exit(args: &Vec<String>) -> (r: Action)
    ensures
        exit_acts(string_views(args@), r),
{
    if args.len() > 1 {
        return print_line("exit: too many arguments".to_owned());
    }
    let code = if args.len() == 1 {
        match parse_i32(args[0].as_str()) {
            Some(code) => code,
            None => 1,
        }
    } else {
        0
    };
    Action::Exit(code)
}

/// The line that `type` prints for `name`, which resolved to `r`.
pub open spec fn type_line(name: Seq<char>, r: Result<Executable, ParseExecutableError>) -> Seq<
    char,
> {
    match r {
        Ok(Executable::Builtin(_)) => name + " is a shell builtin"@,
        Ok(Executable::Binary(p)) => name + " is "@ + p@,
        Err(_) => name + ": not found"@,
    }
}

/// `line` is what `type` prints for `name`, for one of the things that
/// `name` may resolve to on the search path `path_var`.
pub open spec fn describes<F: Fn(&str) -> bool>(
    is_file: F,
    name: Seq<char>,
    path_var: Seq<char>,
    line: Seq<char>,
) -> bool {
    exists|e: Result<Executable, ParseExecutableError>|
        resolves_to(is_file, name, path_var, e) && line == type_line(name, e)
}

/// `r` is what `type` with the arguments `args` prints: one line for each,
/// after what it resolves to on the search path `path_var`.
pub open spec fn type_acts<F: Fn(&str) -> bool>(
    args: Seq<Seq<char>>,
    path_var: Seq<char>,
    is_file: F,
    r: Action,
) -> bool {
    match r {
        Action::Print(lines) => {
            &&& lines@.len() == args.len()
            &&& forall|k: int|
                0 <= k < args.len() ==> describes(
                    is_file,
                    args[k],
                    path_var,
                    #[trigger] string_views(lines@)[k],
                )
        },
        _ => false,
    }
}

/// `type`: tells for each argument whether it is a builtin, a file on the
/// search path, or neither.
fn process_type<F: Fn(&str) -> bool>(args: &Vec<String>, path_var: &str, is_file: &F) -> (r:
    Action)
    requires
        forall|p: &str| call_requires(*is_file, (p,)),
    ensures
        type_acts(string_views(args@), path_var@, *is_file, r),
{
    let mut lines: Vec<String> = Vec::new();
    let mut i: usize = 0;
    while i < args.len()
        invariant
            i <= args.len(),
            lines@.len() == i,
            forall|p: &str| call_requires(*is_file, (p,)),
            forall|k: int|
                0 <= k < i ==> describes(*is_file, args@[k]@, path_var@, #[trigger] lines@[k]@),
        decreases args.len() - i,
    {
        let name = args[i].as_str();
        let resolved = Executable::from_str(name, path_var, is_file);
        let mut line = name.to_owned();
        match &resolved {
            Ok(Executable::Builtin(_)) => line.append(" is a shell builtin"),
            Ok(Executable::Binary(path)) => {
                line.append(" is ");
                line.append(path.as_str());
            },
            Err(_) => line.append(": not found"),
        }
        assert(line@ == type_line(name@, resolved));
        let ghost before = lines@;
        lines.push(line);
        proof {
            assert(describes(*is_file, args@[i as int]@, path_var@, lines@[i as int]@));
            assert forall|k: int| 0 <= k < i + 1 implies describes(
                *is_file,
                args@[k]@,
                path_var@,
                #[trigger] lines@[k]@,
            ) by {
                if k < i {
                    assert(lines@[k] == before[k]);
                }
            }
        }
        i = i + 1;
    }
    proof {
        let views = string_views(args@);
        assert forall|k: int| 0 <= k < args@.len() implies describes(
            *is_file,
            views[k],
            path_var@,
            #[trigger] string_views(lines@)[k],
        ) by {
            assert(views[k] == args@[k]@);
            assert(string_views(lines@)[k] == lines@[k]@);
        }
    }
    Action::Print(lines)
}

proof fn lemma_join_push(ts: Seq<Seq<char>>, t: Seq<char>)
    requires
        ts.len() > 0,
    ensures
        join_with_spaces(ts.push(t)) == join_with_spaces(ts) + seq![' '] + t,
    decreases ts.len(),
{
    let longer = ts.push(t);
    assert(longer[0] == ts[0]);
    if ts.len() == 1 {
        assert(longer.drop_first() =~= seq![t]);
        assert(join_with_spaces(seq![t]) == t);
        assert(join_with_spaces(ts) == ts[0]);
    } else {
        lemma_join_push(ts.drop_first(), t);
        assert(longer.drop_first() =~= ts.drop_first().push(t));
        assert(ts[0] + seq![' '] + (join_with_spaces(ts.drop_first()) + seq![' '] + t) =~= ts[0]
            + seq![' '] + join_with_spaces(ts.drop_first()) + seq![' '] + t);
    }
}

/// The arguments written one after another, with one space between two.
fn join_args(args: &Vec<String>) -> (r: String)
    ensures
        r@ == join_with_spaces(string_views(args@)),
{
    let ghost views = string_views(args@);
    if args.len() == 0 {
        return String::new();
    }
    let mut r = args[0].clone();
    let mut i: usize = 1;
    assert(views.take(1) =~= seq![views[0]]);
    while i < args.len()
        invariant
            1 <= i <= args.len(),
            views == string_views(args@),
            r@ == join_with_spaces(views.take(i as int)),
        decreases args.len() - i,
    {
        proof {
            lemma_join_push(views.take(i as int), views[i as int]);
            assert(views.take(i + 1) =~= views.take(i as int).push(views[i as int]));
            reveal_strlit(" ");
        }
        r.append(" ");
        r.append(args[i].as_str());
        assert(r@ =~= join_with_spaces(views.take(i as int)) + seq![' '] + views[i as int]);
        i = i + 1;
    }
    assert(views.take(args.len() as int) =~= views);
    r
}

/// `r` is what the builtin `b` does with the arguments `args` in `session`.
pub open spec fn builtin_acts<F: Fn(&str) -> bool, G: Fn(&str) -> bool>(
    b: Builtin,
    args: Seq<Seq<char>>,
    session: Session,
    is_file: F,
    is_dir: G,
    r: Action,
) -> bool {
    match b {
        Builtin::Cd => cd_acts(args, session, is_dir, r),
        Builtin::Echo => prints(r, seq![join_with_spaces(args)]),
        Builtin::Exit => exit_acts(args, r),
        Builtin::Pwd => prints(r, seq![session.cwd@]),
        Builtin::Type => type_acts(args, session.search_path@, is_file, r),
    }
}

impl Builtin {
    /// What this builtin does with the arguments `args` in `session`.
    pub fn execute<F: Fn(&str) -> bool, G: Fn(&str) -> bool>(
        &self,
        args: &Vec<String>,
        session: &Session,
        is_file: &F,
        is_dir: &G,
    ) -> (r: Action)
        requires
            forall|p: &str| call_requires(*is_file, (p,)),
            forall|p: &str| call_requires(*is_dir, (p,)),
        ensures
            builtin_acts(*self, string_views(args@), *session, *is_file, *is_dir, r),
    {
        match self {
            Builtin::Cd => process_cd(args, session, is_dir),
            Builtin::Echo => print_line(join_args(args)),
            Builtin::Exit => process_exit(args),
            Builtin::Pwd => print_line(session.cwd.clone()),
            Builtin::Type => process_type(args, session.search_path.as_str(), is_file),
        }
    }
}

} // verus!
