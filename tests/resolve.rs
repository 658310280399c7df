use std::cell::RefCell;

use shell::executables::{Builtin, Executable, ParseBuiltinError, ParseExecutableError};
use shell::search_path::{env_paths, find_binary, join_path};
use shell::text::chars_of;

#[test]
fn search_path_fields() {
    assert_eq!(env_paths("/a:/b"), vec!["/a", "/b"]);
    assert_eq!(env_paths("/usr/bin"), vec!["/usr/bin"]);
    assert_eq!(env_paths("/a::/b"), vec!["/a", "", "/b"]);
    assert_eq!(env_paths(":"), vec!["", ""]);
    assert_eq!(env_paths("/a:"), vec!["/a", ""]);
}

#[test]
fn empty_search_path_has_no_directories() {
    assert_eq!(env_paths(""), Vec::<String>::new());
    assert_eq!(find_binary("ls", "", &|_: &str| true), None);
}

#[test]
fn joining_paths() {
    assert_eq!(join_path("/a", "prog"), "/a/prog");
    assert_eq!(join_path("/a/", "prog"), "/a/prog");
    assert_eq!(join_path("", "prog"), "prog");
    assert_eq!(join_path("/a", "/bin/x"), "/bin/x");
    assert_eq!(join_path("/a", ""), "/a/");
}

#[test]
fn first_directory_wins() {
    let asked = RefCell::new(Vec::new());
    let is_file = |p: &str| {
        asked.borrow_mut().push(p.to_string());
        p == "/a/prog" || p == "/b/prog"
    };
    assert_eq!(find_binary("prog", "/a:/b", &is_file), Some("/a/prog".to_string()));
    assert_eq!(*asked.borrow(), vec!["/a/prog"]);
}

#[test]
fn later_directory_found_after_misses() {
    let asked = RefCell::new(Vec::new());
    let is_file = |p: &str| {
        asked.borrow_mut().push(p.to_string());
        p == "/c/prog"
    };
    assert_eq!(find_binary("prog", "/a:/b:/c", &is_file), Some("/c/prog".to_string()));
    assert_eq!(*asked.borrow(), vec!["/a/prog", "/b/prog", "/c/prog"]);
    assert_eq!(find_binary("other", "/a:/b:/c", &is_file), None);
}

#[test]
fn builtin_names_are_exact() {
    assert_eq!(Builtin::from_str("cd"), Ok(Builtin::Cd));
    assert_eq!(Builtin::from_str("echo"), Ok(Builtin::Echo));
    assert_eq!(Builtin::from_str("exit"), Ok(Builtin::Exit));
    assert_eq!(Builtin::from_str("pwd"), Ok(Builtin::Pwd));
    assert_eq!(Builtin::from_str("type"), Ok(Builtin::Type));
    assert_eq!(Builtin::from_str("ECHO"), Err(ParseBuiltinError));
    assert_eq!(Builtin::from_str("ech"), Err(ParseBuiltinError));
    assert_eq!(Builtin::from_str(""), Err(ParseBuiltinError));
}

#[test]
fn builtin_shadows_file_on_path() {
    let every_path_is_a_file = |_: &str| true;
    assert_eq!(
        Executable::from_str("echo", "/bin:/usr/bin", &every_path_is_a_file),
        Ok(Executable::Builtin(Builtin::Echo))
    );
}

#[test]
fn classify_file_and_nothing() {
    let is_file = |p: &str| p == "/usr/bin/ls";
    assert_eq!(
        Executable::from_str("ls", "/bin:/usr/bin", &is_file),
        Ok(Executable::Binary("/usr/bin/ls".to_string()))
    );
    assert_eq!(
        Executable::from_str("bogus123", "/bin:/usr/bin", &is_file),
        Err(ParseExecutableError)
    );
}

#[test]
fn characters_of_a_string() {
    assert_eq!(chars_of("aé b"), vec!['a', 'é', ' ', 'b']);
    assert_eq!(chars_of(""), Vec::<char>::new());
}
