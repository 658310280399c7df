use shell::builtins::expand_home;
use shell::repl::{execute, run, Action, Session};

fn session(cwd: &str) -> Session {
    Session {
        cwd: cwd.to_string(),
        home: Some("/home/u".to_string()),
        search_path: "/usr/bin:/bin".to_string(),
    }
}

fn is_file(p: &str) -> bool {
    p == "/bin/ls" || p == "/usr/bin/cat"
}

fn is_dir(p: &str) -> bool {
    p == "/tmp" || p == "/home/u" || p == "/home/u/" || p == "/home/u/docs" || p == "/home/u/src" || p == "/home/u/x"
}

fn lines(v: &[&str]) -> Action {
    Action::Print(v.iter().map(|s| s.to_string()).collect())
}

fn turn(s: &Session, line: &str) -> Action {
    run(s, line, &is_file, &is_dir)
}

#[test]
fn cd_then_pwd() {
    let s = session("/home/u");
    assert_eq!(turn(&s, "cd /tmp\n"), Action::ChangeDir("/tmp".to_string()));
    let s = session("/tmp");
    assert_eq!(turn(&s, "pwd\n"), lines(&["/tmp"]));
}

#[test]
fn type_reports_path() {
    let s = session("/home/u");
    assert_eq!(turn(&s, "type ls\n"), lines(&["ls is /bin/ls"]));
    assert_eq!(
        turn(&s, "type echo cat nope"),
        lines(&["echo is a shell builtin", "cat is /usr/bin/cat", "nope: not found"])
    );
    assert_eq!(turn(&s, "type"), lines(&[]));
}

#[test]
fn unknown_command() {
    let s = session("/home/u");
    assert_eq!(turn(&s, "bogus123\n"), lines(&["bogus123: command not found"]));
}

#[test]
fn exit_codes() {
    let s = session("/home/u");
    assert_eq!(turn(&s, "exit 3\n"), Action::Exit(3));
    assert_eq!(turn(&s, "exit"), Action::Exit(0));
    assert_eq!(turn(&s, "exit abc"), Action::Exit(1));
    assert_eq!(turn(&s, "exit -2"), Action::Exit(-2));
    assert_eq!(turn(&s, "exit +7"), Action::Exit(7));
    assert_eq!(turn(&s, "exit 99999999999"), Action::Exit(1));
    assert_eq!(turn(&s, "exit 1 2"), lines(&["exit: too many arguments"]));
}

#[test]
fn echo_joins_arguments() {
    let s = session("/home/u");
    assert_eq!(turn(&s, "echo  a   'b  c'\r\n"), lines(&["a b  c"]));
    assert_eq!(turn(&s, "echo"), lines(&[""]));
}

#[test]
fn cd_cases() {
    let s = session("/home/u");
    assert_eq!(turn(&s, "cd"), Action::ChangeDir("/home/u".to_string()));
    assert_eq!(turn(&s, "cd ~/docs"), Action::ChangeDir("/home/u/docs".to_string()));
    assert_eq!(turn(&s, "cd ~//x"), Action::ChangeDir("/home/u/x".to_string()));
    assert_eq!(turn(&s, "cd ~"), Action::ChangeDir("/home/u/".to_string()));
    assert_eq!(turn(&s, "cd src"), Action::ChangeDir("/home/u/src".to_string()));
    assert_eq!(turn(&s, "cd nowhere"), lines(&["cd: nowhere: No such file or directory"]));
    assert_eq!(turn(&s, "cd a b"), lines(&["cd: too many arguments"]));
    let no_home = Session {
        cwd: "/".to_string(),
        home: None,
        search_path: String::new(),
    };
    assert_eq!(turn(&no_home, "cd"), lines(&["cd: HOME not set"]));
    assert_eq!(turn(&no_home, "cd ~"), lines(&["cd: HOME not set"]));
    assert_eq!(turn(&no_home, "cd /tmp"), Action::ChangeDir("/tmp".to_string()));
}

#[test]
fn external_program_is_spawned() {
    let s = session("/home/u");
    assert_eq!(
        turn(&s, "ls -l 'my dir'\n"),
        Action::Spawn("/bin/ls".to_string(), vec!["-l".to_string(), "my dir".to_string()])
    );
}

#[test]
fn empty_and_malformed_lines() {
    let s = session("/home/u");
    assert_eq!(turn(&s, "\n"), Action::Nothing);
    assert_eq!(turn(&s, "   \t\n"), Action::Nothing);
    assert_eq!(turn(&s, "'' x"), Action::Nothing);
    assert_eq!(turn(&s, "echo 'abc\n"), lines(&["Invalid arguments: quotes not closed"]));
    assert_eq!(turn(&s, "echo abc\\"), lines(&["No character to escape"]));
}

#[test]
fn execute_takes_the_line_as_given() {
    let s = session("/home/u");
    assert_eq!(execute(&s, "pwd", &is_file, &is_dir), lines(&["/home/u"]));
}

#[test]
fn home_expansion() {
    assert_eq!(expand_home("~", "/home/u"), "/home/u/");
    assert_eq!(expand_home("~//x", "/home/u"), "/home/u/x");
    assert_eq!(expand_home("~///a//b", "/home/u"), "/home/u/a//b");
    assert_eq!(expand_home("~/a/b", "/home/u"), "/home/u/a/b");
    assert_eq!(expand_home("~/", "/home/u/"), "/home/u/");
    assert_eq!(expand_home("~x", "/home/u"), "~x");
    assert_eq!(expand_home("/tmp", "/home/u"), "/tmp");
}
