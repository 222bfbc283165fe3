use shell_core::builtins::{echo_text, exit_status, parse_i32, Builtin};
use shell_core::env::{split_path, EnvStore};
use shell_core::parse::{parse_line, split_assignment, split_words};
use shell_core::resolve::{join_path, resolve};
use shell_core::shell::{lookup_report, not_runnable, relay, run_target, Action, Shell, Stream};

fn s(t: &str) -> String {
    t.to_string()
}

fn strs(ts: &[&str]) -> Vec<String> {
    ts.iter().map(|t| t.to_string()).collect()
}

fn shell_with(vars: &[(&str, &str)]) -> Shell {
    let pairs: Vec<(String, String)> = vars.iter().map(|(k, v)| (s(k), s(v))).collect();
    Shell::new(&pairs, s("/home/user"))
}

fn printed(a: Action) -> String {
    match a {
        Action::Print(t) => t,
        other => panic!("expected output, got {:?}", other),
    }
}

fn env_lines(sh: &mut Shell) -> Vec<String> {
    printed(sh.step("env")).lines().map(|l| l.to_string()).collect()
}

#[test]
fn words_split_on_runs_of_whitespace() {
    assert_eq!(split_words("  ls\t -l   /tmp "), strs(&["ls", "-l", "/tmp"]));
    assert_eq!(split_words(""), Vec::<String>::new());
    assert_eq!(split_words(" \t "), Vec::<String>::new());
}

#[test]
fn assignment_splits_at_first_equals() {
    assert_eq!(split_assignment("KEY=a=b"), Some((s("KEY"), s("a=b"))));
    assert_eq!(split_assignment("KEY="), Some((s("KEY"), s(""))));
    assert_eq!(split_assignment("plain"), None);
}

#[test]
fn parse_reads_assignments_executable_and_args() {
    let inv = parse_line("FOO=bar BAZ=x=y echo hi  there").unwrap();
    assert_eq!(inv.assignments, vec![(s("FOO"), s("bar")), (s("BAZ"), s("x=y"))]);
    assert_eq!(inv.executable, Some(s("echo")));
    assert_eq!(inv.args, strs(&["hi", "there"]));
}

#[test]
fn parse_blank_line_gives_nothing() {
    assert!(parse_line("").is_none());
    assert!(parse_line("    ").is_none());
}

#[test]
fn parse_assignments_alone_have_no_executable() {
    let inv = parse_line("FOO=bar").unwrap();
    assert_eq!(inv.assignments, vec![(s("FOO"), s("bar"))]);
    assert_eq!(inv.executable, None);
    assert!(inv.args.is_empty());
}

#[test]
fn parse_words_after_executable_are_args_even_with_equals() {
    let inv = parse_line("A=1 cmd B=2").unwrap();
    assert_eq!(inv.executable, Some(s("cmd")));
    assert_eq!(inv.args, strs(&["B=2"]));
}

#[test]
fn assignment_line_sets_store_value_with_equals() {
    let mut sh = shell_with(&[]);
    assert_eq!(printed(sh.step("FOO=a=b")), "");
    assert_eq!(sh.env().get("FOO"), Some(s("a=b")));
}

#[test]
fn repeated_assignment_last_wins() {
    let mut sh = shell_with(&[]);
    sh.step("K=1 K=2");
    assert_eq!(sh.env().get("K"), Some(s("2")));
}

#[test]
fn temporary_assignment_reaches_env_of_its_line() {
    let mut sh = shell_with(&[("HOME", "/h")]);
    let lines = env_lines_of(&mut sh, "FOO=1 env");
    assert!(lines.contains(&s("FOO=1")));
    assert!(lines.contains(&s("HOME=/h")));
    assert_eq!(sh.env().get("FOO"), None);
}

fn env_lines_of(sh: &mut Shell, line: &str) -> Vec<String> {
    printed(sh.step(line)).lines().map(|l| l.to_string()).collect()
}

#[test]
fn temporary_assignment_overrides_global_in_env() {
    let mut sh = shell_with(&[("FOO", "global")]);
    let lines = env_lines_of(&mut sh, "FOO=temp env");
    assert!(lines.contains(&s("FOO=temp")));
    assert!(!lines.contains(&s("FOO=global")));
    assert_eq!(sh.env().get("FOO"), Some(s("global")));
}

#[test]
fn type_prefers_first_directory() {
    let mut sh = shell_with(&[]);
    sh.step("PATH=/a:/b:/c");
    let a = sh.step("type foo");
    let dirs = match a {
        Action::Lookup { name, dirs } => {
            assert_eq!(name, "foo");
            dirs
        }
        other => panic!("expected a lookup, got {:?}", other),
    };
    assert_eq!(dirs, strs(&["/a", "/b", "/c"]));
    let listings = vec![Some(strs(&["foo", "bar"])), Some(strs(&["foo"])), None];
    assert_eq!(lookup_report("foo", &dirs, &listings), "foo is /a/foo\n");
}

#[test]
fn which_prefers_first_directory() {
    let mut sh = shell_with(&[("PATH", "/a:/b:/c")]);
    let dirs = match sh.step("which foo") {
        Action::Lookup { dirs, .. } => dirs,
        other => panic!("expected a lookup, got {:?}", other),
    };
    let listings = vec![None, Some(strs(&["foo"])), Some(strs(&["foo"]))];
    assert_eq!(lookup_report("foo", &dirs, &listings), "foo is /b/foo\n");
}

#[test]
fn export_then_env_lists_binding() {
    let mut sh = shell_with(&[]);
    assert_eq!(printed(sh.step("export FOO=bar")), "");
    assert!(env_lines(&mut sh).contains(&s("FOO=bar")));
}

#[test]
fn temporary_assignment_not_kept_after_line() {
    let mut sh = shell_with(&[]);
    assert_eq!(printed(sh.step("FOO=bar echo hi")), "hi\n");
    assert!(env_lines(&mut sh).iter().all(|l| !l.starts_with("FOO=")));
}

#[test]
fn export_updates_existing_binding() {
    let mut sh = shell_with(&[("FOO", "old")]);
    sh.step("export FOO=new");
    assert_eq!(sh.env().get("FOO"), Some(s("new")));
}

#[test]
fn export_promotes_over_same_line_temporary() {
    let mut sh = shell_with(&[]);
    sh.step("FOO=tmp export FOO=kept");
    assert_eq!(sh.env().get("FOO"), Some(s("kept")));
}

#[test]
fn export_format_errors_change_nothing() {
    let mut sh = shell_with(&[("A", "1")]);
    assert_eq!(printed(sh.step("export")), "Error: Bad format\n");
    assert_eq!(printed(sh.step("export FOO")), "Error: Bad format\n");
    assert_eq!(printed(sh.step("export A=2 B=3")), "Error: Bad format\n");
    assert_eq!(printed(sh.step("export A=b=c")), "Error setting var\n");
    assert_eq!(sh.env().get("A"), Some(s("1")));
    assert_eq!(sh.env().get("B"), None);
}

#[test]
fn exit_statuses() {
    let mut sh = shell_with(&[]);
    assert_eq!(sh.step("exit 0"), Action::Exit(0));
    assert_eq!(sh.step("exit 7"), Action::Exit(7));
    assert_eq!(sh.step("exit abc"), Action::Exit(0));
    assert_eq!(sh.step("exit"), Action::Exit(0));
    assert_eq!(sh.step("exit -3"), Action::Exit(-3));
}

#[test]
fn exit_status_range() {
    assert_eq!(exit_status(&strs(&["2147483647"])), i32::MAX);
    assert_eq!(exit_status(&strs(&["-2147483648"])), i32::MIN);
    assert_eq!(exit_status(&strs(&["2147483648"])), 0);
    assert_eq!(exit_status(&strs(&["99999999999999999999"])), 0);
}

#[test]
fn parse_i32_forms() {
    assert_eq!(parse_i32("42"), Some(42));
    assert_eq!(parse_i32("+42"), Some(42));
    assert_eq!(parse_i32("-0"), Some(0));
    assert_eq!(parse_i32("007"), Some(7));
    assert_eq!(parse_i32("-"), None);
    assert_eq!(parse_i32("+"), None);
    assert_eq!(parse_i32(""), None);
    assert_eq!(parse_i32("12a"), None);
    assert_eq!(parse_i32(" 1"), None);
}

#[test]
fn echo_joins_args() {
    let mut sh = shell_with(&[]);
    assert_eq!(printed(sh.step("echo a b c")), "a b c\n");
    assert_eq!(printed(sh.step("echo")), "\n");
    assert_eq!(echo_text(&strs(&["x"])), "x\n");
}

#[test]
fn type_reports_builtins() {
    let mut sh = shell_with(&[]);
    assert_eq!(printed(sh.step("type cd")), "cd is a shell builtin\n");
    assert_eq!(printed(sh.step("type echo")), "echo is a shell builtin\n");
    assert_eq!(printed(sh.step("type env")), "env is a shell builtin\n");
}

#[test]
fn type_reports_not_found_with_empty_path() {
    let mut sh = shell_with(&[]);
    let (name, dirs) = match sh.step("type nonexistent_binary_xyz") {
        Action::Lookup { name, dirs } => (name, dirs),
        other => panic!("expected a lookup, got {:?}", other),
    };
    assert!(dirs.is_empty());
    assert_eq!(lookup_report(&name, &dirs, &vec![]), "nonexistent_binary_xyz: not found\n");
}

#[test]
fn type_reports_not_found_with_other_path() {
    let dirs = strs(&["/usr/bin"]);
    let listings = vec![Some(strs(&["ls", "cat"]))];
    assert_eq!(lookup_report("nonexistent_binary_xyz", &dirs, &listings), "nonexistent_binary_xyz: not found\n");
}

#[test]
fn which_reports_path() {
    let mut sh = shell_with(&[("PATH", "/usr/local/bin:/usr/bin")]);
    let (name, dirs) = match sh.step("which somecmd") {
        Action::Lookup { name, dirs } => (name, dirs),
        other => panic!("expected a lookup, got {:?}", other),
    };
    let listings = vec![Some(strs(&["other"])), Some(strs(&["somecmd"]))];
    assert_eq!(lookup_report(&name, &dirs, &listings), "somecmd is /usr/bin/somecmd\n");
}

#[test]
fn which_resolves_builtin_names_too() {
    let mut sh = shell_with(&[("PATH", "/bin")]);
    match sh.step("which echo") {
        Action::Lookup { name, dirs } => {
            assert_eq!(name, "echo");
            assert_eq!(dirs, strs(&["/bin"]));
        }
        other => panic!("expected a lookup, got {:?}", other),
    }
}

#[test]
fn unknown_command_reports_and_shell_goes_on() {
    let mut sh = shell_with(&[("PATH", "/bin")]);
    let (name, dirs) = match sh.step("nosuchcmd arg") {
        Action::Run { name, args, dirs, .. } => {
            assert_eq!(args, strs(&["arg"]));
            (name, dirs)
        }
        other => panic!("expected a run, got {:?}", other),
    };
    let listings = vec![Some(strs(&["ls"]))];
    assert_eq!(run_target(&name, &dirs, &listings), None);
    assert_eq!(not_runnable(&name), "nosuchcmd: command not found\n");
    assert_eq!(printed(sh.step("echo ok")), "ok\n");
}

#[test]
fn run_gets_effective_environment() {
    let mut sh = shell_with(&[("PATH", "/bin"), ("A", "1")]);
    match sh.step("A=2 PATH=/x prog") {
        Action::Run { env, dirs, .. } => {
            assert_eq!(dirs, strs(&["/x"]));
            assert!(env.contains(&(s("A"), s("2"))));
            assert!(env.contains(&(s("PATH"), s("/x"))));
            assert_eq!(env.len(), 2);
        }
        other => panic!("expected a run, got {:?}", other),
    }
    assert_eq!(sh.env().search_path(), &strs(&["/bin"]));
}

#[test]
fn run_target_takes_paths_as_given() {
    assert_eq!(run_target("./prog", &vec![], &vec![]), Some(s("./prog")));
    assert_eq!(run_target("/bin/ls", &strs(&["/usr/bin"]), &vec![None]), Some(s("/bin/ls")));
    assert_eq!(run_target("ls", &strs(&["/usr/bin"]), &vec![Some(strs(&["ls"]))]), Some(s("/usr/bin/ls")));
}

#[test]
fn failed_cd_keeps_directory() {
    let mut sh = shell_with(&[]);
    assert_eq!(sh.step("cd /nonexistent"), Action::ChangeDir(s("/nonexistent")));
    assert_eq!(sh.entered("/nonexistent", None), "cd: /nonexistent: No such file or directory\n");
    assert_eq!(printed(sh.step("pwd")), "/home/user\n");
}

#[test]
fn successful_cd_moves_directory() {
    let mut sh = shell_with(&[]);
    assert_eq!(sh.step("cd /tmp"), Action::ChangeDir(s("/tmp")));
    assert_eq!(sh.entered("/tmp", Some(s("/tmp"))), "");
    assert_eq!(printed(sh.step("pwd")), "/tmp\n");
    assert_eq!(sh.cwd(), "/tmp");
}

#[test]
fn cd_argument_count_errors() {
    let mut sh = shell_with(&[]);
    assert_eq!(printed(sh.step("cd")), "Error: Bad format\n");
    assert_eq!(printed(sh.step("cd /a /b")), "Error: Bad format\n");
}

#[test]
fn blank_line_does_nothing() {
    let mut sh = shell_with(&[("A", "1")]);
    assert_eq!(printed(sh.step("   ")), "");
    assert_eq!(sh.env().get("A"), Some(s("1")));
}

#[test]
fn store_set_get_snapshot() {
    let mut st = EnvStore::new();
    assert_eq!(st.get("X"), None);
    st.set(s("X"), s("1"));
    st.set(s("Y"), s("2"));
    st.set(s("X"), s("3"));
    assert_eq!(st.get("X"), Some(s("3")));
    let mut snap = st.snapshot();
    snap.sort();
    assert_eq!(snap, vec![(s("X"), s("3")), (s("Y"), s("2"))]);
    assert!(st.search_path().is_empty());
}

#[test]
fn store_path_key_any_case() {
    let mut st = EnvStore::new();
    st.set(s("path"), s("/a:/b"));
    assert_eq!(st.search_path(), &strs(&["/a", "/b"]));
    st.set(s("PATH"), s("/c"));
    assert_eq!(st.search_path(), &strs(&["/c"]));
    assert_eq!(st.get("path"), Some(s("/a:/b")));
    st.set(s("PATHS"), s("/d"));
    assert_eq!(st.search_path(), &strs(&["/c"]));
}

#[test]
fn store_seeded_from_inherited() {
    let st = EnvStore::from_pairs(&vec![(s("PATH"), s("/usr/bin:/bin")), (s("A"), s("x")), (s("A"), s("y"))]);
    assert_eq!(st.get("A"), Some(s("y")));
    assert_eq!(st.search_path(), &strs(&["/usr/bin", "/bin"]));
    assert_eq!(st.snapshot().len(), 2);
}

#[test]
fn split_path_keeps_empty_pieces() {
    assert_eq!(split_path("/a:/b:/c"), strs(&["/a", "/b", "/c"]));
    assert_eq!(split_path(""), strs(&[""]));
    assert_eq!(split_path("/a::/b:"), strs(&["/a", "", "/b", ""]));
}

#[test]
fn join_path_forms() {
    assert_eq!(join_path("/a", "x"), "/a/x");
    assert_eq!(join_path("/a/", "x"), "/a/x");
    assert_eq!(join_path("", "x"), "x");
}

#[test]
fn resolve_skips_unlisted_directories() {
    let dirs = strs(&["/a", "/b"]);
    assert_eq!(resolve("x", &dirs, &vec![None, Some(strs(&["x"]))]), Some(s("/b/x")));
    assert_eq!(resolve("x", &dirs, &vec![None, None]), None);
}

#[test]
fn builtin_table_is_exact() {
    assert_eq!(Builtin::named("cd"), Some(Builtin::Cd));
    assert_eq!(Builtin::named("which"), Some(Builtin::Which));
    assert_eq!(Builtin::named("CD"), None);
    assert_eq!(Builtin::named("path"), None);
}

#[test]
fn relay_by_status() {
    assert_eq!(relay(true, vec![1], vec![2]), (Stream::Stdout, vec![1]));
    assert_eq!(relay(false, vec![1], vec![2]), (Stream::Stderr, vec![2]));
}
