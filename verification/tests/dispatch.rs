use minishell::interpret;
use minishell::step::into_line;
use minishell::step::search;
use minishell::Command;
use minishell::DirChange;
use minishell::DirQuery;
use minishell::Goal;
use minishell::Launch;
use minishell::NumberError;
use minishell::Probe;
use minishell::SearchPath;
use minishell::ShellError;
use minishell::Step;

fn strings(items: &[&str]) -> Vec<String> {
    items.iter().map(|s| s.to_string()).collect()
}

/// A system made up for a test.
struct Fake {
    files: Vec<String>,
    dirs: Vec<String>,
    working_dir: Result<String, String>,
    launch: Result<(), String>,
}

fn fake(files: &[&str]) -> Fake {
    Fake {
        files: strings(files),
        dirs: strings(&["/", "/tmp", "/home/user"]),
        working_dir: Ok("/work".to_string()),
        launch: Ok(()),
    }
}

/// Carries a command out against `system`: the requests in order, and the
/// final step.
fn run(first: Step, paths: &SearchPath, system: &mut Fake) -> (Vec<String>, Step) {
    let mut log: Vec<String> = Vec::new();
    let mut step = first;
    loop {
        step = match step {
            Step::ChangeDir(change) => {
                log.push(format!("chdir {}", change.dir));
                let changed = system.dirs.contains(&change.dir);
                if changed {
                    system.working_dir = Ok(change.dir.clone());
                }
                change.reply(changed)
            }
            Step::CurrentDir(query) => {
                log.push("getcwd".to_string());
                query.reply(system.working_dir.clone())
            }
            Step::Probe(probe) => {
                log.push(format!("stat {}", probe.path));
                let found = system.files.contains(&probe.path);
                probe.reply(found, paths)
            }
            Step::Spawn(launch) => {
                log.push(format!("spawn {} {:?}", launch.path, launch.args));
                launch.reply(system.launch.clone())
            }
            last => return (log, last),
        };
    }
}

fn run_line(line: &str, home: Option<&str>, path_var: &str, system: &mut Fake) -> (Vec<String>, Step) {
    let paths = SearchPath::from_var(path_var);
    let home = home.map(|h| h.to_string());
    run(interpret(line, home.as_ref(), &paths), &paths, system)
}

#[test]
fn a_blank_line_does_nothing() {
    for line in ["", "\n", "  \t ", "\u{3000}"] {
        let mut system = fake(&[]);
        let (log, last) = run_line(line, Some("/home/user"), "/bin", &mut system);
        assert_eq!(log, Vec::<String>::new());
        assert_eq!(last, Step::Done(None));
    }
}

#[test]
fn echo_prints_its_words() {
    let mut system = fake(&[]);
    let (log, last) = run_line("echo a   b\n", None, "/bin", &mut system);
    assert_eq!(log, Vec::<String>::new());
    assert_eq!(last, Step::Done(Some("a b\n".to_string())));
}

#[test]
fn type_knows_the_builtins() {
    for name in ["echo", "exit", "type", "pwd", "cd"] {
        let mut system = fake(&["/bin/echo", "/bin/pwd"]);
        let (log, last) = run_line(&format!("type {}", name), None, "/bin", &mut system);
        assert_eq!(log, Vec::<String>::new());
        assert_eq!(last, Step::Done(Some(format!("{} is a shell builtin\n", name))));
    }
}

#[test]
fn type_reports_an_unknown_name() {
    let mut system = fake(&["/bin/ls"]);
    let (log, last) = run_line("type frobnicate", None, "/usr/bin:/bin", &mut system);
    assert_eq!(log, strings(&["stat /usr/bin/frobnicate", "stat /bin/frobnicate"]));
    assert_eq!(last, Step::Failed(ShellError::NotFound { name: "frobnicate".to_string() }));
    match last {
        Step::Failed(error) => assert_eq!(error.message(), "frobnicate: not found"),
        other => panic!("{:?}", other),
    }
}

#[test]
fn type_prints_where_a_program_is() {
    let mut system = fake(&["/bin/ls"]);
    let (log, last) = run_line("type ls", None, "/usr/local/bin:/usr/bin:/bin:/opt", &mut system);
    assert_eq!(log, strings(&["stat /usr/local/bin/ls", "stat /usr/bin/ls", "stat /bin/ls"]));
    assert_eq!(last, Step::Done(Some("ls is /bin/ls\n".to_string())));
}

#[test]
fn the_first_directory_that_holds_the_name_wins() {
    let mut system = fake(&["/bin/ls", "/usr/bin/ls", "/opt/ls"]);
    let (log, last) = run_line("type ls", None, "/usr/local/bin:/usr/bin:/bin:/opt", &mut system);
    assert_eq!(log, strings(&["stat /usr/local/bin/ls", "stat /usr/bin/ls"]));
    assert_eq!(last, Step::Done(Some("ls is /usr/bin/ls\n".to_string())));
}

#[test]
fn cd_to_a_missing_directory_fails_and_stays() {
    let mut system = fake(&[]);
    let (log, last) = run_line("cd /nonexistent", Some("/home/user"), "/bin", &mut system);
    assert_eq!(log, strings(&["chdir /nonexistent"]));
    match last {
        Step::Failed(error) => {
            assert_eq!(error, ShellError::NoSuchDirectory { dir: "/nonexistent".to_string() });
            assert_eq!(error.message(), "cd: /nonexistent: No such file or directory");
        }
        other => panic!("{:?}", other),
    }
    assert_eq!(system.working_dir, Ok("/work".to_string()));
}

#[test]
fn cd_changes_the_directory() {
    let mut system = fake(&[]);
    let (log, last) = run_line("cd /tmp", None, "/bin", &mut system);
    assert_eq!(log, strings(&["chdir /tmp"]));
    assert_eq!(last, Step::Done(None));
    assert_eq!(system.working_dir, Ok("/tmp".to_string()));
}

#[test]
fn cd_tilde_goes_home() {
    let mut system = fake(&[]);
    let (log, last) = run_line("cd ~", Some("/home/user"), "/bin", &mut system);
    assert_eq!(log, strings(&["chdir /home/user"]));
    assert_eq!(last, Step::Done(None));
    assert_eq!(system.working_dir, Ok("/home/user".to_string()));
}

#[test]
fn cd_tilde_without_a_home_fails_and_stays() {
    let mut system = fake(&[]);
    let (log, last) = run_line("cd ~", None, "/bin", &mut system);
    assert_eq!(log, Vec::<String>::new());
    assert_eq!(last, Step::Failed(ShellError::HomeNotSet));
    assert_eq!(system.working_dir, Ok("/work".to_string()));
}

#[test]
fn cd_to_a_missing_home_names_the_home() {
    let mut system = fake(&[]);
    let (log, last) = run_line("cd ~", Some("/home/gone"), "/bin", &mut system);
    assert_eq!(log, strings(&["chdir /home/gone"]));
    assert_eq!(last, Step::Failed(ShellError::NoSuchDirectory { dir: "/home/gone".to_string() }));
}

#[test]
fn only_a_bare_tilde_stands_for_home() {
    let mut system = fake(&[]);
    let (log, _) = run_line("cd ~/x", Some("/home/user"), "/bin", &mut system);
    assert_eq!(log, strings(&["chdir ~/x"]));
}

#[test]
fn cd_alone_goes_to_the_root_directory() {
    let mut system = fake(&[]);
    let (log, last) = run_line("cd", Some("/home/user"), "/bin", &mut system);
    assert_eq!(log, strings(&["chdir /"]));
    assert_eq!(last, Step::Done(None));
}

#[test]
fn exit_ends_with_its_code() {
    let mut system = fake(&[]);
    assert_eq!(run_line("exit 7", None, "/bin", &mut system), (Vec::new(), Step::Exit(7)));
    assert_eq!(run_line("exit", None, "/bin", &mut system), (Vec::new(), Step::Exit(0)));
    assert_eq!(run_line("exit -3", None, "/bin", &mut system), (Vec::new(), Step::Exit(-3)));
}

#[test]
fn exit_with_no_number_does_not_end() {
    let mut system = fake(&[]);
    let (log, last) = run_line("exit notanumber", None, "/bin", &mut system);
    assert_eq!(log, Vec::<String>::new());
    assert_eq!(last, Step::Failed(ShellError::ExitCode(NumberError::InvalidDigit)));
}

#[test]
fn type_without_a_name_fails() {
    let mut system = fake(&[]);
    let (log, last) = run_line("type", None, "/bin", &mut system);
    assert_eq!(log, Vec::<String>::new());
    match last {
        Step::Failed(error) => assert_eq!(error.message(), "type: missing argument"),
        other => panic!("{:?}", other),
    }
}

#[test]
fn pwd_prints_the_working_directory() {
    let mut system = fake(&[]);
    let (log, last) = run_line("pwd", None, "/bin", &mut system);
    assert_eq!(log, strings(&["getcwd"]));
    assert_eq!(last, Step::Done(Some("/work\n".to_string())));
}

#[test]
fn pwd_fails_where_the_system_cannot_tell() {
    let mut system = fake(&[]);
    system.working_dir = Err("No such file or directory (os error 2)".to_string());
    let (log, last) = run_line("pwd", None, "/bin", &mut system);
    assert_eq!(log, strings(&["getcwd"]));
    assert_eq!(
        last,
        Step::Failed(ShellError::System {
            message: "No such file or directory (os error 2)".to_string()
        })
    );
}

#[test]
fn pwd_follows_cd() {
    let mut system = fake(&[]);
    run_line("cd /tmp", None, "/bin", &mut system);
    let (_, last) = run_line("pwd", None, "/bin", &mut system);
    assert_eq!(last, Step::Done(Some("/tmp\n".to_string())));
}

#[test]
fn an_unknown_program_is_not_run() {
    let mut system = fake(&["/bin/ls"]);
    let (log, last) = run_line("frob -x 1", None, "/usr/bin:/bin", &mut system);
    assert_eq!(log, strings(&["stat /usr/bin/frob", "stat /bin/frob"]));
    match last {
        Step::Failed(error) => {
            assert_eq!(error, ShellError::NotFound { name: "frob".to_string() });
            assert_eq!(error.message(), "frob: not found");
        }
        other => panic!("{:?}", other),
    }
}

#[test]
fn a_program_is_run_with_its_arguments() {
    let mut system = fake(&["/bin/ls"]);
    let (log, last) = run_line("ls  -l b a  b\n", None, "/usr/bin:/bin:/opt", &mut system);
    assert_eq!(
        log,
        strings(&["stat /usr/bin/ls", "stat /bin/ls", "spawn /bin/ls [\"-l\", \"b\", \"a\", \"b\"]"])
    );
    assert_eq!(last, Step::Done(None));
}

#[test]
fn a_program_without_arguments_gets_none() {
    let mut system = fake(&["/bin/true"]);
    let (log, last) = run_line("true", None, "/bin", &mut system);
    assert_eq!(log, strings(&["stat /bin/true", "spawn /bin/true []"]));
    assert_eq!(last, Step::Done(None));
}

#[test]
fn a_program_that_does_not_start_fails() {
    let mut system = fake(&["/bin/ls"]);
    system.launch = Err("Permission denied (os error 13)".to_string());
    let (log, last) = run_line("ls", None, "/bin", &mut system);
    assert_eq!(log, strings(&["stat /bin/ls", "spawn /bin/ls []"]));
    assert_eq!(
        last,
        Step::Failed(ShellError::System { message: "Permission denied (os error 13)".to_string() })
    );
}

#[test]
fn with_no_directories_nothing_is_found() {
    let paths = SearchPath::new(Vec::new());
    let command = Command::Exe { file: "ls".to_string(), args: Vec::new() };
    assert_eq!(
        command.execute(None, &paths),
        Step::Failed(ShellError::NotFound { name: "ls".to_string() })
    );
}

#[test]
fn execute_gives_the_first_step() {
    let paths = SearchPath::from_var("/usr/bin:/bin");
    let home = "/home/user".to_string();
    assert_eq!(Command::Pwd.execute(Some(&home), &paths), Step::CurrentDir(DirQuery {}));
    assert_eq!(
        Command::Cd { dir: "~".to_string() }.execute(Some(&home), &paths),
        Step::ChangeDir(DirChange { dir: "/home/user".to_string() })
    );
    assert_eq!(
        Command::Cd { dir: "rel".to_string() }.execute(Some(&home), &paths),
        Step::ChangeDir(DirChange { dir: "rel".to_string() })
    );
    assert_eq!(
        Command::Echo { string: "hi".to_string() }.execute(None, &paths),
        Step::Done(Some("hi\n".to_string()))
    );
    assert_eq!(Command::Exit { code: 42 }.execute(None, &paths), Step::Exit(42));
    assert_eq!(
        Command::Type { arg: "ls".to_string() }.execute(None, &paths),
        Step::Probe(Probe {
            name: "ls".to_string(),
            index: 0,
            path: "/usr/bin/ls".to_string(),
            goal: Goal::Describe,
        })
    );
    assert_eq!(
        Command::Exe { file: "cat".to_string(), args: strings(&["a", "b"]) }.execute(None, &paths),
        Step::Probe(Probe {
            name: "cat".to_string(),
            index: 0,
            path: "/usr/bin/cat".to_string(),
            goal: Goal::Launch { args: strings(&["a", "b"]) },
        })
    );
}

#[test]
fn a_probe_goes_on_to_the_next_directory() {
    let paths = SearchPath::from_var("/usr/bin:/bin");
    let first = search("ls".to_string(), Goal::Describe, &paths, 0);
    let second = match first {
        Step::Probe(probe) => probe.reply(false, &paths),
        other => panic!("{:?}", other),
    };
    assert_eq!(
        second,
        Step::Probe(Probe {
            name: "ls".to_string(),
            index: 1,
            path: "/bin/ls".to_string(),
            goal: Goal::Describe,
        })
    );
    let third = match second {
        Step::Probe(probe) => probe.reply(false, &paths),
        other => panic!("{:?}", other),
    };
    assert_eq!(third, Step::Failed(ShellError::NotFound { name: "ls".to_string() }));
}

#[test]
fn a_probe_beyond_the_path_ends_the_search() {
    let paths = SearchPath::from_var("/bin");
    let probe = Probe {
        name: "ls".to_string(),
        index: usize::MAX,
        path: "/x/ls".to_string(),
        goal: Goal::Describe,
    };
    assert_eq!(
        probe.reply(false, &paths),
        Step::Failed(ShellError::NotFound { name: "ls".to_string() })
    );
    assert_eq!(
        search("ls".to_string(), Goal::Describe, &paths, 1),
        Step::Failed(ShellError::NotFound { name: "ls".to_string() })
    );
}

#[test]
fn a_hit_ends_the_search() {
    let paths = SearchPath::from_var("/usr/bin:/bin");
    let describe = Probe {
        name: "ls".to_string(),
        index: 0,
        path: "/usr/bin/ls".to_string(),
        goal: Goal::Describe,
    };
    assert_eq!(describe.reply(true, &paths), Step::Done(Some("ls is /usr/bin/ls\n".to_string())));
    let launch = Probe {
        name: "ls".to_string(),
        index: 0,
        path: "/usr/bin/ls".to_string(),
        goal: Goal::Launch { args: strings(&["-a"]) },
    };
    assert_eq!(
        launch.reply(true, &paths),
        Step::Spawn(Launch { path: "/usr/bin/ls".to_string(), args: strings(&["-a"]) })
    );
}

#[test]
fn the_exit_code_of_a_program_does_not_matter() {
    let launch = Launch { path: "/bin/false".to_string(), args: Vec::new() };
    assert_eq!(launch.reply(Ok(())), Step::Done(None));
}

#[test]
fn final_steps_are_done_failed_and_exit() {
    assert!(Step::Done(None).is_final());
    assert!(Step::Done(Some("x".to_string())).is_final());
    assert!(Step::Failed(ShellError::HomeNotSet).is_final());
    assert!(Step::Exit(1).is_final());
    assert!(!Step::CurrentDir(DirQuery {}).is_final());
    assert!(!Step::ChangeDir(DirChange { dir: "/".to_string() }).is_final());
    assert!(!Step::Spawn(Launch { path: "/bin/ls".to_string(), args: Vec::new() }).is_final());
}

#[test]
fn echo_alone_prints_a_line_feed() {
    let mut system = fake(&[]);
    let (_, last) = run_line("echo", None, "/bin", &mut system);
    assert_eq!(last, Step::Done(Some("\n".to_string())));
}

#[test]
fn a_line_ends_with_one_line_feed() {
    assert_eq!(into_line("a b".to_string()), "a b\n");
    assert_eq!(into_line(String::new()), "\n");
    assert_eq!(into_line("x\n".to_string()), "x\n\n");
}
