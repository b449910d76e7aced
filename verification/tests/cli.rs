use capsule_box::cli::{parse, usage, Invocation};

fn args(words: &[&str]) -> Vec<String> {
    words.iter().map(|w| w.to_string()).collect()
}

fn run_of(words: &[&str]) -> (Vec<String>, String, bool) {
    match parse(&args(words)) {
        Invocation::Run { command, memory_limit, interactive } => {
            (command, memory_limit, interactive)
        }
        _ => panic!("no run"),
    }
}

#[test]
fn verbs_are_read() {
    assert!(matches!(parse(&args(&["cb", "daemon"])), Invocation::Daemon));
    assert!(matches!(parse(&args(&["cb", "list"])), Invocation::List));
    assert!(matches!(parse(&args(&["cb", "list", "x"])), Invocation::List));
    assert!(matches!(parse(&args(&["cb"])), Invocation::Unknown));
    assert!(matches!(parse(&args(&[])), Invocation::Unknown));
    assert!(matches!(parse(&args(&["cb", "Daemon"])), Invocation::Unknown));
    assert!(matches!(parse(&args(&["cb", "stop", "abc"])), Invocation::Stop { id } if id == "abc"));
    assert!(matches!(parse(&args(&["cb", "stop"])), Invocation::Stop { id } if id.is_empty()));
    assert!(
        matches!(parse(&args(&["cb", "remove", "abc"])), Invocation::Remove { id } if id == "abc")
    );
    assert!(matches!(parse(&args(&["cb", "remove"])), Invocation::Remove { id } if id.is_empty()));
}

#[test]
fn the_last_argument_of_a_run_is_the_memory_limit() {
    assert_eq!(
        run_of(&["cb", "run", "/usr/bin/python3", "script.py", "128M"]),
        (args(&["/usr/bin/python3", "script.py"]), "128M".to_string(), false)
    );
    assert_eq!(
        run_of(&["cb", "run", "-it", "/bin/sh", "256M"]),
        (args(&["/bin/sh"]), "256M".to_string(), true)
    );
    assert_eq!(
        run_of(&["cb", "run", "ls", "-it", "1G"]),
        (args(&["ls", "-it"]), "1G".to_string(), false)
    );
    assert_eq!(
        run_of(&["cb", "run", "-it", "-it", "1G"]),
        (args(&["-it"]), "1G".to_string(), true)
    );
}

#[test]
fn a_run_without_command_or_limit_is_incomplete() {
    assert!(matches!(parse(&args(&["cb", "run"])), Invocation::IncompleteRun));
    assert!(matches!(parse(&args(&["cb", "run", "ls"])), Invocation::IncompleteRun));
    assert!(matches!(parse(&args(&["cb", "run", "-it"])), Invocation::IncompleteRun));
    assert!(matches!(parse(&args(&["cb", "run", "-it", "1G"])), Invocation::IncompleteRun));
}

#[test]
fn usage_shows_an_example() {
    assert_eq!(
        usage(),
        vec![
            "用法: cb run [-it] <command...> <memory_limit>",
            "示例: cb run /bin/bash 256M",
        ]
    );
}
