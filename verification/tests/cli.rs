use search::cli::{build_summary, Argparse, Dispatch, ValueOrRange, EXIT_FAILURE, EXIT_SUCCESS};

fn args(list: &[&str]) -> Vec<String> {
    list.iter().map(|s| s.to_string()).collect()
}

fn parser() -> Argparse<u32> {
    let mut a = Argparse::new();
    a.register("build", 1, 1);
    a.register_range("search", 2, (2, 1));
    a.register_help("HELP");
    a
}

#[test]
fn help_is_shown_without_arguments() {
    let a = parser();
    match a.exec(&args(&["stork"])) {
        Dispatch::ShowHelp(text) => assert_eq!(text, "HELP"),
        _ => panic!("expected help"),
    }
    for flag in ["-h", "--help"] {
        let d = a.exec(&args(&["stork", flag, "extra"]));
        assert_eq!(d.exit_code(), EXIT_SUCCESS);
        assert!(matches!(d, Dispatch::ShowHelp(_)));
    }
}

#[test]
fn registered_command_runs_with_its_arguments() {
    let a = parser();
    let d = a.exec(&args(&["stork", "--build", "config.toml"]));
    assert!(matches!(d, Dispatch::Run(&1)));
    assert_eq!(d.exit_code(), EXIT_SUCCESS);
    assert!(matches!(a.exec(&args(&["stork", "--search", "i.st"])), Dispatch::Run(&2)));
    assert!(matches!(a.exec(&args(&["stork", "--search", "i.st", "q"])), Dispatch::Run(&2)));
}

#[test]
fn wrong_argument_count_is_reported() {
    let a = parser();
    match a.exec(&args(&["stork", "--build"])) {
        Dispatch::WrongArgCount(m) => assert_eq!(
            m,
            "Wrong number of arguments given to `build` command. Expected 1 but got 0."
        ),
        _ => panic!("expected a wrong count"),
    }
    let d = a.exec(&args(&["stork", "--search", "a", "b", "c"]));
    assert_eq!(d.exit_code(), EXIT_FAILURE);
    match d {
        Dispatch::WrongArgCount(m) => assert_eq!(
            m,
            "Wrong number of arguments given to `search` command. Expected between 1 and 2 but got 3."
        ),
        _ => panic!("expected a wrong count"),
    }
}

#[test]
fn unknown_command_is_reported() {
    let a = parser();
    let d = a.exec(&args(&["stork", "--serve"]));
    assert_eq!(d.exit_code(), EXIT_FAILURE);
    match d {
        Dispatch::NotFound(m) => assert_eq!(m, "Command not found: `--serve`."),
        _ => panic!("expected not found"),
    }
}

#[test]
fn without_help_text_help_flags_are_commands() {
    let mut a: Argparse<u32> = Argparse::new();
    a.register("help", 7, 0);
    assert!(matches!(a.exec(&args(&["stork", "--help"])), Dispatch::Run(&7)));
    match a.exec(&args(&["stork", "-h"])) {
        Dispatch::NotFound(m) => assert_eq!(m, "Command not found: `-h`."),
        _ => panic!("expected not found"),
    }
}

#[test]
fn first_registration_wins() {
    let mut a: Argparse<u32> = Argparse::new();
    a.register("build", 1, 1);
    a.register("build", 2, 0);
    assert!(matches!(a.exec(&args(&["stork", "--build", "x"])), Dispatch::Run(&1)));
    assert!(matches!(a.exec(&args(&["stork", "--build"])), Dispatch::WrongArgCount(_)));
}

#[test]
fn argument_count_is_taken_modulo_256() {
    let mut a: Argparse<u32> = Argparse::new();
    a.register("build", 1, 1);
    let mut argv = vec!["stork".to_string(), "--build".to_string()];
    argv.extend((0..257).map(|i| i.to_string()));
    assert!(matches!(a.exec(&argv), Dispatch::Run(&1)));
}

#[test]
fn range_bounds_in_either_order() {
    let mut a: Argparse<u32> = Argparse::new();
    a.register_range("one", 1, (3, 3));
    a.register_range("two", 2, (1, 3));
    a.register_range("three", 3, (3, 1));
    match a.exec(&args(&["stork", "--one"])) {
        Dispatch::WrongArgCount(m) => assert!(m.ends_with("Expected 3 but got 0.")),
        _ => panic!("expected a wrong count"),
    }
    assert!(matches!(a.exec(&args(&["stork", "--two", "a", "b"])), Dispatch::Run(&2)));
    assert!(matches!(a.exec(&args(&["stork", "--three", "a"])), Dispatch::Run(&3)));
}

#[test]
fn arity_descriptions() {
    assert_eq!(ValueOrRange::Value(0).describe(), "0");
    assert_eq!(ValueOrRange::Value(255).describe(), "255");
    assert_eq!(ValueOrRange::Range(10, 200).describe(), "between 10 and 200");
    assert!(ValueOrRange::Value(1).accepts(257));
    assert!(!ValueOrRange::Value(1).accepts(2));
    assert!(ValueOrRange::Range(1, 3).accepts(3));
    assert!(!ValueOrRange::Range(1, 3).accepts(4));
}

#[test]
fn summary_groups_thousands() {
    assert_eq!(
        build_summary(1234567, "out.st"),
        "Index built, 1,234,567 bytes written to out.st. "
    );
    assert_eq!(
        build_summary(999, "x"),
        "Index built, 999 bytes written to x. "
    );
    assert_eq!(
        build_summary(1000, "x"),
        "Index built, 1,000 bytes written to x. "
    );
    assert_eq!(
        build_summary(0, "x"),
        "Index built, 0 bytes written to x. (Maybe you're in debug mode.)"
    );
}

#[test]
fn dispatch_needs_a_first_argument_or_help() {
    let mut a: Argparse<u32> = Argparse::new();
    assert!(!a.can_dispatch(&args(&["stork"])));
    assert!(a.can_dispatch(&args(&["stork", "--x"])));
    a.register_help("h");
    assert!(a.can_dispatch(&args(&["stork"])));
}
