use eshu::arg_parser::parser::parse_short_flag;
use eshu::cli::help::{Indentation, TermWriter};
use eshu::text::{lines, split_whitespace};
use eshu::{
    Cli, CliBuilder, CliCmd, CliFlag, EshuErrorKind, KvMap, StartupAction, StoreSyntax, StoreType,
};
use std::rc::Rc;

fn args(list: &[&str]) -> Vec<String> {
    list.iter().map(|s| s.to_string()).collect()
}

fn flag(name: &str, c: char) -> CliFlag {
    CliFlag::new(name)
        .with_flag_char(c)
        .with_about("about", "more about")
        .build()
        .unwrap()
}

fn port_flag() -> CliFlag {
    CliFlag::new("port")
        .with_flag_char('p')
        .with_about("Port", "Port to use")
        .with_required_store(StoreType::Value, StoreSyntax::Detached)
        .build()
        .unwrap()
}

fn config_flag() -> CliFlag {
    CliFlag::new("config")
        .with_flag_char('c')
        .with_about("Config", "Key-value settings")
        .with_required_store(StoreType::KeyValue, StoreSyntax::Detached)
        .build()
        .unwrap()
}

fn with_cmd() -> CliBuilder {
    Cli::new("prog").with_version("1.0").add_command(Rc::new(
        CliCmd::new("cmd")
            .with_about("cmd", "a command")
            .add_flag(port_flag())
            .build()
            .unwrap(),
    ))
}

#[test]
fn only_defined_flags_are_recorded() {
    let cli = Cli::new("prog")
        .with_version("1.0")
        .add_flag(flag("a-flag", 'a'))
        .handle_unknown_args()
        .try_parse_custom(args(&["prog", "-a", "--zzz", "-q", "pos"]))
        .unwrap();
    assert!(cli.is_flag_entered("a-flag"));
    assert!(!cli.is_flag_entered("zzz"));
    assert!(!cli.is_flag_entered("q"));
    assert_eq!(cli.get_unknown_args().unwrap(), &args(&["--zzz", "-q"]));
    assert_eq!(cli.get_stray_positional_args(), &args(&["pos"]));
}

#[test]
fn unknown_arguments_fail_unless_handled() {
    let err = Cli::new("prog")
        .with_version("1.0")
        .add_flag(flag("a-flag", 'a'))
        .try_parse_custom(args(&["prog", "--zzz", "--yyy"]))
        .unwrap_err();
    assert_eq!(err.source_name(), "eshu::parser");
    match err.kind() {
        EshuErrorKind::UnknownArgument(a) => assert_eq!(a, "--zzz"),
        _ => panic!("Expected EshuErrorKind::UnknownArgument"),
    }
    assert_eq!(
        err.kind().message(),
        "Usage error: Unknown argument(s): --zzz"
    );
    let cli = Cli::new("prog")
        .with_version("1.0")
        .add_flag(flag("a-flag", 'a'))
        .try_parse_custom(args(&["prog", "-a"]))
        .unwrap();
    assert!(cli.get_unknown_args().is_none());
}

#[test]
fn end_of_flags_marker_first() {
    let cli = Cli::new("prog")
        .with_version("1.0")
        .add_flag(flag("a-flag", 'a'))
        .try_parse_custom(args(&["prog", "--", "-a", "--b", "x"]))
        .unwrap();
    assert!(!cli.is_flag_entered("a-flag"));
    assert_eq!(cli.get_stray_positional_args(), &args(&["-a", "--b", "x"]));
}

#[test]
fn end_of_flags_marker_hands_rest_to_storing_flag() {
    let builder = || {
        Cli::new("prog").with_version("1.0").add_flag(
            CliFlag::new("opt")
                .with_flag_char('o')
                .with_about("Opt", "Optional values")
                .with_store(StoreType::Value, StoreSyntax::Detached)
                .build()
                .unwrap(),
        )
    };
    let cli = builder()
        .try_parse_custom(args(&["prog", "--opt", "--", "1", "2"]))
        .unwrap();
    assert_eq!(
        cli.get_flag_store("opt").unwrap().as_value().unwrap(),
        &args(&["1", "2"])
    );
    assert!(cli.get_stray_positional_args().is_empty());
    let cli = builder()
        .try_parse_custom(args(&["prog", "-o", "--", "1", "2"]))
        .unwrap();
    assert_eq!(
        cli.get_flag_store("opt").unwrap().as_value().unwrap(),
        &args(&["1", "2"])
    );
    assert!(cli.get_stray_positional_args().is_empty());
    let cli = Cli::new("prog")
        .with_version("1.0")
        .add_flag(port_flag())
        .try_parse_custom(args(&["prog", "-p", "--", "1"]))
        .unwrap();
    assert_eq!(
        cli.get_flag_store("port").unwrap().as_value().unwrap(),
        &args(&["1"])
    );
    let cli = Cli::new("prog")
        .with_version("1.0")
        .add_flag(port_flag())
        .try_parse_custom(args(&["prog", "--port", "--", "1", "2"]))
        .unwrap();
    assert_eq!(
        cli.get_flag_store("port").unwrap().as_value().unwrap(),
        &args(&["1", "2"])
    );
}

#[test]
fn partial_long_flag_needs_a_unique_prefix() {
    let builder = || {
        Cli::new("prog")
            .with_version("1.0")
            .add_flag(flag("verbose", 'v'))
    };
    let cli = builder()
        .try_parse_custom(args(&["prog", "--verb"]))
        .unwrap();
    assert!(cli.is_flag_entered("verbose"));
    assert!(!cli.is_flag_entered("version"));
    let err = builder()
        .try_parse_custom(args(&["prog", "--ver"]))
        .unwrap_err();
    match err.kind() {
        EshuErrorKind::UnknownArgument(a) => assert_eq!(a, "--ver"),
        _ => panic!("Expected EshuErrorKind::UnknownArgument"),
    }
}

#[test]
fn help_and_version_cannot_be_taken() {
    for (name, c, expected) in [
        ("help", 'x', "Duplicate Flag: help"),
        ("version", 'y', "Duplicate Flag: version"),
        ("other", 'h', "Duplicate Short Flag Char: h"),
    ] {
        let err = Cli::new("prog")
            .with_version("1.0")
            .add_flag(flag(name, c))
            .try_parse_custom(args(&["prog"]))
            .unwrap_err();
        assert_eq!(err.source_name(), "eshu::builder");
        match err.kind() {
            EshuErrorKind::Duplicate(msg) => assert_eq!(msg, expected),
            _ => panic!("Expected EshuErrorKind::Duplicate"),
        }
    }
}

#[test]
fn help_and_version_are_always_there() {
    let cli = Cli::new("prog")
        .with_version("1.0")
        .basic()
        .try_parse_custom(args(&["prog", "-h", "--version"]))
        .unwrap();
    assert!(cli.is_flag_entered("help"));
    assert!(cli.is_flag_entered("version"));
}

#[test]
fn values_of_a_flag_accumulate() {
    let cli = Cli::new("prog")
        .with_version("1.0")
        .add_flag(port_flag())
        .try_parse_custom(args(&["prog", "-p", "1", "--port", "2", "-p", "3", "rest"]))
        .unwrap();
    assert_eq!(
        cli.get_flag_store("port").unwrap().as_value().unwrap(),
        &args(&["1", "2", "3"])
    );
    assert_eq!(cli.get_stray_positional_args(), &args(&["rest"]));
}

#[test]
fn a_flag_given_once_is_recorded_once() {
    let cli = Cli::new("prog")
        .with_version("1.0")
        .add_flag(flag("a-flag", 'a'))
        .add_flag(flag("b-flag", 'b'))
        .try_parse_custom(args(&["prog", "-ab", "-a"]))
        .unwrap();
    assert!(cli.get_flag_store("a-flag").unwrap().is_exists());
    assert!(cli.get_flag_store("b-flag").unwrap().is_exists());
}

#[test]
fn key_value_pairs_read_back_what_was_written() {
    let mut map = KvMap::new();
    assert!(map.is_empty());
    map.insert("b".to_string(), "1".to_string());
    map.insert("a".to_string(), "2".to_string());
    map.insert("b".to_string(), "3".to_string());
    assert_eq!(map.len(), 2);
    assert_eq!(map.get("b").unwrap(), "3");
    assert_eq!(map.get("a").unwrap(), "2");
    assert!(map.get("c").is_none());
    assert!(map.contains_key("a"));
    assert_eq!(
        map.entries(),
        &vec![
            ("a".to_string(), "2".to_string()),
            ("b".to_string(), "3".to_string())
        ]
    );
}

#[test]
fn later_pairs_win_in_a_parse() {
    let cli = Cli::new("prog")
        .with_version("1.0")
        .add_flag(config_flag())
        .try_parse_custom(args(&["prog", "--config", "a=1", "-c", "a=2", "-c", "b=x=y"]))
        .unwrap();
    let store = cli.get_flag_store("config").unwrap().as_key_value().unwrap();
    assert_eq!(store.get("a").unwrap(), "2");
    assert_eq!(store.get("b").unwrap(), "x=y");
    assert_eq!(store.len(), 2);
}

#[test]
fn startup_actions_innermost_first() {
    let cli = with_cmd()
        .try_parse_custom(args(&["prog", "cmd", "-p", "1"]))
        .unwrap();
    assert_eq!(cli.startup_actions(), vec![StartupAction::Execute(0)]);

    let cli = with_cmd()
        .try_parse_custom(args(&["prog", "-h"]))
        .unwrap();
    assert_eq!(cli.startup_actions(), vec![StartupAction::PrintHelp(0)]);

    let cli = with_cmd()
        .try_parse_custom(args(&["prog", "--version"]))
        .unwrap();
    assert_eq!(cli.startup_actions(), vec![StartupAction::PrintVersion(0)]);

    let cli = with_cmd()
        .try_parse_custom(args(&["prog", "--version", "cmd", "--help"]))
        .unwrap();
    assert_eq!(cli.startup_actions(), vec![StartupAction::PrintHelp(1)]);

    let cli = with_cmd()
        .try_parse_custom(args(&["prog", "--version", "cmd"]))
        .unwrap();
    assert_eq!(cli.startup_actions(), vec![StartupAction::PrintVersion(0)]);

    let cli = with_cmd()
        .without_auto_execution()
        .try_parse_custom(args(&["prog", "cmd"]))
        .unwrap();
    assert!(cli.startup_actions().is_empty());
}

#[test]
fn subcommand_errors_carry_context() {
    let err = with_cmd()
        .try_parse_custom(args(&["prog", "cmd", "--port"]))
        .unwrap_err();
    assert_eq!(err.source_name(), "eshu::parser");
    assert_eq!(
        err.context(),
        &vec!["Parsing arguments for subcommand 'cmd'".to_string()]
    );
    match err.kind() {
        EshuErrorKind::MissingArgument {
            flag,
            expected_syntax,
        } => {
            assert_eq!(flag, "--port");
            assert_eq!(expected_syntax, "--port VALUE");
        }
        _ => panic!("Expected EshuErrorKind::MissingArgument"),
    }
    assert_eq!(
        err.kind().message(),
        "Usage error: Flag '--port' requires an argument. Please provide one via the following syntax: '--port VALUE'"
    );
}

#[test]
fn subcommand_by_unique_prefix() {
    let cli = with_cmd()
        .try_parse_custom(args(&["prog", "cm", "-p", "9"]))
        .unwrap();
    assert!(cli.is_subcommand_entered("cmd"));
    let inner = cli.get_subcommand_cli("cmd").unwrap();
    assert_eq!(
        inner.get_flag_store("port").unwrap().as_value().unwrap(),
        &args(&["9"])
    );
    assert!(cli.get_subcommand_cli("other").is_none());
}

#[test]
fn each_error_kind_has_its_input() {
    let err = Cli::new("my tool")
        .with_version("1.0")
        .basic()
        .try_parse_custom(args(&["x"]))
        .unwrap_err();
    assert!(matches!(err.kind(), EshuErrorKind::InvalidName(_)));

    let err = Cli::new("prog")
        .with_version("1.0")
        .try_parse_custom(args(&["x"]))
        .unwrap_err();
    assert!(matches!(err.kind(), EshuErrorKind::NoFlagsOrCommands));
    assert_eq!(err.context().len(), 1);
    assert_eq!(
        err.kind().message(),
        "No flags or commands set, add at least one."
    );

    let err = Cli::new("prog")
        .add_flag(flag("a-flag", 'a'))
        .try_parse_custom(args(&["x"]))
        .unwrap_err();
    match err.kind() {
        EshuErrorKind::EmptyString(m) => assert_eq!(m, "Version must not be empty"),
        _ => panic!("Expected EshuErrorKind::EmptyString"),
    }

    let err = Cli::new("prog")
        .with_version("1.0")
        .add_flag(flag("a-flag", 'a'))
        .try_parse_custom(args(&["x", "-az"]))
        .unwrap_err();
    match err.kind() {
        EshuErrorKind::Generic(m) => assert_eq!(m, "Flag character 'z' not found"),
        _ => panic!("Expected EshuErrorKind::Generic"),
    }

    let err = Cli::new("prog")
        .with_version("1.0")
        .add_flag(flag("a-flag", 'a'))
        .try_parse_custom(args(&["x", "-a1"]))
        .unwrap_err();
    match err.kind() {
        EshuErrorKind::Generic(m) => assert_eq!(m, "Invalid flag character: 1"),
        _ => panic!("Expected EshuErrorKind::Generic"),
    }

    let err = CliFlag::new_custom(
        None,
        "x".to_string(),
        String::new(),
        String::new(),
        true,
        false,
        None,
        None,
    )
    .unwrap_err();
    assert!(matches!(err.kind(), EshuErrorKind::Storage(_)));

    let err = CliFlag::new("a-flag")
        .with_flag_char('1')
        .with_about("a", "b")
        .build()
        .unwrap_err();
    assert!(matches!(err.kind(), EshuErrorKind::InvalidFlagName(_)));

    let builder = Cli::new("prog").with_version("1.0").add_flag(flag("a-flag", 'a'));
    let err = parse_short_flag("", &builder, None, None).unwrap_err();
    match err.kind() {
        EshuErrorKind::EmptyString(m) => assert_eq!(m, "Argument must not be empty"),
        _ => panic!("Expected EshuErrorKind::EmptyString"),
    }
}

#[test]
fn lines_and_words_follow_std() {
    let text = "a b\r\n\n  c\td  \nlast\r";
    let got = lines(text);
    let want: Vec<String> = text.lines().map(|s| s.to_string()).collect();
    assert_eq!(got, want);
    assert_eq!(got, args(&["a b", "", "  c\td  ", "last\r"]));
    let words = split_whitespace("  c\td \u{a0}e  ");
    let want: Vec<String> = "  c\td \u{a0}e  "
        .split_whitespace()
        .map(|s| s.to_string())
        .collect();
    assert_eq!(words, want);
    assert_eq!(words, args(&["c", "d", "e"]));
    assert!(lines("").is_empty());
    assert_eq!(lines("x\n"), args(&["x"]));
}

#[test]
fn nested_subcommands_run_innermost_first() {
    let cli = Cli::new("prog")
        .with_version("1.0")
        .add_command(Rc::new(
            CliCmd::new("parent")
                .with_about("parent", "the parent")
                .add_subcommand(Rc::new(
                    CliCmd::new("child")
                        .with_about("child", "the child")
                        .add_flag(flag("x-flag", 'x'))
                        .build()
                        .unwrap(),
                ))
                .build()
                .unwrap(),
        ))
        .try_parse_custom(args(&["prog", "parent", "child", "-x"]))
        .unwrap();
    assert_eq!(
        cli.startup_actions(),
        vec![StartupAction::Execute(1), StartupAction::Execute(0)]
    );
    let inner = cli
        .get_subcommand_cli("parent")
        .unwrap()
        .get_subcommand_cli("child")
        .unwrap();
    assert!(inner.is_flag_entered("x-flag"));
}

#[test]
fn help_at_the_top_ends_the_actions() {
    let cli = with_cmd()
        .try_parse_custom(args(&["prog", "-h", "cmd", "-p", "1"]))
        .unwrap();
    assert_eq!(cli.startup_actions(), vec![StartupAction::PrintHelp(0)]);
    let cli = with_cmd()
        .try_parse_custom(args(&["prog", "-h", "--version"]))
        .unwrap();
    assert_eq!(cli.startup_actions(), vec![StartupAction::PrintHelp(0)]);
}

#[test]
fn writer_column_follows_the_last_line() {
    let mut w = TermWriter::new(80);
    w.push_str("ab\ncd");
    w.pad_to_column(1);
    assert_eq!(w.buffer, format!("ab\ncd{}", " ".repeat(24)));
    w.push_str("x");
    w.pad_to_column(1);
    assert_eq!(w.buffer, format!("ab\ncd{}x", " ".repeat(24)));
    w.push_str("\n");
    w.pad_to_column(2);
    assert_eq!(w.buffer, format!("ab\ncd{}x\n{}", " ".repeat(24), " ".repeat(52)));
    let mut narrow = TermWriter::new(10);
    narrow.wrap_text("one two three", 0);
    assert_eq!(narrow.buffer, "one two\nthree\n");
}

#[test]
fn indentation_is_a_third_of_the_width_within_bounds() {
    assert_eq!(Indentation::new(80).amount, 26);
    assert_eq!(Indentation::new(30).amount, 20);
    assert_eq!(Indentation::new(300).amount, 40);
    assert_eq!(Indentation::new(300).max_width, 300);
}

#[test]
fn grouped_flag_with_value_at_the_end() {
    let builder = || {
        Cli::new("prog")
            .with_version("1.0")
            .add_flag(flag("a-flag", 'a'))
            .add_flag(flag("b-flag", 'b'))
            .add_flag(
                CliFlag::new("c-flag")
                    .with_flag_char('C')
                    .with_about("C", "takes a value")
                    .with_required_store(StoreType::Value, StoreSyntax::Attached)
                    .build()
                    .unwrap(),
            )
    };
    let apart = builder()
        .try_parse_custom(args(&["prog", "-ab", "-C=Argument"]))
        .unwrap();
    let together = builder()
        .try_parse_custom(args(&["prog", "-abC=Argument"]))
        .unwrap();
    for cli in [&apart, &together] {
        assert!(cli.is_flag_entered("a-flag"));
        assert!(cli.is_flag_entered("b-flag"));
        assert_eq!(
            cli.get_flag_store("c-flag").unwrap().as_value().unwrap(),
            &args(&["Argument"])
        );
    }
}

#[test]
fn error_report_names_source_and_context() {
    let err = with_cmd()
        .try_parse_custom(args(&["prog", "cmd", "--port"]))
        .unwrap_err();
    assert_eq!(
        err.report(),
        "eshu::parser: Usage error: Flag '--port' requires an argument. Please provide one via the following syntax: '--port VALUE'\nParsing arguments for subcommand 'cmd'"
    );
}

#[test]
fn flag_builder_changes_name_and_stores_change_in_place() {
    let f = CliFlag::new("old-name")
        .change_long_flag("new-name")
        .with_about("a", "b")
        .build()
        .unwrap();
    let cli = Cli::new("prog")
        .with_version("1.0")
        .add_flag(f)
        .add_flag(port_flag())
        .add_flag(config_flag())
        .try_parse_custom(args(&["prog", "--new-name", "-p", "1", "-c", "k=v"]))
        .unwrap();
    assert!(cli.is_flag_entered("new-name"));
    assert!(!cli.is_flag_entered("old-name"));

    let mut store = eshu::Store::Value(args(&["1"]));
    store.as_mut_value().unwrap().push("2".to_string());
    assert_eq!(store.as_value().unwrap(), &args(&["1", "2"]));
    assert!(store.as_mut_key_value().is_none());

    let mut store = eshu::Store::KeyValue(KvMap::new());
    store
        .as_mut_key_value()
        .unwrap()
        .insert("k".to_string(), "v".to_string());
    assert_eq!(store.as_key_value().unwrap().get("k").unwrap(), "v");
    assert!(store.as_mut_value().is_none());
    assert!(store.is_key_value() && !store.is_value() && !store.is_exists());
}

#[test]
fn positions_after_a_consumed_value() {
    let cli = Cli::new("prog")
        .with_version("1.0")
        .add_flag(port_flag())
        .add_flag(flag("a-flag", 'a'))
        .try_parse_custom(args(&["prog", "-p", "1", "-a", "--", "y"]))
        .unwrap();
    assert_eq!(cli.get_stray_positional_args(), &args(&["y"]));

    let cli = Cli::new("prog")
        .with_version("1.0")
        .add_flag(port_flag())
        .add_command(Rc::new(
            CliCmd::new("cmd")
                .with_about("cmd", "a command")
                .add_flag(port_flag())
                .build()
                .unwrap(),
        ))
        .try_parse_custom(args(&["prog", "-p", "1", "cmd", "-p", "2"]))
        .unwrap();
    assert_eq!(
        cli.get_flag_store("port").unwrap().as_value().unwrap(),
        &args(&["1"])
    );
    let inner = cli.get_subcommand_cli("cmd").unwrap();
    assert!(inner.get_stray_positional_args().is_empty());
    assert_eq!(
        inner.get_flag_store("port").unwrap().as_value().unwrap(),
        &args(&["2"])
    );
}

#[test]
fn long_flag_takes_every_following_value() {
    let builder = || {
        Cli::new("prog").with_version("1.0").add_flag(
            CliFlag::new("long-flag")
                .with_about("Long", "Takes values")
                .with_store(StoreType::Value, StoreSyntax::Detached)
                .build()
                .unwrap(),
        )
    };
    let together = builder()
        .try_parse_custom(args(&["prog", "--long-flag", "a0", "a1", "a2"]))
        .unwrap();
    let repeated = builder()
        .try_parse_custom(args(&[
            "prog",
            "--long-flag",
            "a0",
            "--long-flag",
            "a1",
            "--long-flag",
            "a2",
        ]))
        .unwrap();
    for cli in [&together, &repeated] {
        assert_eq!(
            cli.get_flag_store("long-flag").unwrap().as_value().unwrap(),
            &args(&["a0", "a1", "a2"])
        );
        assert!(cli.get_stray_positional_args().is_empty());
    }
    let cli = builder()
        .try_parse_custom(args(&["prog", "--long-flag", "a0", "a1", "--", "x"]))
        .unwrap();
    assert_eq!(
        cli.get_flag_store("long-flag").unwrap().as_value().unwrap(),
        &args(&["a0", "a1"])
    );
    assert_eq!(cli.get_stray_positional_args(), &args(&["x"]));
    let err = Cli::new("prog")
        .with_version("1.0")
        .add_flag(config_flag())
        .try_parse_custom(args(&["prog", "--config", "a=1", "bad"]))
        .unwrap_err();
    assert!(matches!(err.kind(), EshuErrorKind::MissingArgument { .. }));
}

#[test]
fn a_bare_flag_takes_later_values() {
    let cli = Cli::new("prog")
        .with_version("1.0")
        .add_flag(
            CliFlag::new("opt")
                .with_flag_char('o')
                .with_about("Opt", "Optional values")
                .with_store(StoreType::Value, StoreSyntax::Detached)
                .build()
                .unwrap(),
        )
        .try_parse_custom(args(&["prog", "-o", "-o", "v"]))
        .unwrap();
    assert_eq!(
        cli.get_flag_store("opt").unwrap().as_value().unwrap(),
        &args(&["v"])
    );
}

#[test]
fn group_value_is_every_following_character() {
    let cli = CliBuilder::new("test")
        .add_flag(flag("a-flag", 'a'))
        .add_flag(flag("b-flag", 'b'))
        .add_flag(
            CliFlag::new("storing-flag")
                .with_about("test", "test")
                .with_flag_char('s')
                .with_required_store(StoreType::Value, StoreSyntax::Attached)
                .build()
                .unwrap(),
        );
    let out = eshu::arg_parser::grouped::parse_grouped_flags("-sab", &cli, None, None).unwrap();
    assert_eq!(out.len(), 1);
    assert_eq!(out[0].0, "storing-flag");
    assert_eq!(out[0].1 .1.as_value().unwrap(), &args(&["ab"]));
}

#[test]
fn version_and_flag_names_are_checked() {
    let err = Cli::new("prog")
        .with_version("")
        .basic()
        .try_parse_custom(args(&["prog"]))
        .unwrap_err();
    assert_eq!(err.source_name(), "eshu::builder");
    assert!(matches!(err.kind(), EshuErrorKind::EmptyString(_)));
    let err = CliFlag::new("--").with_about("a", "b").build().unwrap_err();
    assert!(matches!(err.kind(), EshuErrorKind::EmptyString(_)));
    let err = CliFlag::new("---x").with_about("a", "b").build().unwrap_err();
    assert!(matches!(err.kind(), EshuErrorKind::InvalidFlagName(_)));
    let err = CliFlag::new_custom(
        None,
        "flag".to_string(),
        "short\nabout".to_string(),
        "long".to_string(),
        false,
        false,
        None,
        None,
    )
    .unwrap_err();
    assert!(matches!(err.kind(), EshuErrorKind::Generic(_)));
    assert!(CliFlag::new_custom(
        Some('l'),
        "long-flag".to_string(),
        "short about".to_string(),
        "long about".to_string(),
        false,
        true,
        Some(StoreType::Value),
        Some(StoreSyntax::Attached),
    )
    .is_ok());
}

#[test]
fn without_auto_execution_runs_no_nested_command() {
    let cli = Cli::new("prog")
        .with_version("1.0")
        .without_auto_execution()
        .add_command(Rc::new(
            CliCmd::new("parent")
                .with_about("parent", "the parent")
                .add_subcommand(Rc::new(
                    CliCmd::new("child")
                        .with_about("child", "the child")
                        .add_flag(flag("x-flag", 'x'))
                        .build()
                        .unwrap(),
                ))
                .build()
                .unwrap(),
        ))
        .try_parse_custom(args(&["prog", "parent", "child", "-x"]))
        .unwrap();
    assert!(cli.startup_actions().is_empty());
}

#[test]
fn end_of_flags_marker_after_flags() {
    let cli = Cli::new("prog")
        .with_version("1.0")
        .add_flag(flag("a-flag", 'a'))
        .add_flag(flag("b-flag", 'b'))
        .try_parse_custom(args(&["prog", "--a-flag", "--b-flag", "--", "-x", "y"]))
        .unwrap();
    assert!(cli.is_flag_entered("a-flag"));
    assert!(cli.is_flag_entered("b-flag"));
    assert_eq!(cli.get_stray_positional_args(), &args(&["-x", "y"]));
}

#[test]
fn unknown_long_flags_in_order() {
    let cli = Cli::new("prog")
        .with_version("1.0")
        .add_flag(flag("a-flag", 'a'))
        .handle_unknown_args()
        .try_parse_custom(args(&["prog", "--zz", "--yy", "--xx"]))
        .unwrap();
    assert_eq!(cli.get_unknown_args().unwrap(), &args(&["--zz", "--yy", "--xx"]));
}

fn opt_flag() -> CliFlag {
    CliFlag::new("opt")
        .with_flag_char('o')
        .with_about("Opt", "Optional values")
        .with_store(StoreType::Value, StoreSyntax::Detached)
        .build()
        .unwrap()
}

#[test]
fn end_of_flags_marker_after_short_flags_and_groups() {
    let cli = Cli::new("prog")
        .with_version("1.0")
        .add_flag(flag("a-flag", 'a'))
        .add_flag(flag("b-flag", 'b'))
        .add_flag(flag("c-flag", 'c'))
        .try_parse_custom(args(&["prog", "-ab", "-c", "--a-flag", "--", "-x", "y", "--"]))
        .unwrap();
    assert!(cli.is_flag_entered("a-flag"));
    assert!(cli.is_flag_entered("b-flag"));
    assert!(cli.is_flag_entered("c-flag"));
    assert_eq!(cli.get_stray_positional_args(), &args(&["-x", "y", "--"]));
    assert!(cli.get_unknown_args().is_none());
}

#[test]
fn unknown_flags_and_positionals_keep_their_order() {
    let builder = || {
        Cli::new("prog")
            .with_version("1.0")
            .add_flag(flag("a-flag", 'a'))
    };
    let cli = builder()
        .handle_unknown_args()
        .try_parse_custom(args(&["prog", "--zz", "-q", "x", "--yy", "y", "-a"]))
        .unwrap();
    assert_eq!(cli.get_unknown_args().unwrap(), &args(&["--zz", "-q", "--yy"]));
    assert_eq!(cli.get_stray_positional_args(), &args(&["x", "y"]));
    assert!(cli.is_flag_entered("a-flag"));
    let err = builder()
        .try_parse_custom(args(&["prog", "x", "-q", "--zz"]))
        .unwrap_err();
    match err.kind() {
        EshuErrorKind::UnknownArgument(a) => assert_eq!(a, "-q"),
        _ => panic!("Expected EshuErrorKind::UnknownArgument"),
    }
}

#[test]
fn arguments_after_a_marker_stay_positional() {
    let base = || Cli::new("prog").with_version("1.0").add_flag(flag("a-flag", 'a'));
    let cli = base()
        .try_parse_custom(args(&["prog", "x", "--", "y", "-a"]))
        .unwrap();
    assert_eq!(cli.get_stray_positional_args(), &args(&["x", "y", "-a"]));
    assert!(!cli.is_flag_entered("a-flag"));
    let cli = base()
        .handle_unknown_args()
        .try_parse_custom(args(&["prog", "-q", "--", "y"]))
        .unwrap();
    assert_eq!(cli.get_unknown_args().unwrap(), &args(&["-q"]));
    assert_eq!(cli.get_stray_positional_args(), &args(&["y"]));
    let cli = base()
        .handle_unknown_args()
        .try_parse_custom(args(&["prog", "--zz", "--", "y", "z"]))
        .unwrap();
    assert_eq!(cli.get_unknown_args().unwrap(), &args(&["--zz"]));
    assert_eq!(cli.get_stray_positional_args(), &args(&["y", "z"]));
}

#[test]
fn a_group_skips_the_next_argument_only_when_it_took_it() {
    let builder = || {
        Cli::new("prog")
            .with_version("1.0")
            .add_flag(flag("a-flag", 'a'))
            .add_flag(flag("b-flag", 'b'))
            .add_flag(opt_flag())
            .add_flag(
                CliFlag::new("storing-flag")
                    .with_about("test", "test")
                    .with_flag_char('s')
                    .with_required_store(StoreType::Value, StoreSyntax::Attached)
                    .build()
                    .unwrap(),
            )
    };
    let cli = builder()
        .try_parse_custom(args(&["prog", "-sab", "x"]))
        .unwrap();
    assert_eq!(
        cli.get_flag_store("storing-flag").unwrap().as_value().unwrap(),
        &args(&["ab"])
    );
    assert_eq!(cli.get_stray_positional_args(), &args(&["x"]));
    let cli = builder()
        .try_parse_custom(args(&["prog", "-ao", "-b"]))
        .unwrap();
    assert!(cli.is_flag_entered("b-flag"));
    assert!(cli.get_flag_store("opt").unwrap().as_value().unwrap().is_empty());
    let cli = builder()
        .try_parse_custom(args(&["prog", "-ao", "v", "w"]))
        .unwrap();
    assert_eq!(cli.get_flag_store("opt").unwrap().as_value().unwrap(), &args(&["v"]));
    assert_eq!(cli.get_stray_positional_args(), &args(&["w"]));
}

#[test]
fn a_group_is_refused_past_a_flag_with_an_optional_value() {
    let cli = CliBuilder::new("test")
        .add_flag(flag("a-flag", 'a'))
        .add_flag(opt_flag());
    let err = eshu::arg_parser::grouped::parse_grouped_flags("-ao1", &cli, None, None).unwrap_err();
    match err.kind() {
        EshuErrorKind::Generic(m) => assert_eq!(m, "Invalid flag character: 1"),
        _ => panic!("Expected EshuErrorKind::Generic"),
    }
    let err = eshu::arg_parser::grouped::parse_grouped_flags("-aoz", &cli, None, None).unwrap_err();
    match err.kind() {
        EshuErrorKind::Generic(m) => assert_eq!(m, "Flag character 'z' not found"),
        _ => panic!("Expected EshuErrorKind::Generic"),
    }
}

#[test]
fn rest_after_marker_goes_to_a_required_value_or_stays_positional() {
    let builder = || {
        Cli::new("prog")
            .with_version("1.0")
            .add_flag(flag("a-flag", 'a'))
            .add_flag(opt_flag())
            .add_flag(port_flag())
            .add_flag(
                CliFlag::new("c-flag")
                    .with_flag_char('C')
                    .with_about("C", "takes a value")
                    .with_required_store(StoreType::Value, StoreSyntax::Attached)
                    .build()
                    .unwrap(),
            )
    };
    let cli = builder()
        .try_parse_custom(args(&["prog", "-aC=val", "--", "y"]))
        .unwrap();
    assert!(cli.is_flag_entered("a-flag"));
    assert_eq!(cli.get_flag_store("c-flag").unwrap().as_value().unwrap(), &args(&["val"]));
    assert_eq!(cli.get_stray_positional_args(), &args(&["y"]));
    let cli = builder()
        .try_parse_custom(args(&["prog", "-ap", "--", "x", "y"]))
        .unwrap();
    assert_eq!(cli.get_flag_store("port").unwrap().as_value().unwrap(), &args(&["x", "y"]));
    assert!(cli.get_stray_positional_args().is_empty());
    let cli = builder()
        .try_parse_custom(args(&["prog", "-ao", "--", "y"]))
        .unwrap();
    assert!(cli.get_flag_store("opt").unwrap().as_value().unwrap().is_empty());
    assert_eq!(cli.get_stray_positional_args(), &args(&["y"]));
    let cli = builder()
        .try_parse_custom(args(&["prog", "--a-flag=x", "--", "y"]))
        .unwrap();
    assert!(cli.is_flag_entered("a-flag"));
    assert_eq!(cli.get_stray_positional_args(), &args(&["y"]));
}

#[test]
fn unknown_arguments_beside_a_positional_one() {
    let cli = Cli::new("t")
        .with_version("1")
        .basic()
        .handle_unknown_args()
        .try_parse_custom(args(&["t", "--zzz", "x"]))
        .unwrap();
    assert_eq!(cli.get_unknown_args().unwrap(), &args(&["--zzz"]));
    assert_eq!(cli.get_stray_positional_args(), &args(&["x"]));
}
