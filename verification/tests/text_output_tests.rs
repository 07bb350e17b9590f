use eshu::cli::help::help;
use eshu::{Cli, CliCmd, CliFlag, StoreSyntax, StoreType};
use std::rc::Rc;

#[test]
fn help_text_of_a_basic_interface() {
    let cli = Cli::new("t")
        .with_version("1.0")
        .basic()
        .try_parse_custom(vec!["t".to_string()])
        .unwrap();
    let expected = "t\nVersion: 1.0\n\n\n\nAll available flags:\n\n -h                       --help                    Usage: -h --help          \n                                                                              Prints\n                                                                              help\n                                                                              information\n                                                                              \n                                                                              \n                                                                              Also\n                                                                              prints\n                                                                              this\n                                                                              message.\n                                                                              \n\n\n                          --version                 Usage:    --version       \n                                                                              Prints\n                                                                              version\n                                                                              information\n                                                                              \n                                                                              \n                                                                              Prints\n                                                                              nothing\n                                                                              else.\n                                                                              \n\n\nThis CLI experience is provided by Eshu, version 0.1.0.\nFor more information, visit https://github.com/xqhare/eshu\n";
    assert_eq!(help(&cli, 80), expected);
}

#[test]
fn help_text_wraps_at_a_narrow_width() {
    let cli = Cli::new("tool")
        .with_version("2.1")
        .with_about("A tool that does things.")
        .add_flag(
            CliFlag::new("port")
                .with_flag_char('p')
                .with_about("Port", "The port to listen on for incoming connections from clients")
                .with_required_store(StoreType::Value, StoreSyntax::Detached)
                .build()
                .unwrap(),
        )
        .add_flag(
            CliFlag::new("define")
                .with_about("Define", "Set a key")
                .with_store(StoreType::KeyValue, StoreSyntax::Attached)
                .build()
                .unwrap(),
        )
        .add_command(Rc::new(
            CliCmd::new("run")
                .with_about("Run it", "Runs the thing")
                .add_flag(
                    CliFlag::new("fast")
                        .with_flag_char('f')
                        .with_about("Fast", "Go fast")
                        .build()
                        .unwrap(),
                )
                .build()
                .unwrap(),
        ))
        .try_parse_custom(vec!["tool".to_string()])
        .unwrap();
    let expected = "tool\nVersion: 2.1\n\nA tool that does things.\n\nAll available flags:\n\n -h                 --help              Usage: -h --help    \n                                                            Prints\n                                                            help\n                                                            information\n                                                            \n                                                            \n                                                            Also\n                                                            prints\n                                                            this\n                                                            message.\n                                                            \n\n\n                    --version           Usage:    --version \n                                                            Prints\n                                                            version\n                                                            information\n                                                            \n                                                            \n                                                            Prints\n                                                            nothing\n                                                            else.\n                                                            \n\n\n -p                 --port              Usage: -p VALUE --port VALUE\n                                                            Port\n                                                            \n                                                            \n                                                            The\n                                                            port\n                                                            to\n                                                            listen\n                                                            on\n                                                            for\n                                                            incoming\n                                                            connections\n                                                            from\n                                                            clients\n                                                            \n\n\n                    --define            Usage:                --define[=KEY=VALUE]\n                                                            Define\n                                                            \n                                                            \n                                                            Set\n                                                            a\n                                                            key\n                                                            \n\n\n\n\nAll available commands:\n\n run                Run it\n                    Runs the thing\n                    \nAll available flags for this command:\n\n -f                 --fast              Usage: -f --fast    \n                                                            Fast\n                                                            \n                                                            \n                                                            Go\n                                                            fast\n                                                            \n\n\n\nThis CLI experience is provided by Eshu,\nversion 0.1.0.\nFor more information, visit\nhttps://github.com/xqhare/eshu\n";
    assert_eq!(help(&cli, 40), expected);
}

#[test]
fn manpage_in_full() {
    let cli = Cli::new("test-cli")
        .with_version("1.2.3")
        .with_about("A simple test CLI program.\n.dot line\n  'quoted")
        .with_author_and_publish_date(
            "Jane Doe <jane@example.com>".to_string(),
            "2026-06-16".to_string(),
        )
        .add_flag(
            CliFlag::new("verbose")
                .with_flag_char('v')
                .with_about("verbose output", "Print extra verbose details when executing.")
                .build()
                .unwrap(),
        )
        .add_flag(
            CliFlag::new("file")
                .with_flag_char('f')
                .with_about("file input", "Path to file.")
                .with_required_store(StoreType::Value, StoreSyntax::Detached)
                .build()
                .unwrap(),
        )
        .add_flag(
            CliFlag::new("config")
                .with_about("config option", "Path to config.")
                .with_required_store(StoreType::KeyValue, StoreSyntax::Attached)
                .build()
                .unwrap(),
        )
        .add_command(Rc::new(
            CliCmd::new("status")
                .with_about("Show status", "Shows the current status of the program.")
                .add_flag(
                    CliFlag::new("detailed")
                        .with_flag_char('d')
                        .with_about("Detailed output", "Provide more detailed output.")
                        .build()
                        .unwrap(),
                )
                .build()
                .unwrap(),
        ))
        .try_parse_custom(vec!["test-cli".to_string()])
        .unwrap();
    let expected = ".TH test-cli 1 \"2026-06-16\" \"1.2.3\" \"User Commands\"\n.SH NAME\ntest-cli\n.SH DESCRIPTION\nA simple test CLI program.\n\\&.dot line\n\\&  'quoted\n.SH FLAGS\n.TP\n\\fB\\-h\\fR, \\fB\\-\\-help\\fR\nPrints help information Also prints this message.\n.TP\n\\fB\\-\\-version\\fR\nPrints version information Prints nothing else.\n.TP\n\\fB\\-v\\fR, \\fB\\-\\-verbose\\fR\nverbose output Print extra verbose details when executing.\n.TP\n\\fB\\-f\\fR, \\fB\\-\\-file\\fR \\fIVALUE\\fR\nfile input Path to file.\n.TP\n\\fB\\-\\-config\\fR=\\fIKEY=VALUE\\fR\nconfig option Path to config.\n.SH COMMANDS\n.TP\n\\fBstatus\\fR\nShow status Shows the current status of the program.\n.RS\n.SS FLAGS\n.TP\n\\fB\\-d\\fR, \\fB\\-\\-detailed\\fR\nDetailed output Provide more detailed output.\n.RE\n.SH AUTHOR\nJane Doe <jane@example.com>\n";
    assert_eq!(cli.make_manpage(), expected);
    assert_eq!(eshu::cli::roff::generate_roff_manpage(&cli), expected);
}

#[test]
fn manpage_without_author_has_no_author_section() {
    let cli = Cli::new("x")
        .with_version("1")
        .basic()
        .try_parse_custom(vec!["x".to_string()])
        .unwrap();
    let page = cli.make_manpage();
    assert!(!page.contains(".SH AUTHOR"));
    assert!(!page.contains(".SH COMMANDS"));
    assert!(page.starts_with(".TH x 1 \"\" \"1\" \"User Commands\"\n.SH NAME\nx\n.SH DESCRIPTION\n.SH FLAGS\n"));
}

#[test]
fn version_text_names_program_and_version() {
    let cli = Cli::new("tool")
        .with_version("2.1")
        .basic()
        .try_parse_custom(vec!["tool".to_string()])
        .unwrap();
    assert_eq!(cli.version_text(), "tool version 2.1");
}
