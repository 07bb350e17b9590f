use eshu::arg_parser::grouped::parse_grouped_flags;
use eshu::{CliBuilder, CliFlag, StoreSyntax, StoreType};

#[test]
fn grouped_flags_attached() {
    let cli = CliBuilder::new("test")
        .add_flag(
            CliFlag::new("a-flag")
                .with_about("test", "test")
                .with_flag_char('a')
                .build()
                .unwrap(),
        )
        .add_flag(
            CliFlag::new("b-flag")
                .with_about("test", "test")
                .with_flag_char('b')
                .build()
                .unwrap(),
        )
        .add_flag(
            CliFlag::new("c-flag")
                .with_about("test", "test")
                .with_flag_char('c')
                .build()
                .unwrap(),
        )
        .add_flag(
            CliFlag::new("storing-flag")
                .with_about("test", "test")
                .with_flag_char('s')
                .with_required_store(StoreType::Value, StoreSyntax::Attached)
                .build()
                .unwrap(),
        )
        .add_flag(
            CliFlag::new("optional-storing-flag")
                .with_about("test", "test")
                .with_flag_char('o')
                .with_store(StoreType::Value, StoreSyntax::Attached)
                .build()
                .unwrap(),
        )
        .add_flag(
            CliFlag::new("required-storing-flag")
                .with_about("test", "test")
                .with_flag_char('r')
                .with_required_store(StoreType::Value, StoreSyntax::Attached)
                .build()
                .unwrap(),
        );
    let out = parse_grouped_flags("-abc", &cli, None, None).unwrap();
    assert_eq!(out.len(), 3);
    let out = parse_grouped_flags("-abs=1", &cli, None, None).unwrap();
    assert_eq!(out.len(), 3);
    let out = parse_grouped_flags("-abc", &cli, None, None).unwrap();
    assert_eq!(out.len(), 3);
    let out = parse_grouped_flags("-ao=1", &cli, None, None).unwrap();
    assert_eq!(out.len(), 2);
    let out = parse_grouped_flags("-ao", &cli, None, None).unwrap();
    assert_eq!(out.len(), 2);
    let out = parse_grouped_flags("-ar=1", &cli, None, None).unwrap();
    assert_eq!(out.len(), 2);
}

#[test]
fn single_flag_detached() {
    let cli = CliBuilder::new("test").add_flag(
        CliFlag::new("a-flag")
            .with_about("test", "test")
            .with_flag_char('a')
            .with_required_store(StoreType::Value, StoreSyntax::Detached)
            .build()
            .unwrap(),
    );
    let out = parse_grouped_flags("-a", &cli, Some("1"), None).unwrap();
    assert_eq!(out.len(), 1);
}
