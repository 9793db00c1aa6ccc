use taskstore::cli::{AddArgs, Cli, Commands};
use taskstore::numtext::{bool_to_text, parse_bool, parse_u32};
use taskstore::store::TaskHandler;
use taskstore::task::Task;
use taskstore::time::Timestamp;

#[test]
fn decimal_printing() {
    let h = TaskHandler::new("test.csv".to_owned());
    let due = Timestamp::new(2024, 1, 1, 0, 0, 0, 0).unwrap();
    let text = h
        .write("", Task::new(u32::MAX, "n".to_owned(), due, false))
        .unwrap();
    assert_eq!(
        text,
        "id,name,due,completed\n4294967295,n,2024-01-01T00:00:00Z,false\n"
    );
}

#[test]
fn decimal_parsing() {
    assert_eq!(parse_u32("0"), Some(0));
    assert_eq!(parse_u32("00042"), Some(42));
    assert_eq!(parse_u32("4294967295"), Some(u32::MAX));
    assert_eq!(parse_u32("4294967296"), None);
    assert_eq!(parse_u32("99999999999999999999"), None);
    assert_eq!(parse_u32(""), None);
    assert_eq!(parse_u32("+1"), None);
    assert_eq!(parse_u32(" 1"), None);
    assert_eq!(parse_u32("1a"), None);
    assert_eq!(parse_u32("-1"), None);
}

#[test]
fn boolean_words() {
    assert_eq!(bool_to_text(true), "true");
    assert_eq!(bool_to_text(false), "false");
    assert_eq!(parse_bool("true"), Some(true));
    assert_eq!(parse_bool("false"), Some(false));
    assert_eq!(parse_bool("True"), None);
    assert_eq!(parse_bool(""), None);
    assert_eq!(parse_bool("truee"), None);
}

#[test]
fn timestamp_validation() {
    assert!(Timestamp::new(2024, 1, 1, 0, 0, 0, 0).is_some());
    assert!(Timestamp::new(2024, 2, 29, 0, 0, 0, 0).is_some());
    assert!(Timestamp::new(2023, 2, 29, 0, 0, 0, 0).is_none());
    assert!(Timestamp::new(2000, 2, 29, 0, 0, 0, 0).is_some());
    assert!(Timestamp::new(1900, 2, 29, 0, 0, 0, 0).is_none());
    assert!(Timestamp::new(2024, 4, 31, 0, 0, 0, 0).is_none());
    assert!(Timestamp::new(2024, 13, 1, 0, 0, 0, 0).is_none());
    assert!(Timestamp::new(2024, 0, 1, 0, 0, 0, 0).is_none());
    assert!(Timestamp::new(2024, 1, 0, 0, 0, 0, 0).is_none());
    assert!(Timestamp::new(10000, 1, 1, 0, 0, 0, 0).is_none());
    assert!(Timestamp::new(2024, 1, 1, 24, 0, 0, 0).is_none());
    assert!(Timestamp::new(2024, 1, 1, 0, 60, 0, 0).is_none());
    assert!(Timestamp::new(2024, 1, 1, 0, 0, 60, 0).is_none());
    assert!(Timestamp::new(2024, 1, 1, 0, 0, 0, 1_000_000_000).is_none());
}

#[test]
fn timestamp_formatting() {
    let h = TaskHandler::new("test.csv".to_owned());
    let t = Timestamp::new(999, 12, 31, 23, 59, 59, 0).unwrap();
    let text = h.write("", Task::new(0, "old".to_owned(), t, true)).unwrap();
    assert_eq!(
        text,
        "id,name,due,completed\n0,old,0999-12-31T23:59:59Z,true\n"
    );
    let t = Timestamp::new(2024, 5, 6, 7, 8, 9, 500_000_000).unwrap();
    let text = h.write("", Task::new(0, "half".to_owned(), t, false)).unwrap();
    assert_eq!(
        text,
        "id,name,due,completed\n0,half,2024-05-06T07:08:09.500Z,false\n"
    );
}

#[test]
fn command_shapes() {
    let cli = Cli { command: Some(Commands::Add(AddArgs { task: "write tests".to_owned() })) };
    match cli.command {
        Some(Commands::Add(args)) => assert_eq!(args.task, "write tests"),
        _ => panic!("expected the add command"),
    }
    let cli = Cli { command: Some(Commands::List { all: true }) };
    assert!(matches!(cli.command, Some(Commands::List { all: true })));
    let cli = Cli { command: None };
    assert!(cli.command.is_none());
    assert!(matches!(Commands::Remove {}, Commands::Remove {}));
    assert!(matches!(Commands::Complete {}, Commands::Complete {}));
}
