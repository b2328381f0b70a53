use chest_storage::command::{parse_command, parse_i32, split_line, Command};
use chest_storage::geometry::BlockPos;
use chest_storage::notice::ParseError;

#[test]
fn verbs_without_arguments() {
    assert!(matches!(parse_command("sayhi"), Ok(Command::SayHi)));
    assert!(matches!(parse_command("index"), Ok(Command::Index)));
    assert!(matches!(parse_command("cleardb"), Ok(Command::ClearDb)));
    assert!(matches!(parse_command("deposit"), Ok(Command::Deposit)));
    assert!(matches!(parse_command("dance"), Ok(Command::Unknown)));
    assert!(matches!(parse_command(""), Ok(Command::Unknown)));
}

#[test]
fn viewchest_takes_three_integers() {
    match parse_command("viewchest 10 64 -3") {
        Ok(Command::ViewChest(p)) => assert_eq!(p, BlockPos { x: 10, y: 64, z: -3 }),
        _ => panic!("expected viewchest"),
    }
    assert!(matches!(parse_command("viewchest 10 64"), Err(ParseError::MissingArgument)));
    assert!(matches!(parse_command("viewchest 10 x 3"), Err(ParseError::BadNumber)));
    assert!(matches!(parse_command("viewchest 1.5 2 3"), Err(ParseError::BadNumber)));
}

#[test]
fn find_and_withdraw_arguments() {
    match parse_command("find diamond") {
        Ok(Command::Find(s)) => assert_eq!(s, "diamond"),
        _ => panic!("expected find"),
    }
    assert!(matches!(parse_command("find"), Err(ParseError::MissingArgument)));
    match parse_command("withdraw") {
        Ok(Command::Withdraw(s)) => assert_eq!(s, "0"),
        _ => panic!("expected withdraw"),
    }
    match parse_command("withdraw gold_ingot") {
        Ok(Command::Withdraw(s)) => assert_eq!(s, "gold_ingot"),
        _ => panic!("expected withdraw"),
    }
}

#[test]
fn fields_split_at_every_space() {
    assert_eq!(split_line("find  diamond"), vec!["find", "", "diamond"]);
    assert_eq!(split_line(""), vec![""]);
    assert_eq!(split_line("a b "), vec!["a", "b", ""]);
}

#[test]
fn integers_in_range() {
    assert_eq!(parse_i32("0"), Some(0));
    assert_eq!(parse_i32("+7"), Some(7));
    assert_eq!(parse_i32("-64"), Some(-64));
    assert_eq!(parse_i32("2147483647"), Some(2147483647));
    assert_eq!(parse_i32("-2147483648"), Some(-2147483648));
    assert_eq!(parse_i32("2147483648"), None);
    assert_eq!(parse_i32("99999999999999999999"), None);
    assert_eq!(parse_i32("-"), None);
    assert_eq!(parse_i32(""), None);
    assert_eq!(parse_i32("1a"), None);
}
