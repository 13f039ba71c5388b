use replay_proxy::appguts::UnsafeAppGuts;
use replay_proxy::control::{apply_command, parse_datagram, Command, ControlOutcome,
    ControlParseError};

#[test]
fn parse_known_commands() {
    assert_eq!(parse_datagram(&b"change state".to_vec()), Ok(Command::ChangeState));
    assert_eq!(parse_datagram(&b"show db".to_vec()), Ok(Command::ShowDb));
    assert_eq!(parse_datagram(&b"stop".to_vec()), Ok(Command::Stop));
}

#[test]
fn parse_trims_surrounding_whitespace() {
    assert_eq!(parse_datagram(&b"  stop \n".to_vec()), Ok(Command::Stop));
    assert_eq!(parse_datagram(&b"\tchange state\r\n".to_vec()), Ok(Command::ChangeState));
}

#[test]
fn parse_rejects_unknown_commands() {
    assert_eq!(
        parse_datagram(&b"reset".to_vec()),
        Err(ControlParseError::UnknownCommand)
    );
    // Whitespace inside the command is not collapsed.
    assert_eq!(
        parse_datagram(&b"change  state".to_vec()),
        Err(ControlParseError::UnknownCommand)
    );
    assert_eq!(parse_datagram(&b"".to_vec()), Err(ControlParseError::UnknownCommand));
}

#[test]
fn parse_rejects_invalid_utf8() {
    assert_eq!(parse_datagram(&vec![0xff, 0xfe]), Err(ControlParseError::NotUtf8));
}

#[test]
fn change_state_toggles_mode() {
    let mut guts = UnsafeAppGuts::new();
    assert!(guts.is_record_state());
    let r = apply_command(&mut guts, &Command::ChangeState);
    assert!(matches!(r, ControlOutcome::Proceed));
    assert!(!guts.is_record_state());
    let r = apply_command(&mut guts, &Command::ChangeState);
    assert!(matches!(r, ControlOutcome::Proceed));
    assert!(guts.is_record_state());
}

#[test]
fn show_db_dumps_and_changes_nothing() {
    let mut guts = UnsafeAppGuts::new();
    let r = apply_command(&mut guts, &Command::ShowDb);
    match r {
        ControlOutcome::Dump(d) => assert_eq!(d, "records: 0"),
        _ => panic!("expected a dump"),
    }
    assert!(guts.is_record_state());
}

#[test]
fn stop_asks_for_shutdown() {
    let mut guts = UnsafeAppGuts::new();
    let r = apply_command(&mut guts, &Command::Stop);
    assert!(matches!(r, ControlOutcome::Shutdown));
    assert!(guts.is_record_state());
    assert_eq!(guts.show_data(), "records: 0");
}
