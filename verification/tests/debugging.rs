use chronicle::debugger::{debug_command, DebugAction};

#[test]
fn stepping_stays_within_the_trace() {
    assert!(matches!(debug_command(0, 3, "next"), Ok((1, DebugAction::Current))));
    assert!(matches!(debug_command(2, 3, "n"), Ok((2, DebugAction::Current))));
    assert!(matches!(debug_command(0, 3, "prev"), Ok((0, DebugAction::Current))));
    assert!(matches!(debug_command(2, 3, "p"), Ok((1, DebugAction::Current))));
    assert!(matches!(debug_command(2, 8, "back 5"), Ok((0, DebugAction::Current))));
    assert!(matches!(debug_command(5, 8, "back"), Ok((4, DebugAction::Current))));
    assert!(matches!(debug_command(1, 8, "forward 3"), Ok((4, DebugAction::Current))));
    assert!(matches!(debug_command(6, 8, "forward 18446744073709551615"), Ok((7, DebugAction::Current))));
}

#[test]
fn jumping_checks_the_index() {
    assert!(matches!(debug_command(0, 21, "jump 20"), Ok((20, DebugAction::Current))));
    assert_eq!(debug_command(0, 21, "j 21").unwrap_err(), "event index 21 out of bounds");
    assert_eq!(debug_command(0, 21, "jump").unwrap_err(), "jump expects an event index");
    assert_eq!(debug_command(0, 21, "jump x").unwrap_err(), "invalid event index");
    assert_eq!(debug_command(0, 21, "back x").unwrap_err(), "invalid amount");
}

#[test]
fn commands_with_ranges_and_paths() {
    assert!(matches!(debug_command(3, 10, "diff 1 7"), Ok((3, DebugAction::Diff(1, 7)))));
    assert!(matches!(debug_command(3, 10, "slice 1 3"), Ok((3, DebugAction::Slice(1, 3)))));
    assert_eq!(debug_command(3, 10, "diff 1").unwrap_err(), "diff expects to index");
    assert_eq!(debug_command(3, 10, "slice").unwrap_err(), "slice expects from index");
    match debug_command(3, 10, "export-slice 1 2 --out /tmp/s.ctrace") {
        Ok((3, DebugAction::ExportSlice(1, 2, path))) => assert_eq!(path, "/tmp/s.ctrace"),
        other => panic!("unexpected {other:?}"),
    }
    assert_eq!(debug_command(3, 10, "export-slice 1 2 -o x").unwrap_err(), "export-slice expects --out path");
    assert_eq!(debug_command(3, 10, "export-slice 1 2 --out").unwrap_err(), "export-slice expects output path");
}

#[test]
fn other_commands() {
    assert!(matches!(debug_command(0, 1, ""), Ok((0, DebugAction::Nothing))));
    assert!(matches!(debug_command(0, 1, "quit"), Ok((0, DebugAction::Quit))));
    assert!(matches!(debug_command(0, 1, "regs"), Ok((0, DebugAction::Registers))));
    assert!(matches!(debug_command(0, 1, "why"), Ok((0, DebugAction::Why))));
    match debug_command(0, 1, "frobnicate now") {
        Ok((0, DebugAction::Unknown(w))) => assert_eq!(w, "frobnicate"),
        other => panic!("unexpected {other:?}"),
    }
}
