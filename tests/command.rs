use pcb_router::command_flags::{apply_command, parse_command, should_block, Command, CommandFlag};

#[test]
fn flag_levels() {
    assert_eq!(CommandFlag::AstarFrontierOrUpdatePosterior.get_level(), 0);
    assert_eq!(CommandFlag::AstarInOut.get_level(), 1);
    assert_eq!(CommandFlag::UpdatePosteriorResult.get_level(), 2);
    assert_eq!(CommandFlag::ProbaModelResult.get_level(), 3);
    assert_eq!(CommandFlag::Auto.get_level(), 4);
}

#[test]
fn commands_are_read_from_tokens() {
    assert_eq!(parse_command(""), Command::ProceedAll);
    assert_eq!(parse_command("i"), Command::Decrease);
    assert_eq!(parse_command("o"), Command::Increase);
    assert_eq!(parse_command("x"), Command::Unknown);
    assert_eq!(parse_command("io"), Command::Unknown);
}

#[test]
fn command_level_is_clamped() {
    assert_eq!(apply_command(0, Command::Decrease), (0, false));
    assert_eq!(apply_command(2, Command::Decrease), (1, false));
    assert_eq!(apply_command(3, Command::Increase), (3, false));
    assert_eq!(apply_command(1, Command::Increase), (2, false));
    assert_eq!(apply_command(1, Command::ProceedAll), (1, true));
    assert_eq!(apply_command(2, Command::Unknown), (2, false));
}

#[test]
fn blocking_follows_the_level() {
    assert!(should_block(0, CommandFlag::AstarFrontierOrUpdatePosterior));
    assert!(!should_block(1, CommandFlag::AstarFrontierOrUpdatePosterior));
    assert!(should_block(3, CommandFlag::ProbaModelResult));
    assert!(should_block(3, CommandFlag::Auto));
}
