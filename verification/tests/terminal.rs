use red_table::terminal::TerminalTarget;

#[test]
fn target_code_round_trips() {
    for target in [TerminalTarget::Stdout, TerminalTarget::Tty] {
        assert_eq!(TerminalTarget::from_code(target.code()), target);
    }
}

#[test]
fn result_mode_draws_on_the_terminal_device() {
    assert_eq!(TerminalTarget::for_result_mode(true), TerminalTarget::Tty);
    assert_eq!(TerminalTarget::for_result_mode(false), TerminalTarget::Stdout);
}
