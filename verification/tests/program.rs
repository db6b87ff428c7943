use red_table::cli::parse;
use red_table::path_io::read_nul_paths;
use red_table::{RunOutcome, HELP};

fn args<const N: usize>(values: [&str; N]) -> Vec<Vec<u8>> {
    values.iter().map(|value| value.as_bytes().to_vec()).collect()
}

#[test]
fn documents_the_terminal_interface() {
    assert!(HELP.contains("terminal image browser"));
    assert!(HELP.contains("[PATH]"));
    assert!(HELP.contains("hjkl"));
    assert!(HELP.contains("--thumbnail-size"));
    assert!(HELP.contains("--quality"));
    assert!(HELP.contains("--graphics-protocol"));
    assert!(HELP.contains("--config"));
    assert!(HELP.contains("--no-config"));
    assert!(HELP.contains("--select"));
    assert!(HELP.contains("--print0"));
    assert!(HELP.contains("--files0-from"));
    assert_eq!(RunOutcome::Completed.exit_code(), 0);
    assert_eq!(RunOutcome::Cancelled.exit_code(), 2);
}

#[test]
fn rejects_an_invalid_thumbnail_size_before_starting_the_terminal() {
    let error = parse(&args(["--thumbnail-size", "5x2"])).unwrap_err();
    assert!(error.contains("between 12x6 and 120x60"));
}

#[test]
fn rejects_an_invalid_quality_before_starting_the_terminal() {
    let error = parse(&args(["--quality", "10"])).unwrap_err();
    assert!(error.contains("level from 1 to 9"));
}

#[test]
fn rejects_an_invalid_graphics_protocol_before_starting_the_terminal() {
    let error = parse(&args(["--graphics-protocol", "ansi"])).unwrap_err();
    assert!(error.contains("auto, kitty, sixel, iterm2, or halfblocks"));
}

#[test]
fn rejects_result_delimiter_without_selection_before_starting_the_terminal() {
    let error = parse(&args(["--print0"])).unwrap_err();
    assert!(error.contains("--print0 requires --select"));
}

#[test]
fn rejects_malformed_nul_input_before_starting_the_terminal() {
    let error = read_nul_paths(b"unterminated.jpg").unwrap_err();
    assert!(error.contains("ends without a NUL delimiter"));
}
