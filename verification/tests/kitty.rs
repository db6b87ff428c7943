use red_table::kitty::{
    check_placeholder_rows, delete_image, id_color, is_tmux_environment, transmit_virtual,
    ImageIdCounter, KittyLifecycle, MAX_TRACKED_IMAGE_IDS,
};

#[test]
fn transmission_declares_virtual_placement_extent_and_exact_rgba_payload() {
    let command = transmit_virtual(&[255, 0, 0, 255], 1, 1, 32, 14, 42, false);

    assert!(command.starts_with("\x1b_Gq=2,i=42,a=T,U=1,N=1,c=32,r=14,f=32,t=d,s=1,v=1,m=0;"));
    assert!(command.ends_with("/wAA/w==\x1b\\"));
}

#[test]
fn large_payloads_are_sent_in_continued_chunks() {
    let rgba = vec![7u8; 4 * 1024];
    let command = transmit_virtual(&rgba, 32, 32, 2, 2, 5, false);
    assert!(command.starts_with("\x1b_Gq=2,i=5,a=T,U=1,N=1,c=2,r=2,f=32,t=d,s=32,v=32,m=1;"));
    assert!(command.contains("\x1b_Gq=2,m=0;"));
    assert_eq!(command.matches("\x1b_G").count(), 2);
}

#[test]
fn supports_every_normative_placeholder_row_and_rejects_the_next() {
    for height in [61, 297] {
        assert!(check_placeholder_rows(height).is_ok());
    }
    let Err(error) = check_placeholder_rows(298) else {
        panic!("row 298 must be rejected");
    };
    assert!(error.contains("297-row"));
}

fn var(value: &str) -> Option<&[u8]> {
    Some(value.as_bytes())
}

#[test]
fn tmux_detection_uses_the_authoritative_environment_variable() {
    assert!(is_tmux_environment(
        var("/tmp/tmux-1000/default,1,0"),
        var("xterm-256color"),
        None,
    ));
    assert!(is_tmux_environment(None, var("tmux-256color"), None));
    assert!(is_tmux_environment(None, None, var("tmux")));
    assert!(!is_tmux_environment(var(""), var("xterm-kitty"), None));
}

#[test]
fn dropping_transmitted_images_deletes_only_their_owned_data() {
    let mut counter = ImageIdCounter::new();
    let mut lifecycle = KittyLifecycle::new();
    let id = lifecycle.allocate(&mut counter).unwrap();
    lifecycle.release(id, true);
    assert_eq!(lifecycle.pending_cleanup_count(), 1);

    let (output, sent) = lifecycle.cleanup_commands(false);
    assert_eq!(sent, vec![id]);
    assert!(output.starts_with("\x1b_Gq=2,a=d,d=I,i="));
    assert!(output.ends_with("\x1b\\"));
    lifecycle.confirm_cleanup(&sent);
    assert_eq!(lifecycle.pending_cleanup_count(), 0);

    let untransmitted = lifecycle.allocate(&mut counter).unwrap();
    lifecycle.release(untransmitted, false);
    assert_eq!(lifecycle.pending_cleanup_count(), 0);
}

#[test]
fn tmux_cleanup_is_wrapped_and_lifecycle_tracking_is_bounded() {
    assert!(delete_image(3, true).starts_with("\x1bPtmux;"));

    let mut counter = ImageIdCounter::new();
    let mut lifecycle = KittyLifecycle::new();
    let ids = (0..MAX_TRACKED_IMAGE_IDS)
        .map(|_| lifecycle.allocate(&mut counter).unwrap())
        .collect::<Vec<_>>();
    let Err(error) = lifecycle.allocate(&mut counter) else {
        panic!("the lifecycle bound must reject another image");
    };
    assert!(error.contains("512-image bound"));
    for id in ids {
        lifecycle.release(id, false);
    }
    assert!(lifecycle.allocate(&mut counter).is_ok());
}

#[test]
fn deletion_commands_name_the_image() {
    assert_eq!(delete_image(42, false), "\x1b_Gq=2,a=d,d=I,i=42\x1b\\");
    assert_eq!(
        delete_image(42, true),
        "\x1bPtmux;\x1b\x1b_Gq=2,a=d,d=I,i=42\x1b\x1b\\\x1b\\"
    );
}

#[test]
fn identifiers_are_encoded_in_the_foreground_colour() {
    assert_eq!(id_color(0x01_02_03), "\x1b[38;2;1;2;3m");
}

#[test]
fn identifiers_skip_those_still_in_use() {
    let mut counter = ImageIdCounter::new();
    let mut lifecycle = KittyLifecycle::new();
    let first = lifecycle.allocate(&mut counter).unwrap();
    assert_eq!(first, 1);
    let mut restarted = ImageIdCounter::new();
    let second = lifecycle.allocate(&mut restarted).unwrap();
    assert_eq!(second, 2);
    assert_eq!(counter.take(), 2);
}

use red_table::kitty::{placeholder_cells, placeholder_row, KittyTransmission, PLACEHOLDER};

#[test]
fn rendered_placeholders_transmit_once_and_encode_rows() {
    let mut state = KittyTransmission::new();
    let command = transmit_virtual(&[10, 20, 30, 255].repeat(8), 2, 4, 2, 2, 1, false);
    let color = id_color(1);
    let send = state.take_for_render();
    assert!(send);
    let first = placeholder_row(Some(&command), &color, '\u{305}', '\u{305}', 2, 2, 2);
    assert!(first.contains("a=T,U=1,N=1,c=2,r=2"));
    assert!(first.contains('\u{305}'));
    let second = placeholder_row(None, &color, '\u{30D}', '\u{305}', 2, 2, 2);
    assert!(second.contains('\u{30D}'));

    assert!(!state.take_for_render());
    assert!(state.rearm());
    assert!(!state.rearm());
    assert!(state.take_for_render());
}

#[test]
fn a_row_is_one_cell_of_text_ending_at_the_area_corner() {
    let row = placeholder_row(None, "\x1b[38;2;0;0;1m", 'a', 'b', 3, 5, 4);
    let expected = format!(
        "\x1b[s\x1b[38;2;0;0;1m{PLACEHOLDER}ab{PLACEHOLDER}{PLACEHOLDER}\x1b[u\x1b[4C\x1b[3B"
    );
    assert_eq!(row, expected);
}

#[test]
fn placeholders_fit_the_area_and_the_row_limit() {
    assert_eq!(placeholder_cells(10, 400, 4, 350), (4, 297));
    assert_eq!(placeholder_cells(3, 2, 4, 5), (3, 2));
    let mut fresh = KittyTransmission::new();
    assert!(!fresh.rearm());
}
