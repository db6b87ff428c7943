use red_table::graphics::{
    font_size_without_query, sample_font_size, select, GraphicsProtocol, ProtocolType, Selection, SelectionSource,
    TerminalEnvironment,
};

const NO_HINTS: TerminalEnvironment = TerminalEnvironment {
    direct_kitty: false,
};
const DIRECT_KITTY: TerminalEnvironment = TerminalEnvironment { direct_kitty: true };

#[test]
fn accepts_exactly_the_documented_protocol_names() {
    for value in ["auto", "kitty", "sixel", "iterm2", "halfblocks"] {
        assert!(value.parse::<GraphicsProtocol>().is_ok());
    }
    assert!("half".parse::<GraphicsProtocol>().is_err());
    assert!("Kitty".parse::<GraphicsProtocol>().is_err());
}

#[test]
fn active_true_pixel_query_remains_authoritative() {
    assert_eq!(
        select(GraphicsProtocol::Auto, ProtocolType::Sixel, DIRECT_KITTY),
        Selection {
            protocol: ProtocolType::Sixel,
            source: SelectionSource::Auto,
        }
    );
}

#[test]
fn direct_kitty_hint_recovers_from_halfblocks_fallback() {
    assert_eq!(
        select(
            GraphicsProtocol::Auto,
            ProtocolType::Halfblocks,
            DIRECT_KITTY
        ),
        Selection {
            protocol: ProtocolType::Kitty,
            source: SelectionSource::Environment,
        }
    );
}

#[test]
fn halfblocks_remains_the_safe_default_without_a_hint() {
    assert_eq!(
        select(GraphicsProtocol::Auto, ProtocolType::Halfblocks, NO_HINTS),
        Selection {
            protocol: ProtocolType::Halfblocks,
            source: SelectionSource::Auto,
        }
    );
}

#[test]
fn explicit_override_wins_over_query_and_environment() {
    let selected = select(
        GraphicsProtocol::Halfblocks,
        ProtocolType::Kitty,
        DIRECT_KITTY,
    );
    assert_eq!(selected.protocol, ProtocolType::Halfblocks);
    assert_eq!(selected.source, SelectionSource::Forced);
    assert_eq!(selected.label(), "Half 1x2/forced");
}

#[test]
fn queryless_picker_has_nonzero_sample_geometry() {
    let (width, height) = font_size_without_query(None, None);
    assert!(width > 0);
    assert!(height > 0);
    assert_eq!(font_size_without_query(Some((80, 24)), Some((800, 480))), (10, 20));
    assert_eq!(font_size_without_query(Some((80, 24)), Some((40, 12))), (1, 1));
    assert_eq!(font_size_without_query(Some((0, 24)), Some((800, 480))), (10, 20));
}

#[test]
fn kitty_is_direct_only_outside_tmux() {
    assert!(TerminalEnvironment::from_values(false, true, None).direct_kitty);
    assert!(TerminalEnvironment::from_values(false, false, Some("xterm-KITTY")).direct_kitty);
    assert!(!TerminalEnvironment::from_values(true, true, Some("xterm-kitty")).direct_kitty);
    assert!(!TerminalEnvironment::from_values(false, false, Some("xterm-256color")).direct_kitty);
}

#[test]
fn protocol_names_parse_to_their_variants() {
    assert_eq!(GraphicsProtocol::parse("sixel"), Ok(GraphicsProtocol::Sixel));
    assert_eq!(GraphicsProtocol::default(), GraphicsProtocol::Auto);
    let error = GraphicsProtocol::parse("ansi").unwrap_err();
    assert!(error.contains("auto, kitty, sixel, iterm2, or halfblocks"), "{error}");
}

#[test]
fn half_blocks_sample_two_pixels_per_cell_vertically() {
    assert_eq!(sample_font_size(ProtocolType::Halfblocks, (9, 18)), (1, 2));
    assert_eq!(sample_font_size(ProtocolType::Sixel, (9, 18)), (9, 18));
}
