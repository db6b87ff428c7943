use red_table::cli::{parse, BrowseOptions, Command};
use red_table::config::{CliOverrides, ConfigSource};
use red_table::graphics::GraphicsProtocol;
use red_table::settings::{ThumbnailQuality, ThumbnailSize};

fn args<const N: usize>(values: [&str; N]) -> Vec<Vec<u8>> {
    values.iter().map(|value| value.as_bytes().to_vec()).collect()
}

fn browse(path: &str) -> BrowseOptions {
    BrowseOptions {
        path: path.as_bytes().to_vec(),
        config_source: ConfigSource::Discover,
        overrides: CliOverrides::default(),
        select: false,
        print0: false,
        files0_from_stdin: false,
    }
}

#[test]
fn defaults_to_current_directory() {
    assert_eq!(parse(&[]).unwrap(), Command::Browse(browse(".")));
}

#[test]
fn rejects_unknown_options() {
    assert!(parse(&args(["--wat"])).is_err());
}

#[test]
fn rejects_multiple_paths() {
    assert!(parse(&args(["one", "two"])).is_err());
}

#[test]
fn accepts_all_thumbnail_size_forms() {
    for arguments in [
        args(["-s", "40x18", "photos"]).to_vec(),
        args(["--thumbnail-size", "40x18", "photos"]).to_vec(),
        args(["--thumbnail-size=40x18", "photos"]).to_vec(),
    ] {
        assert_eq!(
            parse(&arguments).unwrap(),
            Command::Browse(BrowseOptions {
                overrides: CliOverrides {
                    thumbnail_size: Some(ThumbnailSize {
                        width: 40,
                        height: 18
                    }),
                    ..CliOverrides::default()
                },
                ..browse("photos")
            })
        );
    }
}

#[test]
fn double_dash_allows_a_path_starting_with_a_dash() {
    let command = parse(&args(["--", "-photos"])).unwrap();
    assert_eq!(command, Command::Browse(browse("-photos")));
}

#[test]
fn accepts_quality_in_separate_and_equals_forms() {
    for arguments in [
        args(["--quality", "9", "photos"]).to_vec(),
        args(["--quality=9", "photos"]).to_vec(),
    ] {
        assert_eq!(
            parse(&arguments).unwrap(),
            Command::Browse(BrowseOptions {
                overrides: CliOverrides {
                    thumbnail_quality: Some("9".parse::<ThumbnailQuality>().unwrap()),
                    ..CliOverrides::default()
                },
                ..browse("photos")
            })
        );
    }
}

#[test]
fn accepts_graphics_protocol_in_separate_and_equals_forms() {
    for arguments in [
        args(["--graphics-protocol", "kitty", "photos"]).to_vec(),
        args(["--graphics-protocol=kitty", "photos"]).to_vec(),
    ] {
        assert_eq!(
            parse(&arguments).unwrap(),
            Command::Browse(BrowseOptions {
                overrides: CliOverrides {
                    graphics_protocol: Some(GraphicsProtocol::Kitty),
                    ..CliOverrides::default()
                },
                ..browse("photos")
            })
        );
    }
}

#[test]
fn parses_config_sources_and_rejects_conflicts() {
    assert_eq!(
        parse(&args(["--config=custom.toml"])).unwrap(),
        Command::Browse(BrowseOptions {
            config_source: ConfigSource::Explicit(b"custom.toml".to_vec()),
            ..browse(".")
        })
    );
    assert_eq!(
        parse(&args(["--no-config"])).unwrap(),
        Command::Browse(BrowseOptions {
            config_source: ConfigSource::Disabled,
            ..browse(".")
        })
    );
    assert!(parse(&args(["--config", "one.toml", "--no-config"])).is_err());
}

#[test]
fn parses_selection_and_stdin_modes_with_conflict_checks() {
    assert_eq!(
        parse(&args(["--select", "--print0", "--files0-from=-"])).unwrap(),
        Command::Browse(BrowseOptions {
            select: true,
            print0: true,
            files0_from_stdin: true,
            ..browse(".")
        })
    );
    assert!(parse(&args(["--print0"])).is_err());
    assert!(parse(&args(["--files0-from", "-", "photos"])).is_err());
    assert!(parse(&args(["--files0-from", "list.paths0"])).is_err());
}

#[test]
fn help_and_version_flags_are_commands() {
    assert_eq!(parse(&args(["--help"])).unwrap(), Command::Help);
    assert_eq!(parse(&args(["-V"])).unwrap(), Command::Version);
}

#[test]
fn option_errors_explain_the_rule() {
    let error = parse(&args(["--print0"])).unwrap_err();
    assert!(error.contains("--print0 requires --select"), "{error}");
    let error = parse(&args(["--thumbnail-size", "5x2"])).unwrap_err();
    assert!(error.contains("between 12x6 and 120x60"), "{error}");
    let error = parse(&args(["--quality", "0"])).unwrap_err();
    assert!(error.contains("level from 1 to 9"), "{error}");
    let error = parse(&args(["--graphics-protocol", "ansi"])).unwrap_err();
    assert!(error.contains("auto, kitty, sixel, iterm2, or halfblocks"), "{error}");
}

#[test]
fn option_values_must_be_utf8() {
    let arguments = vec![b"--quality".to_vec(), vec![0xff]];
    assert_eq!(
        parse(&arguments).unwrap_err(),
        "thumbnail quality must be valid UTF-8"
    );
    let arguments = vec![vec![b'p', 0xff]];
    assert_eq!(
        parse(&arguments).unwrap(),
        Command::Browse(BrowseOptions {
            path: vec![b'p', 0xff],
            ..browse(".")
        })
    );
}
