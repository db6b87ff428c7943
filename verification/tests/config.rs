use red_table::actions::{Action, ActionContext, KeyCode, KeyEvent, KeyModifiers};
use red_table::config::{
    discovered_path, document_location, CliOverrides, ConfigSource, Document, GraphicsDocument,
    InspectionDocument, KeysDocument, RuntimeSettings, ThumbnailDocument,
};
use red_table::graphics::GraphicsProtocol;
use red_table::settings::{BackgroundMode, ThumbnailQuality, ThumbnailSize};

fn empty_document(version: u16) -> Document {
    Document {
        version,
        thumbnail: None,
        graphics: None,
        ui: None,
        keys: None,
        inspection: None,
    }
}

fn table(rows: &[(&str, &[&str])]) -> Vec<(String, Vec<String>)> {
    rows.iter()
        .map(|(action, keys)| {
            (
                action.to_string(),
                keys.iter().map(|key| key.to_string()).collect(),
            )
        })
        .collect()
}

fn plain(character: char, shift: bool) -> KeyEvent {
    KeyEvent {
        code: KeyCode::Char(character),
        modifiers: KeyModifiers {
            control: false,
            alt: false,
            shift,
        },
    }
}

#[test]
fn missing_discovered_configuration_uses_defaults() {
    let settings = RuntimeSettings::load(&None, &CliOverrides::default()).unwrap();
    assert_eq!(settings.thumbnail_size, ThumbnailSize::default_size());
    assert_eq!(settings.thumbnail_quality, ThumbnailQuality::default_quality());
    assert_eq!(settings.graphics_protocol, GraphicsProtocol::Auto);
    assert_eq!(
        document_location(&ConfigSource::Discover, None),
        None
    );
}

#[test]
fn cli_overrides_loaded_configuration() {
    let document = Document {
        thumbnail: Some(ThumbnailDocument {
            size: Some("40x18".to_string()),
            quality: Some(2),
        }),
        graphics: Some(GraphicsDocument {
            protocol: Some("halfblocks".to_string()),
        }),
        ..empty_document(1)
    };
    let settings = RuntimeSettings::load(
        &Some(document),
        &CliOverrides {
            thumbnail_quality: Some("9".parse().unwrap()),
            ..CliOverrides::default()
        },
    )
    .unwrap();
    assert_eq!(settings.thumbnail_size.text(), "40x18");
    assert_eq!(settings.thumbnail_quality.text(), "9");
    assert_eq!(settings.graphics_protocol, GraphicsProtocol::Halfblocks);
}

#[test]
fn loads_inspection_memory_background_and_bindings() {
    let document = Document {
        inspection: Some(InspectionDocument {
            background: Some("dark".to_string()),
            decoded_cache_mib: Some(256),
        }),
        keys: Some(KeysDocument {
            normal: None,
            search: None,
            inspect: Some(table(&[("fit_100", &["f"])])),
            compare: Some(table(&[("promote", &["P"])])),
        }),
        ..empty_document(1)
    };
    let settings = RuntimeSettings::load(&Some(document), &CliOverrides::default()).unwrap();
    assert_eq!(settings.background, BackgroundMode::Dark);
    assert_eq!(settings.decoded_cache_bytes, 256 * 1024 * 1024);
    assert_eq!(
        settings.bindings.action(ActionContext::Inspect, plain('f', false)),
        Some(Action::ToggleFitHundred)
    );
    assert_eq!(
        settings.bindings.action(ActionContext::Compare, plain('p', true)),
        Some(Action::PromoteCandidate)
    );
}

#[test]
fn rejects_unknown_fields_versions_actions_and_conflicts() {
    let keys = |normal| {
        Some(KeysDocument {
            normal: Some(normal),
            search: None,
            inspect: None,
            compare: None,
        })
    };
    for (name, document) in [
        ("version", empty_document(2)),
        (
            "action",
            Document {
                keys: keys(table(&[("teleport", &["t"])])),
                ..empty_document(1)
            },
        ),
        (
            "conflict",
            Document {
                keys: keys(table(&[("left", &["j"])])),
                ..empty_document(1)
            },
        ),
        (
            "inspection-memory",
            Document {
                inspection: Some(InspectionDocument {
                    background: None,
                    decoded_cache_mib: Some(8),
                }),
                ..empty_document(1)
            },
        ),
    ] {
        assert!(
            RuntimeSettings::load(&Some(document), &CliOverrides::default()).is_err(),
            "{name} must fail"
        );
    }
}

#[test]
fn missing_explicit_configuration_is_an_error() {
    let path = b"/tmp/red-table-missing-config".to_vec();
    assert_eq!(
        document_location(&ConfigSource::Explicit(path.clone()), None),
        Some((path, true))
    );
    assert_eq!(document_location(&ConfigSource::Disabled, None), None);
    assert_eq!(
        document_location(&ConfigSource::Discover, Some(b"/c".to_vec())),
        Some((b"/c".to_vec(), false))
    );
}

#[test]
fn configuration_is_discovered_under_the_xdg_or_home_directory() {
    assert_eq!(
        discovered_path(&Some(b"/xdg".to_vec()), &Some(b"/home/me".to_vec())),
        Some(b"/xdg/red-table/config.toml".to_vec())
    );
    assert_eq!(
        discovered_path(&Some(Vec::new()), &Some(b"/home/me/".to_vec())),
        Some(b"/home/me/.config/red-table/config.toml".to_vec())
    );
    assert_eq!(discovered_path(&None, &None), None);
}

#[test]
fn configuration_errors_name_the_field() {
    let error = RuntimeSettings::load(&Some(empty_document(2)), &CliOverrides::default())
        .unwrap_err();
    assert_eq!(error, "unsupported configuration version 2; expected 1");
    let document = Document {
        thumbnail: Some(ThumbnailDocument {
            size: Some("wide".to_string()),
            quality: None,
        }),
        ..empty_document(1)
    };
    let error = RuntimeSettings::load(&Some(document), &CliOverrides::default()).unwrap_err();
    assert!(error.starts_with("thumbnail.size: "), "{error}");
}

#[test]
fn command_line_values_win_over_every_document_value() {
    let document = Document {
        thumbnail: Some(ThumbnailDocument {
            size: Some("40x18".to_string()),
            quality: Some(2),
        }),
        graphics: Some(GraphicsDocument {
            protocol: Some("sixel".to_string()),
        }),
        ..empty_document(1)
    };
    let cli = CliOverrides {
        thumbnail_size: Some(ThumbnailSize { width: 20, height: 10 }),
        thumbnail_quality: Some(ThumbnailQuality::new(4).unwrap()),
        graphics_protocol: Some(GraphicsProtocol::Kitty),
    };
    let settings = RuntimeSettings::load(&Some(document), &cli).unwrap();
    assert_eq!(settings.thumbnail_size, ThumbnailSize { width: 20, height: 10 });
    assert_eq!(settings.thumbnail_quality.level(), 4);
    assert_eq!(settings.graphics_protocol, GraphicsProtocol::Kitty);
}
