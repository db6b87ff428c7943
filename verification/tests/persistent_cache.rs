use red_table::persistent_cache::{
    cache_file_bytes, read_cache_file,
    cache_location, cache_root, cache_text_fields, metadata_is_current, temporary_name,
    CacheClass, SourceStamp, TextFields,
};

#[test]
fn selects_standard_size_classes() {
    assert_eq!(
        CacheClass::for_required_pixels(128, 40),
        Some(CacheClass::Normal)
    );
    assert_eq!(
        CacheClass::for_required_pixels(129, 40),
        Some(CacheClass::Large)
    );
    assert_eq!(
        CacheClass::for_required_pixels(500, 512),
        Some(CacheClass::ExtraLarge)
    );
    assert_eq!(
        CacheClass::for_required_pixels(513, 20),
        Some(CacheClass::ExtraExtraLarge)
    );
    assert_eq!(CacheClass::for_required_pixels(1025, 20), None);
}

#[test]
fn uses_the_standard_uri_digest_filename() {
    let root = b"/cache/thumbnails".to_vec();
    let location = cache_location(&root, CacheClass::Normal, "file:///home/jens/photos/me.png");
    assert_eq!(
        location.path,
        b"/cache/thumbnails/normal/c6ee772d9e49320e97ec29a7eb5b1697.png".to_vec()
    );
    assert_eq!(location.directory, b"/cache/thumbnails/normal".to_vec());
    assert_eq!(location.class, CacheClass::Normal);
}

fn fields_of(pairs: &[(&str, &str)]) -> TextFields {
    let mut fields = TextFields::new();
    for (key, value) in pairs {
        fields.insert(key.to_string(), value.to_string());
    }
    fields
}

#[test]
fn validates_standard_and_red_table_metadata_contracts() {
    let source = SourceStamp {
        uri: "file:///photos/source.png".into(),
        size: 42,
        mtime_seconds: 10,
        mtime_nanoseconds: 10_000_000_123,
    };
    let mut fields = fields_of(&[
        ("Thumb::URI", "file:///photos/source.png"),
        ("Thumb::MTime", "10"),
        ("Thumb::Size", "42"),
    ]);

    assert!(metadata_is_current(&fields, &source));
    fields.insert("X-RedTable::Schema".into(), "2".into());
    fields.insert(
        "X-RedTable::MTimeNsec".into(),
        source.mtime_nanoseconds.to_string(),
    );
    assert!(metadata_is_current(&fields, &source));

    fields.insert("X-RedTable::Schema".into(), "1".into());
    assert!(!metadata_is_current(&fields, &source));
    fields.insert("X-RedTable::Schema".into(), "2".into());
    fields.insert("X-RedTable::MTimeNsec".into(), "10000000124".into());
    assert!(!metadata_is_current(&fields, &source));
    fields.remove("X-RedTable::Schema");
    fields.remove("X-RedTable::MTimeNsec");
    fields.remove("Thumb::Size");
    assert!(!metadata_is_current(&fields, &source));
}

#[test]
fn written_metadata_is_current_for_its_source() {
    let source = SourceStamp {
        uri: "file:///photos/a.png".into(),
        size: 7,
        mtime_seconds: 3,
        mtime_nanoseconds: 3_000_000_005,
    };
    let written = cache_text_fields(&source);
    assert_eq!(written.len(), 5);
    assert_eq!(written[0], ("Thumb::URI".to_string(), "file:///photos/a.png".to_string()));
    assert_eq!(written[3], ("X-RedTable::MTimeNsec".to_string(), "3000000005".to_string()));
    let mut fields = TextFields::new();
    for (key, value) in written {
        fields.insert(key, value);
    }
    assert!(metadata_is_current(&fields, &source));
    assert_eq!(fields.get("Thumb::MTime"), Some("3".to_string()));
}

#[test]
fn class_directories_and_dimensions_follow_the_specification() {
    assert_eq!(CacheClass::Normal.directory(), "normal");
    assert_eq!(CacheClass::ExtraExtraLarge.directory(), "xx-large");
    assert_eq!(CacheClass::Large.dimension(), 256);
    assert!(CacheClass::Normal.needs_resize(129, 10));
    assert!(!CacheClass::Normal.needs_resize(128, 128));
}

#[test]
fn cache_root_prefers_a_non_empty_xdg_directory() {
    assert_eq!(
        cache_root(&Some(b"/xdg".to_vec()), &Some(b"/home/me".to_vec())),
        Some(b"/xdg/thumbnails".to_vec())
    );
    assert_eq!(
        cache_root(&Some(Vec::new()), &Some(b"/home/me".to_vec())),
        Some(b"/home/me/.cache/thumbnails".to_vec())
    );
    assert_eq!(cache_root(&None, &None), None);
}

#[test]
fn temporary_names_carry_the_process_and_sequence() {
    assert_eq!(temporary_name(77, 3), ".red-table-77-3.tmp");
}

use red_table::persistent_cache::{
    PrepareAction, PrepareEvent, PrepareNext, PrepareOutcome, PreparePhase, PrepareState,
};

fn stamp(size: u64) -> SourceStamp {
    SourceStamp {
        uri: "file:///photos/source.png".into(),
        size,
        mtime_seconds: 10,
        mtime_nanoseconds: 10_000_000_000,
    }
}

fn started() -> PrepareState {
    match PrepareState::start(
        b"/photos/source.png".to_vec(),
        Some(b"/cache/thumbnails".to_vec()),
        (200, 120),
    ) {
        PrepareNext::Continue(state, PrepareAction::ReadStamp) => state,
        _ => panic!("a cached preparation must read the stamp first"),
    }
}

fn continued(next: PrepareNext) -> (PrepareState, PrepareAction) {
    match next {
        PrepareNext::Continue(state, action) => (state, action),
        PrepareNext::Finish(_) => panic!("the preparation must continue"),
    }
}

#[test]
fn bypasses_persistence_above_the_largest_standard_class() {
    let next = PrepareState::start(b"source.png".to_vec(), Some(b"/cache".to_vec()), (1025, 20));
    assert!(matches!(next, PrepareNext::Finish(PrepareOutcome::DecodeUncached)));
    let next = PrepareState::start(b"source.png".to_vec(), None, (100, 20));
    assert!(matches!(next, PrepareNext::Finish(PrepareOutcome::DecodeUncached)));
}

#[test]
fn warm_cache_avoids_original_decode_and_carries_required_metadata() {
    let state = started();
    assert_eq!(state.class, CacheClass::Large);
    let (state, action) = continued(state.step(PrepareEvent::Stamp(Some(stamp(42)))));
    let PrepareAction::ReadCache(location) = action else {
        panic!("the cache must be read for the stamp");
    };
    assert!(location.path.starts_with(b"/cache/thumbnails/large/"));
    let (state, action) = continued(state.step(PrepareEvent::Cache(true)));
    assert!(matches!(action, PrepareAction::ReadStamp));
    assert!(matches!(
        state.step(PrepareEvent::Stamp(Some(stamp(42)))),
        PrepareNext::Finish(PrepareOutcome::UseCached)
    ));
}

#[test]
fn source_replacement_invalidates_a_warm_entry() {
    let (state, _) = continued(started().step(PrepareEvent::Stamp(Some(stamp(42)))));
    let (state, _) = continued(state.step(PrepareEvent::Cache(true)));
    let (state, action) = continued(state.step(PrepareEvent::Stamp(Some(stamp(43)))));
    assert!(matches!(action, PrepareAction::DecodeOriginal));
    assert!(matches!(state.phase, PreparePhase::AwaitDecode(_)));
}

#[test]
fn corrupt_cache_regenerates_without_failing() {
    let (state, _) = continued(started().step(PrepareEvent::Stamp(Some(stamp(42)))));
    let (state, action) = continued(state.step(PrepareEvent::Cache(false)));
    assert!(matches!(action, PrepareAction::DecodeOriginal));
    let (state, action) = continued(state.step(PrepareEvent::Decoded(Ok(()))));
    assert!(matches!(action, PrepareAction::ReadStamp));
    let PrepareNext::Finish(PrepareOutcome::StoreDecoded(location, written)) =
        state.step(PrepareEvent::Stamp(Some(stamp(42))))
    else {
        panic!("an unchanged source must be stored");
    };
    assert_eq!(written.size, 42);
    assert!(location.path.ends_with(b".png"));
}

#[test]
fn source_race_discards_the_first_generation() {
    let (state, _) = continued(started().step(PrepareEvent::Stamp(Some(stamp(42)))));
    let (state, _) = continued(state.step(PrepareEvent::Cache(false)));
    let (state, _) = continued(state.step(PrepareEvent::Decoded(Ok(()))));
    let (state, action) = continued(state.step(PrepareEvent::Stamp(Some(stamp(43)))));
    assert!(matches!(action, PrepareAction::ReadStamp));
    assert_eq!(state.attempt, 1);
    let (state, _) = continued(state.step(PrepareEvent::Stamp(Some(stamp(43)))));
    let (state, _) = continued(state.step(PrepareEvent::Cache(false)));
    let (state, _) = continued(state.step(PrepareEvent::Decoded(Ok(()))));
    let PrepareNext::Finish(PrepareOutcome::Fail(error)) = state.step(PrepareEvent::Stamp(None)) else {
        panic!("a source that keeps changing must fail");
    };
    assert_eq!(
        error,
        "source changed repeatedly while generating thumbnail: /photos/source.png"
    );
}

#[test]
fn decode_errors_and_unreadable_sources_end_the_preparation() {
    let (state, _) = continued(started().step(PrepareEvent::Stamp(Some(stamp(1)))));
    let (state, _) = continued(state.step(PrepareEvent::Cache(false)));
    assert!(matches!(
        state.step(PrepareEvent::Decoded(Err("not an image".into()))),
        PrepareNext::Finish(PrepareOutcome::Fail(error)) if error == "not an image"
    ));
    assert!(matches!(
        started().step(PrepareEvent::Stamp(None)),
        PrepareNext::Finish(PrepareOutcome::DecodeUncached)
    ));
}

#[test]
fn unexpected_events_change_nothing() {
    let (state, action) = continued(started().step(PrepareEvent::Cache(true)));
    assert!(matches!(action, PrepareAction::ReadStamp));
    assert!(matches!(state.phase, PreparePhase::AwaitStamp));
}

#[test]
fn stamps_record_the_file_uri_of_the_canonical_path() {
    let stamp = red_table::persistent_cache::source_stamp(b"/tmp/a b.png", 12, 34, 34_000_000_056).unwrap();
    assert_eq!(stamp.uri, "file:///tmp/a%20b.png");
    assert_eq!(stamp.size, 12);
    assert_eq!(stamp.mtime_seconds, 34);
    assert_eq!(stamp.mtime_nanoseconds, 34_000_000_056);
    let relative = red_table::persistent_cache::source_stamp(b"a.png", 1, 2, 3);
    assert_eq!(relative.err().unwrap(), "cannot create file URI for a.png");
}

fn cache_stamp(uri: &str) -> SourceStamp {
    SourceStamp {
        uri: uri.to_string(),
        size: 42,
        mtime_seconds: 1_700_000_000,
        mtime_nanoseconds: 1_700_000_000_123_456_789,
    }
}

#[test]
fn cache_files_read_back_only_for_the_same_source() {
    let rgba = [255u8, 0, 0, 255, 0, 0, 255, 128];
    let source = cache_stamp("file:///photos/a.png");
    let bytes = cache_file_bytes(2, 1, &rgba, &source).unwrap();
    assert!(bytes.starts_with(b"\x89PNG"));
    let image = read_cache_file(&bytes, CacheClass::Normal, &source).unwrap().unwrap();
    assert_eq!((image.width, image.height, image.channels), (2, 1, 4));
    assert_eq!(image.pixels, rgba.to_vec());

    assert!(read_cache_file(&bytes, CacheClass::Normal, &cache_stamp("file:///photos/b.png")).unwrap().is_none());
    let mut newer = cache_stamp("file:///photos/a.png");
    newer.mtime_nanoseconds += 1;
    assert!(read_cache_file(&bytes, CacheClass::Normal, &newer).unwrap().is_none());
    assert!(read_cache_file(b"not a png", CacheClass::Normal, &source).is_err());

    let wide = vec![7u8; 4 * 300];
    let wide_bytes = cache_file_bytes(300, 1, &wide, &source).unwrap();
    assert!(read_cache_file(&wide_bytes, CacheClass::Normal, &source).unwrap().is_none());
    assert!(read_cache_file(&wide_bytes, CacheClass::ExtraLarge, &source).unwrap().is_some());
}
