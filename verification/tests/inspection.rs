use red_table::app::{EntryId, SourceRevision};
use red_table::inspection::{
    background_pixel, crop_geometry, decoded_bytes, prepared_view_target, CropGeometry,
    DecodedCache, ViewState, Zoom,
};
use red_table::settings::BackgroundMode;

#[test]
fn zoom_and_pan_are_bounded() {
    let mut state = ViewState::default();
    assert_eq!(state.zoom.toggle_fit_hundred(), Zoom::Percent(100));
    assert_eq!(Zoom::Percent(100).zoom_in(), Zoom::Percent(200));
    assert_eq!(Zoom::Percent(25).zoom_out(), Zoom::Fit);
    for _ in 0..100 {
        state.pan_left();
        state.pan_up();
    }
    assert_eq!((state.center_x, state.center_y), (0, 0));
    for _ in 0..100 {
        state.pan_right();
        state.pan_down();
    }
    assert_eq!((state.center_x, state.center_y), (10_000, 10_000));
}

#[test]
fn hundred_percent_crop_maps_one_source_pixel_to_one_sample() {
    assert_eq!(
        crop_geometry(100, 80, 20, 10, 100, 5_000, 5_000),
        CropGeometry {
            x: 40,
            y: 35,
            width: 20,
            height: 10,
            display_width: 20,
            display_height: 10,
        }
    );
    let edge = crop_geometry(100, 80, 20, 10, 200, 10_000, 10_000);
    assert_eq!((edge.x + edge.width, edge.y + edge.height), (100, 80));
}

#[test]
fn decoded_cache_evicts_by_bytes_and_revision() {
    let mut cache = DecodedCache::new(32);
    cache.insert(EntryId(1), SourceRevision::default(), "first", decoded_bytes(2, 2, 3));
    cache.insert(EntryId(2), SourceRevision::default(), "second", decoded_bytes(3, 3, 3));
    assert!(!cache.get(EntryId(1), SourceRevision::default()));
    assert!(cache.get(EntryId(2), SourceRevision::default()));
    assert!(!cache.get(
        EntryId(2),
        SourceRevision {
            size: 1,
            modified_nanoseconds: 1,
        }
    ));
    assert_eq!(cache.value(EntryId(2)), Some(&"second"));
    assert!(cache.bytes <= cache.limit);
}

#[test]
fn a_recently_used_source_survives_eviction() {
    let mut cache = DecodedCache::new(30);
    cache.insert(EntryId(1), SourceRevision::default(), 1u8, 10);
    cache.insert(EntryId(2), SourceRevision::default(), 2u8, 10);
    assert!(cache.get(EntryId(1), SourceRevision::default()));
    cache.insert(EntryId(3), SourceRevision::default(), 3u8, 15);
    assert_eq!(cache.value(EntryId(1)), Some(&1));
    assert_eq!(cache.value(EntryId(2)), None);
    assert_eq!(cache.value(EntryId(3)), Some(&3));
    assert_eq!(cache.bytes, 25);
}

#[test]
fn a_source_larger_than_the_limit_is_not_stored() {
    let mut cache = DecodedCache::new(8);
    cache.insert(EntryId(1), SourceRevision::default(), (), 4);
    cache.insert(EntryId(2), SourceRevision::default(), (), 9);
    assert!(cache.get(EntryId(1), SourceRevision::default()));
    assert!(!cache.get(EntryId(2), SourceRevision::default()));
    assert_eq!(cache.bytes, 4);
}

#[test]
fn decoded_size_saturates() {
    assert_eq!(decoded_bytes(2, 2, 3), 12);
    assert_eq!(decoded_bytes(u32::MAX, u32::MAX, 16), u64::MAX);
}

#[test]
fn oversized_terminal_view_is_rejected_before_allocation() {
    let error = prepared_view_target(u16::MAX, u16::MAX, 1, 2).unwrap_err();
    assert!(error.contains("128 MiB"));
    assert_eq!(prepared_view_target(2, 1, 1, 2), Ok((2, 2)));
}

#[test]
fn background_patterns_have_their_documented_values() {
    assert_eq!(background_pixel(0, 0, BackgroundMode::Checkerboard), 72);
    assert_eq!(background_pixel(8, 0, BackgroundMode::Checkerboard), 112);
    assert_eq!(background_pixel(8, 8, BackgroundMode::Checkerboard), 72);
    assert_eq!(background_pixel(3, 9, BackgroundMode::Dark), 24);
    assert_eq!(background_pixel(3, 9, BackgroundMode::Light), 224);
}

#[test]
fn fit_view_keeps_the_whole_source() {
    let mut state = ViewState::default();
    state.pan_right();
    state.recenter();
    assert_eq!(state, ViewState::default());
    assert_eq!(Zoom::Fit.zoom_in(), Zoom::Percent(100));
    assert_eq!(Zoom::Percent(800).zoom_in(), Zoom::Percent(800));
    assert_eq!(Zoom::Percent(200).label(), "200%");
}

use red_table::inspection::{
    InspectionDisplay, InspectionKey, InspectionRequestStep, InspectionState, CENTER,
};
use red_table::settings::ThumbnailQuality;

fn view_key(entry_id: u64, width: u16, height: u16) -> InspectionKey {
    InspectionKey {
        entry_id: EntryId(entry_id),
        revision: SourceRevision::default(),
        width,
        height,
        zoom: Zoom::Fit,
        center_x: CENTER,
        center_y: CENTER,
        background: BackgroundMode::Dark,
        quality: ThumbnailQuality::new(7).unwrap(),
    }
}

#[test]
fn retained_kitty_inspection_rearms_after_becoming_hidden() {
    let key = view_key(1, 1, 1);
    let mut inspection: InspectionState<()> = InspectionState::new();
    inspection.ready = Some((key, ()));
    assert!(inspection.update_visible(Some(key)));
    assert!(!inspection.update_visible(Some(key)));
    assert!(!inspection.update_visible(None));
    assert!(inspection.update_visible(Some(key)));
}

#[test]
fn full_request_queue_does_not_cancel_accepted_work() {
    let mut inspection: InspectionState<()> = InspectionState::new();
    let InspectionRequestStep::Send(generation) = inspection.begin_request(view_key(1, 8, 4)) else {
        panic!("a first request must be sent");
    };
    inspection.request_sent(view_key(1, 8, 4), generation);
    assert_eq!(
        inspection.begin_request(view_key(2, 8, 4)),
        InspectionRequestStep::Send(2)
    );
    assert_eq!(inspection.generation, 1);
    assert_eq!(inspection.desired, Some(view_key(1, 8, 4)));
    assert_eq!(
        inspection.begin_request(view_key(1, 8, 4)),
        InspectionRequestStep::Skip
    );
}

#[test]
fn disconnected_inspection_worker_is_an_error_not_loading() {
    let key = view_key(1, 8, 4);
    let mut inspection: InspectionState<()> = InspectionState::new();
    assert!(matches!(inspection.begin_request(key), InspectionRequestStep::Send(_)));
    inspection.request_disconnected(key);
    let InspectionDisplay::Error(error) = inspection.display(key) else {
        panic!("disconnected worker must be visible as an error");
    };
    assert!(error.contains("unavailable"));
    assert_eq!(
        inspection.begin_request(view_key(2, 8, 4)),
        InspectionRequestStep::Failed
    );
}

#[test]
fn only_answers_to_the_current_request_are_shown() {
    let mut inspection: InspectionState<&str> = InspectionState::new();
    let first = view_key(1, 8, 4);
    let second = view_key(2, 8, 4);
    inspection.request_sent(first, 1);
    inspection.request_sent(second, 2);
    assert!(inspection.receive(first, 1, Some(Ok("stale"))));
    assert!(matches!(inspection.display(first), InspectionDisplay::Loading));
    assert!(inspection.receive(second, 2, Some(Ok("fresh"))));
    assert!(matches!(inspection.display(second), InspectionDisplay::Ready(&"fresh")));
    assert!(inspection.receive(second, 2, Some(Err("corrupt".to_string()))));
    assert!(matches!(inspection.display(second), InspectionDisplay::Error("corrupt")));
    assert!(inspection.worker_stopped());
    let InspectionDisplay::Error(error) = inspection.display(second) else {
        panic!("a stopped worker must be visible as an error");
    };
    assert_eq!(error, "image inspection worker stopped unexpectedly");
    assert!(!inspection.worker_stopped());
}

#[test]
fn zooming_stays_within_fit_and_the_levels() {
    let levels = [25, 50, 100, 200, 400, 800];
    let mut zoom = Zoom::Fit;
    for _ in 0..10 {
        zoom = zoom.zoom_in();
        assert!(matches!(zoom, Zoom::Percent(p) if levels.contains(&p)));
    }
    assert_eq!(zoom, Zoom::Percent(800));
    for _ in 0..10 {
        zoom = zoom.zoom_out();
        assert!(matches!(zoom, Zoom::Fit) || matches!(zoom, Zoom::Percent(p) if levels.contains(&p)));
    }
    assert_eq!(zoom, Zoom::Fit);
    assert_eq!(Zoom::Percent(300).zoom_in(), Zoom::Percent(400));
    assert_eq!(Zoom::Percent(300).zoom_out(), Zoom::Percent(200));
}
