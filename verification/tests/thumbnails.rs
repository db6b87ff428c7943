use std::collections::HashSet;

use red_table::app::{EntryId, SourceRevision};
use red_table::graphics::ProtocolType;
use red_table::settings::ThumbnailQuality;
use red_table::thumbnails::{
    required_source_pixels, DisplayChoice, RequestStep, ThumbnailCache, ThumbnailKey,
    WorkerAnswer,
};
use red_table::ui::Size;

const MAX_CACHE_ENTRIES: usize = 256;

fn quality(level: u8) -> ThumbnailQuality {
    ThumbnailQuality::new(level).unwrap()
}

fn key_of(entry_id: u64, width: u16, height: u16) -> ThumbnailKey {
    ThumbnailKey {
        entry_id: EntryId(entry_id),
        revision: SourceRevision::default(),
        size: Size { width, height },
        quality: quality(7),
    }
}

#[test]
fn retained_thumbnail_failures_are_bounded() {
    let mut thumbnails: ThumbnailCache<()> =
        ThumbnailCache::with_limits(MAX_CACHE_ENTRIES, 128 * 1024 * 1024);
    let key = |entry_id| key_of(entry_id, 12, 6);
    for entry_id in 0..=MAX_CACHE_ENTRIES as u64 {
        thumbnails.insert_failure(key(entry_id), "decode failed".into());
    }

    assert_eq!(thumbnails.failed.len(), MAX_CACHE_ENTRIES);
    assert!(matches!(thumbnails.display(key(0)), DisplayChoice::Loading));
    assert!(matches!(
        thumbnails.display(key(MAX_CACHE_ENTRIES as u64)),
        DisplayChoice::Error(_)
    ));
}

#[test]
fn persistent_source_requirement_matches_protocol_sample_density() {
    assert_eq!(
        required_source_pixels(ProtocolType::Halfblocks, (10, 20), Size { width: 32, height: 12 }),
        (32, 24)
    );
    assert_eq!(
        required_source_pixels(ProtocolType::Kitty, (10, 20), Size { width: 32, height: 12 }),
        (320, 240)
    );
}

#[test]
fn cache_identity_separates_quality_levels() {
    let low = ThumbnailKey {
        entry_id: EntryId(42),
        revision: SourceRevision::default(),
        size: Size { width: 32, height: 14 },
        quality: "1".parse().unwrap(),
    };
    let high = ThumbnailKey {
        quality: "9".parse().unwrap(),
        ..low
    };

    assert_ne!(low, high);
    assert_eq!(HashSet::from([low, high]).len(), 2);
}

#[test]
fn previous_quality_remains_available_while_replacement_is_pending() {
    let mut thumbnails: ThumbnailCache<&str> = ThumbnailCache::with_limits(10, 1 << 20);
    let low = ThumbnailKey {
        quality: quality(1),
        ..key_of(7, 32, 12)
    };
    let high = ThumbnailKey {
        quality: quality(9),
        ..low
    };
    thumbnails.insert(low, "low", 100);
    thumbnails.request_sent(high);

    assert_eq!(thumbnails.display(high), DisplayChoice::Ready(low));
    assert_eq!(
        thumbnails.display(ThumbnailKey {
            entry_id: EntryId(8),
            ..high
        }),
        DisplayChoice::Loading
    );
    assert_eq!(
        thumbnails.display(ThumbnailKey {
            size: Size { width: 31, height: 12 },
            ..high
        }),
        DisplayChoice::Loading
    );
    assert_eq!(
        thumbnails.display(ThumbnailKey {
            revision: SourceRevision {
                size: 1,
                modified_nanoseconds: 2,
            },
            ..high
        }),
        DisplayChoice::Loading
    );

    assert!(!thumbnails.receive(high, WorkerAnswer::Dropped));
    assert_eq!(thumbnails.display(high), DisplayChoice::Loading);
    thumbnails.insert_failure(high, "quality preparation failed".into());
    assert_eq!(
        thumbnails.display(high),
        DisplayChoice::Error("quality preparation failed".into())
    );
}

#[test]
fn prepared_cache_evicts_by_bytes_and_rejects_oversized_entries() {
    let key = |entry_id| key_of(entry_id, 4, 2);
    let one_entry_bytes = 48;
    let mut thumbnails: ThumbnailCache<u8> = ThumbnailCache::with_limits(10, one_entry_bytes);
    thumbnails.insert(key(1), 1, one_entry_bytes);
    thumbnails.insert(key(2), 2, one_entry_bytes);
    assert_eq!((thumbnails.entries.len(), thumbnails.bytes), (1, one_entry_bytes));
    assert_eq!(thumbnails.entries[0].key, key(2));

    let mut too_small: ThumbnailCache<u8> = ThumbnailCache::with_limits(10, one_entry_bytes - 1);
    too_small.insert(key(3), 3, one_entry_bytes);
    assert_eq!((too_small.entries.len(), too_small.bytes), (0, 0));
    assert!(matches!(
        too_small.display(key(3)),
        DisplayChoice::Error(error) if error.contains("memory limit")
    ));
    assert_eq!(too_small.begin_request(key(3)), RequestStep::Skip);

    let mut lru: ThumbnailCache<u8> = ThumbnailCache::with_limits(2, one_entry_bytes * 3);
    lru.insert(key(1), 1, one_entry_bytes);
    lru.insert(key(2), 2, one_entry_bytes);
    assert!(matches!(lru.display(key(1)), DisplayChoice::Ready(_)));
    lru.insert(key(3), 3, one_entry_bytes);
    let kept = lru.entries.iter().map(|entry| entry.key).collect::<Vec<_>>();
    assert_eq!(kept, vec![key(1), key(3)]);
}

#[test]
fn kitty_thumbnail_rearms_only_after_leaving_exact_visibility() {
    let key = key_of(1, 1, 1);
    let mut thumbnails: ThumbnailCache<()> = ThumbnailCache::with_limits(10, 1 << 20);
    thumbnails.insert(key, (), 4);
    assert_eq!(thumbnails.update_visible(&[key]), vec![key]);
    assert_eq!(thumbnails.update_visible(&[key]), vec![]);
    assert_eq!(thumbnails.update_visible(&[]), vec![]);
    assert_eq!(thumbnails.update_visible(&[key]), vec![key]);
}

#[test]
fn oversized_thumbnails_report_their_size_and_the_limit() {
    let mut thumbnails: ThumbnailCache<()> = ThumbnailCache::with_limits(10, 2 * 1048576);
    let key = key_of(5, 4, 2);
    thumbnails.insert(key, (), 3 * 1048576 + 1);
    assert_eq!(
        thumbnails.display(key),
        DisplayChoice::Error(
            "prepared thumbnail requires 4 MiB, above the 2 MiB memory limit".into()
        )
    );
}

#[test]
fn requests_flow_from_send_to_answer() {
    let mut thumbnails: ThumbnailCache<u8> = ThumbnailCache::with_limits(10, 1 << 20);
    let key = key_of(2, 8, 4);
    assert_eq!(thumbnails.begin_request(key), RequestStep::Send);
    thumbnails.request_sent(key);
    assert_eq!(thumbnails.begin_request(key), RequestStep::Skip);
    assert_eq!(thumbnails.display(key), DisplayChoice::Loading);
    assert!(!thumbnails.receive(
        key,
        WorkerAnswer::Prepared {
            value: 9,
            bytes: 10,
            disk_hit: true,
        }
    ));
    assert_eq!(thumbnails.persistent_hits, 1);
    assert_eq!(thumbnails.display(key), DisplayChoice::Ready(key));
    assert!(thumbnails.pending.is_empty());
    assert_eq!(thumbnails.begin_request(key_of(3, 0, 4)), RequestStep::Skip);
}

#[test]
fn stopped_workers_fail_pending_and_later_requests() {
    let mut thumbnails: ThumbnailCache<u8> = ThumbnailCache::with_limits(10, 1 << 20);
    let first = key_of(1, 8, 4);
    thumbnails.request_sent(first);
    assert_eq!(thumbnails.workers_stopped(), 1);
    assert!(matches!(thumbnails.display(first), DisplayChoice::Error(_)));
    let second = key_of(2, 8, 4);
    assert_eq!(thumbnails.begin_request(second), RequestStep::Failed);
    assert_eq!(
        thumbnails.display(second),
        DisplayChoice::Error("thumbnail workers are unavailable".into())
    );
    assert_eq!(thumbnails.workers_stopped(), 0);
}

#[test]
fn a_failed_answer_is_shown_as_an_error() {
    let mut thumbnails: ThumbnailCache<u8> = ThumbnailCache::with_limits(10, 1 << 20);
    let key = key_of(4, 8, 4);
    thumbnails.request_sent(key);
    assert!(thumbnails.receive(key, WorkerAnswer::Failed("not an image".into())));
    assert_eq!(thumbnails.display(key), DisplayChoice::Error("not an image".into()));
}

use red_table::thumbnails::check_raw_thumbnail;

#[test]
fn raw_thumbnail_limit_is_checked_before_resize_allocation() {
    let error = check_raw_thumbnail(Size { width: u16::MAX, height: u16::MAX }, (1, 2)).unwrap_err();
    assert!(error.contains("64 MiB"));
    assert_eq!(
        error,
        "thumbnail target requires 32768 MiB of RGBA data, above the 64 MiB limit"
    );
    assert!(check_raw_thumbnail(Size { width: 32, height: 12 }, (10, 20)).is_ok());
}

#[test]
fn a_session_keeps_at_most_256_thumbnails_and_128_mib() {
    let cache: ThumbnailCache<u8> = ThumbnailCache::new();
    assert_eq!(cache.entry_limit, 256);
    assert_eq!(cache.byte_limit, 128 * 1024 * 1024);
    assert!(cache.entries.is_empty());
}

#[test]
fn prepared_thumbnails_over_the_cache_limit_are_refused() {
    assert!(red_table::thumbnails::check_resident_bytes(128 * 1024 * 1024).is_ok());
    assert_eq!(
        red_table::thumbnails::check_resident_bytes(128 * 1024 * 1024 + 1),
        Err("prepared thumbnail requires 129 MiB, above the 128 MiB memory limit".to_string())
    );
}
