use red_table::actions::{Action, Bindings, KeyCode, KeyEvent, KeyModifiers};
use red_table::app::{App, EntryId, SourceRevision};
use red_table::browser::{
    comparison_candidate_position, BrowseOutcome, Browser, BrowserEvent, BrowserView, KeyKind,
};
use red_table::inspection::{ViewState, Zoom};
use red_table::settings::{BackgroundMode, ThumbnailQuality, ThumbnailSize};

fn browser_with_images() -> Browser {
    let mut app = App::new(b"/photos".to_vec());
    for name in ["one.png", "two.png", "three.png"] {
        app.add_path(format!("/photos/{name}").into_bytes(), SourceRevision::default());
    }
    let mut browser = Browser::new(
        app,
        Bindings::built_in(),
        ThumbnailSize::default_size(),
        ThumbnailQuality::default_quality(),
        false,
        BackgroundMode::default(),
        false,
    );
    browser.grid.columns = 2;
    browser.grid.rows = 1;
    browser
}

fn key(code: KeyCode) -> BrowserEvent {
    BrowserEvent::Key(
        KeyEvent {
            code,
            modifiers: KeyModifiers {
                control: false,
                alt: false,
                shift: false,
            },
        },
        KeyKind::Press,
    )
}

#[test]
fn inspection_round_trip_preserves_grid_focus_and_scroll() {
    let mut browser = browser_with_images();
    browser.app.selected = 2;
    browser.app.row_offset = 1;
    browser.handle_normal_action(Some(Action::OpenInspect));
    assert!(matches!(browser.view, BrowserView::Inspect(_)));
    browser.handle_inspect_action(Some(Action::CloseInspect));
    assert!(matches!(browser.view, BrowserView::Grid));
    assert_eq!((browser.app.selected, browser.app.row_offset), (2, 1));
}

#[test]
fn repeated_escape_after_inspection_returns_to_a_running_grid() {
    let mut browser = browser_with_images();

    assert!(browser.handle_event(key(KeyCode::Enter)));
    assert!(matches!(browser.view, BrowserView::Inspect(_)));
    assert!(browser.handle_event(key(KeyCode::Esc)));
    assert!(matches!(browser.view, BrowserView::Grid));
    assert!(browser.handle_event(key(KeyCode::Esc)));
    assert!(matches!(browser.view, BrowserView::Grid));
    assert!(browser.running);

    assert!(!browser.handle_event(key(KeyCode::Char('q'))));
    assert!(!browser.running);
}

#[test]
fn inspection_navigation_retains_zoom_and_recenters() {
    let mut browser = browser_with_images();
    browser.app.selected = 1;
    browser.view = BrowserView::Inspect(ViewState {
        zoom: Zoom::Percent(200),
        center_x: 9_000,
        center_y: 1_000,
    });
    browser.handle_inspect_action(Some(Action::NextImage));
    assert_eq!(browser.app.selected, 2);
    let BrowserView::Inspect(state) = browser.view else {
        panic!("inspection must stay active");
    };
    assert_eq!(state.zoom, Zoom::Percent(200));
    assert_eq!((state.center_x, state.center_y), (5_000, 5_000));
}

#[test]
fn marking_in_inspection_is_visible_to_the_grid() {
    let mut browser = browser_with_images();
    browser.app.selected = 1;
    browser.view = BrowserView::Inspect(ViewState::default());
    browser.handle_inspect_action(Some(Action::ToggleMark));
    assert!(browser.app.is_marked(EntryId(1)));
    browser.handle_inspect_action(Some(Action::CloseInspect));
    assert!(matches!(browser.view, BrowserView::Grid));
    assert!(browser.app.is_marked(EntryId(1)));
}

#[test]
fn selection_confirmation_and_cancellation_are_distinct_outcomes() {
    let mut confirmed = browser_with_images();
    confirmed.selection_mode = true;
    confirmed.handle_normal_action(Some(Action::ToggleMark));
    confirmed.handle_normal_action(Some(Action::ConfirmSelection));
    assert!(confirmed.confirmed);
    assert!(!confirmed.running);
    let BrowseOutcome::Selection(paths) = confirmed.finish() else {
        panic!("confirmation must produce a selection");
    };
    assert_eq!(paths, vec![b"/photos/one.png".to_vec()]);

    let mut cancelled = browser_with_images();
    cancelled.selection_mode = true;
    cancelled.handle_normal_action(Some(Action::Quit));
    assert!(matches!(cancelled.finish(), BrowseOutcome::Cancelled));
}

#[test]
fn comparison_pins_reference_and_skips_it_during_candidate_navigation() {
    let mut browser = browser_with_images();
    browser.app.selected = 0;
    browser.start_comparison();
    let BrowserView::Compare(state) = browser.view else {
        panic!("comparison must open with two or more images");
    };
    assert_eq!(state.reference_id, EntryId(0));
    assert_eq!(browser.app.selected_entry().unwrap().id, EntryId(1));

    browser.move_compare_candidate(true);
    assert_eq!(browser.app.selected_entry().unwrap().id, EntryId(2));
    browser.move_compare_candidate(true);
    assert_eq!(browser.app.selected_entry().unwrap().id, EntryId(1));
    browser.move_compare_candidate(false);
    assert_eq!(browser.app.selected_entry().unwrap().id, EntryId(2));
}

#[test]
fn comparison_from_end_falls_back_and_promotion_advances() {
    let mut browser = browser_with_images();
    browser.app.selected = 2;
    browser.start_comparison();
    let BrowserView::Compare(state) = browser.view else {
        panic!("comparison must open");
    };
    assert_eq!(state.reference_id, EntryId(2));
    assert_eq!(browser.app.selected_entry().unwrap().id, EntryId(1));

    browser.promote_candidate();
    let BrowserView::Compare(state) = browser.view else {
        panic!("comparison must remain open after promotion");
    };
    assert_eq!(state.reference_id, EntryId(1));
    assert_eq!(browser.app.selected_entry().unwrap().id, EntryId(2));
}

#[test]
fn two_image_promotion_swaps_reference_and_candidate() {
    let mut browser = browser_with_images();
    browser.app.filtered.truncate(2);
    browser.start_comparison();
    browser.promote_candidate();
    let BrowserView::Compare(state) = browser.view else {
        panic!("two-image comparison must remain open");
    };
    assert_eq!(state.reference_id, EntryId(1));
    assert_eq!(browser.app.selected_entry().unwrap().id, EntryId(0));
}

#[test]
fn comparison_sync_and_active_pane_control_geometry_and_marks() {
    let mut browser = browser_with_images();
    browser.start_comparison();
    browser.handle_compare_action(Some(Action::ZoomIn));
    let BrowserView::Compare(state) = browser.view else {
        panic!("comparison must stay open");
    };
    assert_eq!(state.reference_view.zoom, Zoom::Percent(100));
    assert_eq!(state.candidate_view.zoom, Zoom::Percent(100));

    browser.handle_compare_action(Some(Action::ToggleMark));
    assert!(browser.app.is_marked(EntryId(0)));
    browser.handle_compare_action(Some(Action::ToggleCompareSync));
    browser.handle_compare_action(Some(Action::SwitchComparePane));
    browser.handle_compare_action(Some(Action::ZoomIn));
    browser.handle_compare_action(Some(Action::ToggleMark));
    let BrowserView::Compare(state) = browser.view else {
        panic!("comparison must stay open");
    };
    assert!(!state.synchronized);
    assert_eq!(state.reference_view.zoom, Zoom::Percent(100));
    assert_eq!(state.candidate_view.zoom, Zoom::Percent(200));
    assert!(browser.app.is_marked(EntryId(1)));

    browser.handle_compare_action(Some(Action::CloseInspect));
    assert!(matches!(browser.view, BrowserView::Grid));
    assert_eq!(browser.app.selected_entry().unwrap().id, EntryId(1));
    assert_eq!(browser.app.marked_count(), 2);
}

#[test]
fn comparison_requires_two_visible_images() {
    let mut browser = browser_with_images();
    browser.app.start_search();
    for character in "one".chars() {
        browser.app.push_search(character);
    }
    browser.app.commit_search();
    browser.start_comparison();
    assert!(matches!(browser.view, BrowserView::Grid));
}

#[test]
fn the_emergency_interrupt_cancels_from_any_view() {
    let mut browser = browser_with_images();
    browser.selection_mode = true;
    browser.handle_normal_action(Some(Action::OpenInspect));
    let interrupt = BrowserEvent::Key(
        KeyEvent {
            code: KeyCode::Char('c'),
            modifiers: KeyModifiers {
                control: true,
                alt: false,
                shift: false,
            },
        },
        KeyKind::Press,
    );
    assert!(!browser.handle_event(interrupt));
    assert!(!browser.running);
    assert!(matches!(browser.finish(), BrowseOutcome::Cancelled));
}

#[test]
fn released_keys_and_unknown_events_change_nothing() {
    let mut browser = browser_with_images();
    let release = BrowserEvent::Key(
        KeyEvent {
            code: KeyCode::Char('l'),
            modifiers: KeyModifiers {
                control: false,
                alt: false,
                shift: false,
            },
        },
        KeyKind::Release,
    );
    assert!(!browser.handle_event(release));
    assert_eq!(browser.app.selected, 0);
    assert!(browser.handle_event(BrowserEvent::Resize));
    assert!(!browser.handle_event(BrowserEvent::Other));
    assert!(browser.handle_event(key(KeyCode::Char('l'))));
    assert_eq!(browser.app.selected, 1);
}

#[test]
fn search_keys_edit_the_query() {
    let mut browser = browser_with_images();
    assert!(browser.handle_event(key(KeyCode::Char('/'))));
    for character in "two".chars() {
        browser.handle_event(key(KeyCode::Char(character)));
    }
    assert_eq!(browser.app.filtered, vec![EntryId(1)]);
    browser.handle_event(key(KeyCode::Backspace));
    assert_eq!(browser.app.query, "tw");
    browser.handle_event(key(KeyCode::Esc));
    assert_eq!(browser.app.filtered.len(), 3);
}

#[test]
fn the_candidate_is_never_the_reference() {
    let ids = [EntryId(4), EntryId(7), EntryId(9)];
    assert_eq!(comparison_candidate_position(&ids, 0, EntryId(4), true), Some(1));
    assert_eq!(comparison_candidate_position(&ids, 2, EntryId(4), true), Some(1));
    assert_eq!(comparison_candidate_position(&ids, 1, EntryId(4), false), Some(2));
    assert_eq!(comparison_candidate_position(&ids[..1], 0, EntryId(4), true), None);
}

#[test]
fn finishing_without_selection_mode_completes() {
    let mut browser = browser_with_images();
    browser.handle_normal_action(Some(Action::Quit));
    assert!(matches!(browser.finish(), BrowseOutcome::Completed));
}

use red_table::browser::{ComparePane, CompareState, ViewChange};

#[test]
fn coupled_views_stay_identical() {
    let mut state = CompareState::pinning(EntryId(3));
    state.active = ComparePane::Candidate;
    assert!(state.synchronized);
    state.mutate_view(ViewChange::PanLeft);
    assert_eq!(state.reference_view, state.candidate_view);
    let reference_before = state.reference_view;
    state.toggle_sync();
    assert!(!state.synchronized);
    state.mutate_view(ViewChange::ZoomIn);
    assert_ne!(state.reference_view, state.candidate_view);
    assert_eq!(state.reference_view, reference_before);
    state.toggle_sync();
    assert!(state.synchronized);
    assert_eq!(state.reference_view, state.candidate_view);
    state.mutate_view(ViewChange::PanDown);
    state.recenter_candidate();
    assert_eq!(state.reference_view, state.candidate_view);
}

#[test]
fn confirming_outside_selection_mode_changes_nothing() {
    let mut browser = browser_with_images();
    browser.handle_normal_action(Some(Action::ConfirmSelection));
    assert!(browser.running);
    assert!(!browser.confirmed);
    browser.handle_normal_action(Some(Action::OpenInspect));
    browser.handle_inspect_action(Some(Action::ConfirmSelection));
    assert!(browser.running);
    assert!(!browser.confirmed);
    assert!(matches!(browser.view, BrowserView::Inspect(_)));
}
