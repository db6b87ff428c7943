use red_table::app::{is_supported_image, App, EntryId, SourceRevision};

fn photo(name: &str) -> Vec<u8> {
    format!("/photos/{name}").into_bytes()
}

fn app_with_images(names: &[&str]) -> App {
    let mut app = App::new(b"/photos".to_vec());
    for name in names {
        app.add_path(photo(name), SourceRevision::default());
    }
    app
}

#[test]
fn recognizes_supported_extensions_case_insensitively() {
    for name in [
        "a.jpg", "a.JPEG", "a.png", "a.gif", "a.webp", "a.tiff", "a.bmp",
    ] {
        assert!(is_supported_image(name.as_bytes()), "{name}");
    }
    assert!(!is_supported_image(b"notes.txt"));
    assert!(!is_supported_image(b"jpg"));
}

#[test]
fn filters_paths_case_insensitively_and_can_cancel() {
    let mut app = app_with_images(&["Trips/Berlin.JPG", "Family/home.png"]);
    app.start_search();
    for character in "berlin".chars() {
        app.push_search(character);
    }
    assert_eq!(app.filtered, vec![EntryId(0)]);

    app.cancel_search();
    assert_eq!(app.filtered, vec![EntryId(0), EntryId(1)]);
    assert!(app.query.is_empty());
}

#[test]
fn grid_navigation_clamps_and_scrolls() {
    let mut app = app_with_images(&["0.jpg", "1.jpg", "2.jpg", "3.jpg", "4.jpg"]);
    app.move_down(2, 1);
    assert_eq!(app.selected, 2);
    assert_eq!(app.row_offset, 1);

    app.move_down(2, 1);
    assert_eq!(app.selected, 4);
    assert_eq!(app.row_offset, 2);

    app.move_down(2, 1);
    assert_eq!(app.selected, 4);
    app.move_up(2, 1);
    assert_eq!(app.selected, 2);
}

#[test]
fn viewport_prefetch_is_bounded() {
    let names = (0..100)
        .map(|index| format!("{index}.jpg"))
        .collect::<Vec<_>>();
    let borrowed = names.iter().map(String::as_str).collect::<Vec<_>>();
    let mut app = app_with_images(&borrowed);
    app.selected = 50;
    app.ensure_visible(5, 2);

    let visible = app.viewport_entry_ids(5, 2, 1);
    assert!(visible.len() <= 20);
    assert!(visible.contains(&EntryId(50)));
}

#[test]
fn identity_survives_filtering_and_revision_changes() {
    let mut app = app_with_images(&["one.jpg", "two.jpg"]);
    let id = app.filtered[1];
    app.selected = 1;
    app.start_search();
    app.push_search('t');
    assert_eq!(app.selected_entry().unwrap().id, id);

    let changed = SourceRevision {
        size: 42,
        modified_nanoseconds: 9,
    };
    assert_eq!(app.add_path(b"/photos/two.jpg".to_vec(), changed), id);
    assert_eq!(app.entry(id).unwrap().revision, changed);
    assert_eq!(app.entries.len(), 2);
}

#[test]
fn focus_and_marks_remain_independent_across_filters() {
    let mut app = app_with_images(&["one.jpg", "two.jpg", "three.jpg"]);
    app.selected = 1;
    app.toggle_mark();
    let marked = EntryId(1);
    assert!(app.is_marked(marked));
    app.move_right(3, 1);
    assert_eq!(app.selected_entry().unwrap().id, EntryId(2));
    assert!(app.is_marked(marked));

    app.start_search();
    for character in "three".chars() {
        app.push_search(character);
    }
    assert_eq!(app.filtered, vec![EntryId(2)]);
    assert!(app.is_marked(marked));
    app.cancel_search();
    assert_eq!(app.marked_paths(), vec![b"/photos/two.jpg".to_vec()]);
}

#[test]
fn range_marks_in_visible_order_and_selected_only_composes_with_search() {
    let mut app = app_with_images(&["zero.jpg", "one.jpg", "two.jpg", "three.jpg", "four.jpg"]);
    app.selected = 1;
    app.toggle_mark();
    app.selected = 3;
    app.mark_range();
    assert_eq!(app.marked_count(), 3);
    assert_eq!(
        app.marked_paths(),
        ["one.jpg", "two.jpg", "three.jpg"].map(photo).to_vec()
    );

    app.toggle_marked_only();
    assert_eq!(app.filtered, vec![EntryId(1), EntryId(2), EntryId(3)]);
    app.start_search();
    for character in "two".chars() {
        app.push_search(character);
    }
    assert_eq!(app.filtered, vec![EntryId(2)]);
    assert_eq!(app.marked_count(), 3);
    app.clear_marks();
    assert!(app.filtered.is_empty());
    app.toggle_marked_only();
    assert_eq!(app.filtered, vec![EntryId(2)]);
}

#[test]
fn unmarking_then_remarking_moves_an_entry_to_the_end() {
    let mut app = app_with_images(&["one.jpg", "two.jpg"]);
    app.toggle_mark();
    app.move_right(2, 1);
    app.toggle_mark();
    app.move_left(2, 1);
    app.toggle_mark();
    app.toggle_mark();
    assert_eq!(
        app.marked_paths(),
        vec![b"/photos/two.jpg".to_vec(), b"/photos/one.jpg".to_vec()]
    );
}

#[test]
fn labels_are_file_names_and_search_keys_are_relative() {
    let app = app_with_images(&["Trips/Berlin.JPG"]);
    let entry = app.entry(EntryId(0)).unwrap();
    assert_eq!(entry.label, "Berlin.JPG");
    assert_eq!(entry.search_key, "trips/berlin.jpg".chars().collect::<Vec<_>>());
}

#[test]
fn toggling_a_mark_twice_restores_the_marks() {
    let mut app = app_with_images(&["one.jpg", "two.jpg"]);
    app.toggle_mark_id(EntryId(1));
    let before = app.marked_paths();
    app.toggle_mark_id(EntryId(0));
    app.toggle_mark_id(EntryId(0));
    assert_eq!(app.marked_paths(), before);
}

#[test]
fn pop_search_widens_the_filter_and_commit_keeps_it() {
    let mut app = app_with_images(&["one.jpg", "two.jpg"]);
    app.start_search();
    app.push_search('t');
    app.push_search('x');
    assert!(app.filtered.is_empty());
    app.pop_search();
    assert_eq!(app.filtered, vec![EntryId(1)]);
    app.commit_search();
    assert_eq!(app.query, "t");
    assert_eq!(app.filtered, vec![EntryId(1)]);
}

#[test]
fn page_and_edge_movement_stay_in_bounds() {
    let names = (0..10).map(|i| format!("{i}.jpg")).collect::<Vec<_>>();
    let borrowed = names.iter().map(String::as_str).collect::<Vec<_>>();
    let mut app = app_with_images(&borrowed);
    app.page_down(3, 2);
    assert_eq!(app.selected, 6);
    app.select_last(3, 2);
    assert_eq!(app.selected, 9);
    app.page_down(3, 2);
    assert_eq!(app.selected, 9);
    app.select_first();
    assert_eq!(app.selected, 0);
    app.page_up(3, 2);
    assert_eq!(app.selected, 0);
    app.move_left(3, 2);
    assert_eq!(app.selected, 0);
}

#[test]
fn labels_of_non_utf8_names_replace_invalid_bytes() {
    let mut app = App::new(b"/photos".to_vec());
    let id = app.add_path(b"/photos/\xffsun.png".to_vec(), SourceRevision::default());
    assert_eq!(app.entry(id).unwrap().label, "\u{FFFD}sun.png");
    assert!(is_supported_image(b"/photos/\xffsun.PNG"));
}

#[test]
fn the_root_is_stripped_from_raw_bytes_before_lossy_text() {
    let mut app = App::new(b"/a\xff".to_vec());
    app.start_search();
    app.push_search('a');
    let id = app.add_path(b"/a\xfe/x.jpg".to_vec(), SourceRevision::default());
    assert_eq!(
        app.entry(id).unwrap().search_key,
        "/a\u{FFFD}/x.jpg".chars().collect::<Vec<_>>()
    );
    assert_eq!(app.filtered, vec![id]);
    let inside = app.add_path(b"/a\xff/Beach.JPG".to_vec(), SourceRevision::default());
    assert_eq!(
        app.entry(inside).unwrap().search_key,
        "beach.jpg".chars().collect::<Vec<_>>()
    );
    assert_eq!(app.entry(inside).unwrap().label, "Beach.JPG");
}
