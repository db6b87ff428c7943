use red_table::app::{App, SourceRevision};
use red_table::inspection::ViewState;
use red_table::settings::{BackgroundMode, ThumbnailSize};
use red_table::ui::{
    card_style, grid_label, help_overlay_area, pane_title, CardColor, GridLayout, Rect,
};

#[test]
fn larger_target_dimensions_reduce_grid_density() {
    let area = Rect { x: 0, y: 0, width: 100, height: 40 };
    let default = GridLayout::new(area, ThumbnailSize::default_size());
    let larger = GridLayout::new(
        area,
        ThumbnailSize {
            width: 44,
            height: 20,
        },
    );

    assert!(larger.columns < default.columns);
    assert!(larger.image_size.width > default.image_size.width);
    assert!(larger.image_size.height >= default.image_size.height);
}

#[test]
fn mark_label_is_literal_and_independent_from_focus_styling() {
    let mut app = App::new(b"/photos".to_vec());
    let id = app.add_path(b"/photos/one.png".to_vec(), SourceRevision::default());
    assert_eq!(grid_label(&app, app.entry(id).unwrap()), "[ ] one.png");
    app.toggle_mark();
    assert_eq!(grid_label(&app, app.entry(id).unwrap()), "[x] one.png");
}

#[test]
fn mark_border_shape_composes_with_focus_style() {
    let plain = card_style(false, false);
    assert!(!plain.double_border);
    assert_eq!(plain.color, CardColor::DarkGray);

    let marked = card_style(false, true);
    assert!(marked.double_border);
    assert_eq!(marked.color, CardColor::Yellow);

    let focused = card_style(true, false);
    assert!(!focused.double_border);
    assert_eq!(focused.color, CardColor::Red);
    assert!(focused.bold);

    let focused_mark = card_style(true, true);
    assert!(focused_mark.double_border);
    assert_eq!(focused_mark.color, CardColor::Red);
    assert!(focused_mark.bold);
}

#[test]
fn grid_cells_tile_the_area_from_the_top_left() {
    let area = Rect { x: 2, y: 1, width: 100, height: 40 };
    let grid = GridLayout::new(area, ThumbnailSize::default_size());
    let first = grid.cell(0, 0);
    assert_eq!((first.x, first.y), (2, 1));
    let next = grid.cell(1, 1);
    assert_eq!(next.x, 2 + grid.cell_width);
    assert_eq!(next.y, 1 + grid.cell_height);
    assert!(grid.columns >= 1 && grid.rows >= 1);
}

#[test]
fn pane_titles_name_role_mark_label_and_zoom() {
    assert_eq!(
        pane_title("reference", true, "one.png", ViewState::default()),
        " reference · [x] · one.png · fit "
    );
}

#[test]
fn help_overlay_is_centred_and_bounded() {
    let screen = Rect { x: 0, y: 0, width: 100, height: 30 };
    assert_eq!(
        help_overlay_area(screen, 10),
        Rect { x: 14, y: 9, width: 72, height: 12 }
    );
    let small = Rect { x: 0, y: 0, width: 3, height: 2 };
    assert_eq!(
        help_overlay_area(small, 50),
        Rect { x: 1, y: 0, width: 1, height: 1 }
    );
    let _ = BackgroundMode::default();
}

use red_table::app::EntryId;
use red_table::inspection::Zoom;
use red_table::settings::ThumbnailQuality;
use red_table::ui::{empty_grid_message, footer_input, grid_status, inspection_status, GridDebugInfo};

fn browsed() -> App {
    let mut app = App::new(b"/photos".to_vec());
    for name in ["one.png", "two.png", "three.png"] {
        app.add_path(format!("/photos/{name}").into_bytes(), SourceRevision::default());
    }
    app
}

#[test]
fn grid_status_counts_focus_marks_and_work() {
    let mut app = browsed();
    app.selected = 1;
    app.toggle_mark();
    assert_eq!(
        grid_status(&app, 0, None, "Kitty/auto"),
        " 2/3 · 1 marked · 3 found · scanning"
    );
    app.scan_done = true;
    app.scan_errors = 1;
    app.thumbnail_errors = 1;
    app.toggle_marked_only();
    assert_eq!(
        grid_status(&app, 4, None, "Kitty/auto"),
        " 1/1 · 1 marked (only) · 3 found · ready · 4 loading · 2 errors"
    );
    let debug = GridDebugInfo {
        thumbnail_size: ThumbnailSize::default_size(),
        quality: ThumbnailQuality::default_quality(),
        memory_entries: 5,
        memory_bytes: 1_048_577,
        disk_hits: 3,
        disk_misses: 1,
    };
    assert_eq!(
        grid_status(&app, 4, Some(debug), "Kitty/auto"),
        " 1/1 · 1 marked · 3 found · ready · 4 load · 32x14 · Q7 · Kitty/auto · M5/2MiB · D3/1 · 2 err"
    );
}

#[test]
fn inspection_status_shows_zoom_background_and_mark() {
    let mut app = browsed();
    app.toggle_mark_id(EntryId(0));
    let view = ViewState {
        zoom: Zoom::Percent(200),
        center_x: 10,
        center_y: 20,
    };
    assert_eq!(
        inspection_status(&app, view, BackgroundMode::Dark, false, "Sixel/auto"),
        " 1/3 · 1 marked · 200% · dark background · [x] current"
    );
    app.selected = 2;
    assert_eq!(
        inspection_status(&app, view, BackgroundMode::Light, true, "Sixel/auto"),
        " 3/3 · 1 marked · 200% · light background · Sixel/auto · center 10,20"
    );
}

#[test]
fn footer_shows_the_path_and_the_query() {
    let mut app = browsed();
    assert_eq!(footer_input(&app), "/photos/one.png");
    app.start_search();
    app.push_search('o');
    assert_eq!(footer_input(&app), "/o█");
    app.commit_search();
    assert_eq!(footer_input(&app), "/o  ·  /photos/one.png");
    assert_eq!(empty_grid_message(false, true), "Scanning for images…");
    assert_eq!(empty_grid_message(true, false), "No images match the current search");
}

#[test]
fn visible_cards_cover_the_rows_on_screen() {
    let grid = GridLayout::new(
        Rect { x: 2, y: 3, width: 64, height: 28 },
        red_table::settings::ThumbnailSize::default_size(),
    );
    assert_eq!((grid.columns, grid.rows, grid.cell_width, grid.cell_height), (2, 2, 32, 14));
    let cards = grid.visible_cards(1, 7);
    let positions: Vec<usize> = cards.iter().map(|card| card.0).collect();
    assert_eq!(positions, vec![2, 3, 4, 5]);
    assert_eq!(cards[0].1, Rect { x: 2, y: 3, width: 32, height: 14 });
    assert_eq!(cards[3].1, Rect { x: 34, y: 17, width: 32, height: 14 });
    assert_eq!(grid.visible_cards(3, 7).len(), 1);
    assert!(grid.visible_cards(4, 7).is_empty());
    let (image, label) = red_table::ui::card_areas(Rect { x: 3, y: 4, width: 30, height: 12 });
    assert_eq!(image, Rect { x: 3, y: 4, width: 30, height: 11 });
    assert_eq!(label, Rect { x: 3, y: 15, width: 30, height: 1 });
}
