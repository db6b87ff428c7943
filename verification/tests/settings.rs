use red_table::settings::{BackgroundMode, ThumbnailQuality, ThumbnailSize};

#[test]
fn parses_ascii_and_typographic_dimensions() {
    assert_eq!(
        "40x18".parse(),
        Ok(ThumbnailSize {
            width: 40,
            height: 18
        })
    );
    assert_eq!(
        "40X18".parse(),
        Ok(ThumbnailSize {
            width: 40,
            height: 18
        })
    );
    assert_eq!(
        "40×18".parse(),
        Ok(ThumbnailSize {
            width: 40,
            height: 18
        })
    );
}

#[test]
fn rejects_malformed_and_unbounded_dimensions() {
    assert!("wide".parse::<ThumbnailSize>().is_err());
    assert!("11x6".parse::<ThumbnailSize>().is_err());
    assert!("32x61".parse::<ThumbnailSize>().is_err());
}

#[test]
fn interactive_adjustment_stays_bounded() {
    let minimum = ThumbnailSize {
        width: 12,
        height: 6,
    };
    let maximum = ThumbnailSize {
        width: 120,
        height: 60,
    };
    assert_eq!(minimum.smaller_for_grid(12, 6, 1, 1), minimum);
    assert_eq!(maximum.larger_for_grid(120, 60, 1, 1), maximum);
    assert_eq!(
        ThumbnailSize::default_size()
            .larger_for_grid(80, 20, 2, 1)
            .text(),
        "80x14"
    );
    assert_eq!(
        ThumbnailSize::default_size()
            .smaller_for_grid(80, 20, 2, 1)
            .text(),
        "26x10"
    );
}

#[test]
fn quality_accepts_exactly_levels_one_through_nine() {
    for level in 1..=9u8 {
        assert_eq!(
            level.to_string().parse(),
            Ok(ThumbnailQuality::new(level).unwrap())
        );
        assert_eq!(
            ThumbnailQuality::from_digit(char::from_digit(level.into(), 10).unwrap()),
            Some(ThumbnailQuality::new(level).unwrap())
        );
    }
    assert!("0".parse::<ThumbnailQuality>().is_err());
    assert!("10".parse::<ThumbnailQuality>().is_err());
    assert!("high".parse::<ThumbnailQuality>().is_err());
    assert_eq!(ThumbnailQuality::from_digit('0'), None);
}

#[test]
fn quality_rejections_carry_the_documented_message() {
    assert_eq!(
        ThumbnailQuality::new(0),
        Err("thumbnail quality must be a level from 1 to 9".to_string())
    );
    assert_eq!(ThumbnailQuality::default_quality().level(), 7);
    assert_eq!(ThumbnailQuality::new(9).unwrap().text(), "9");
}

#[test]
fn size_rejections_name_the_accepted_range() {
    let error = ThumbnailSize::parse("5x2").unwrap_err();
    assert!(error.contains("between 12x6 and 120x60"), "{error}");
    assert_eq!(ThumbnailSize::default_size().text(), "32x14");
}

#[test]
fn background_modes_cycle_and_round_trip_their_names() {
    let mut mode = BackgroundMode::default();
    assert_eq!(mode, BackgroundMode::Checkerboard);
    for _ in 0..3 {
        assert_eq!(BackgroundMode::parse(mode.name()), Ok(mode));
        mode = mode.next();
    }
    assert_eq!(mode, BackgroundMode::Checkerboard);
    assert!(BackgroundMode::parse("grey").is_err());
}

#[test]
fn size_texts_read_back_within_bounds_only() {
    for (w, h) in [(12u16, 6u16), (32, 14), (120, 60)] {
        for sep in ['x', 'X', '×'] {
            let size: red_table::settings::ThumbnailSize = format!("{w}{sep}{h}").parse().unwrap();
            assert_eq!((size.width, size.height), (w, h));
            assert_eq!(red_table::settings::ThumbnailSize::parse(&size.text()).unwrap(), size);
        }
    }
    for bad in ["11x6", "32x61", "121x14"] {
        let error = red_table::settings::ThumbnailSize::parse(bad).unwrap_err();
        assert!(error.contains("between 12x6 and 120x60"), "{bad}");
    }
}
