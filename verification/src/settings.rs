//! Startup and interactive thumbnail settings: sizes, quality levels and backgrounds.

use vstd::prelude::*;

use crate::text::{
    chars_of, decimal, decimal_chars, is_digit, first_index, lemma_decimal_reads_back, lemma_first_index, owned, parse_unsigned,
    parse_unsigned_exec, str_is, string_of,
};

verus! {

/// The background shown behind transparent pixels during inspection.
#[derive(Clone, Copy, Debug, PartialEq, Eq, Hash, Structural)]
pub enum BackgroundMode {
    Checkerboard,
    Dark,
    Light,
}

impl Default for BackgroundMode {
    fn default() -> (mode: Self)
        ensures
            mode == BackgroundMode::Checkerboard,
    {
        BackgroundMode::Checkerboard
    }
}

impl BackgroundMode {
    /// The next mode of the checkerboard, dark, light cycle.
    pub fn next(self) -> (next: Self)
        ensures
            next == (match self {
                BackgroundMode::Checkerboard => BackgroundMode::Dark,
                BackgroundMode::Dark => BackgroundMode::Light,
                BackgroundMode::Light => BackgroundMode::Checkerboard,
            }),
    {
        match self {
            BackgroundMode::Checkerboard => BackgroundMode::Dark,
            BackgroundMode::Dark => BackgroundMode::Light,
            BackgroundMode::Light => BackgroundMode::Checkerboard,
        }
    }

    /// The configuration name of the mode.
    pub fn name(self) -> (name: &'static str)
        ensures
            name@ == background_name(self),
    {
        match self {
            BackgroundMode::Checkerboard => "checkerboard",
            BackgroundMode::Dark => "dark",
            BackgroundMode::Light => "light",
        }
    }

    /// Parses a configuration name; exactly the three names of `name` are accepted.
    pub fn parse(value: &str) -> (out: Result<Self, String>)
        ensures
            match out {
                Ok(mode) => background_named(value@) == Some(mode),
                Err(_) => background_named(value@) is None,
            },
            match out {
                Ok(mode) => background_name(mode) == value@,
                Err(e) => (forall|m: BackgroundMode| background_name(m) != value@)
                    && e@ == "background must be checkerboard, dark, or light"@,
            },
    {
        if str_is(value, "checkerboard") {
            Ok(BackgroundMode::Checkerboard)
        } else if str_is(value, "dark") {
            Ok(BackgroundMode::Dark)
        } else if str_is(value, "light") {
            Ok(BackgroundMode::Light)
        } else {
            proof {
                assert forall|m: BackgroundMode| background_name(m) != value@ by {
                    match m {
                        BackgroundMode::Checkerboard => {},
                        BackgroundMode::Dark => {},
                        BackgroundMode::Light => {},
                    }
                }
            }
            Err(owned("background must be checkerboard, dark, or light"))
        }
    }
}

/// The background mode of a configuration name, when one has it.
pub open spec fn background_named(name: Seq<char>) -> Option<BackgroundMode> {
    if name == "checkerboard"@ {
        Some(BackgroundMode::Checkerboard)
    } else if name == "dark"@ {
        Some(BackgroundMode::Dark)
    } else if name == "light"@ {
        Some(BackgroundMode::Light)
    } else {
        None
    }
}

/// The configuration name of a background mode.
pub open spec fn background_name(mode: BackgroundMode) -> Seq<char> {
    match mode {
        BackgroundMode::Checkerboard => "checkerboard"@,
        BackgroundMode::Dark => "dark"@,
        BackgroundMode::Light => "light"@,
    }
}

/// Smallest accepted thumbnail width in terminal cells.
pub const MIN_WIDTH: u16 = 12;
/// Smallest accepted thumbnail height in terminal cells.
pub const MIN_HEIGHT: u16 = 6;
/// Largest accepted thumbnail width in terminal cells.
pub const MAX_WIDTH: u16 = 120;
/// Largest accepted thumbnail height in terminal cells.
pub const MAX_HEIGHT: u16 = 60;

/// A thumbnail quality level from 1 (fastest) to 9 (maximum detail).
#[derive(Clone, Copy, Debug, PartialEq, Eq, Hash, Structural)]
pub struct ThumbnailQuality {
    level: u8,
}

/// The message of every rejected quality level.
pub open spec fn quality_error() -> Seq<char> {
    "thumbnail quality must be a level from 1 to 9"@
}

impl ThumbnailQuality {
    /// The level is always between 1 and 9.
    #[verifier::type_invariant]
    spec fn level_in_range(self) -> bool {
        1 <= self.level <= 9
    }

    /// The level as a number.
    pub closed spec fn spec_level(self) -> u8 {
        self.level
    }

    /// The default quality, level 7.
    pub fn default_quality() -> (q: Self)
        ensures
            q.spec_level() == 7,
    {
        ThumbnailQuality { level: 7 }
    }

    /// The level as a number.
    pub fn level(self) -> (level: u8)
        ensures
            level == self.spec_level(),
            1 <= level <= 9,
    {
        proof {
            use_type_invariant(&self);
        }
        self.level
    }

    /// Accepts exactly the levels 1 through 9.
    pub fn new(level: u8) -> (out: Result<Self, String>)
        ensures
            match out {
                Ok(q) => 1 <= level <= 9 && q.spec_level() == level,
                Err(e) => !(1 <= level <= 9) && e@ == quality_error(),
            },
    {
        if 1 <= level && level <= 9 {
            Ok(ThumbnailQuality { level })
        } else {
            Err(owned("thumbnail quality must be a level from 1 to 9"))
        }
    }

    /// The quality selected by a digit key: `1` to `9` select that level, anything else none.
    pub fn from_digit(character: char) -> (out: Option<Self>)
        ensures
            match out {
                Some(q) => '1' <= character <= '9'
                    && q.spec_level() == character as int - '0' as int,
                None => !('1' <= character <= '9'),
            },
    {
        if '1' <= character && character <= '9' {
            let level = (character as u32 - '0' as u32) as u8;
            Some(ThumbnailQuality { level })
        } else {
            None
        }
    }

    /// Parses a level as std parses a `u8`, then accepts it only from 1 to 9.
    pub fn parse(value: &str) -> (out: Result<Self, String>)
        ensures
            match out {
                Ok(q) => parse_unsigned(value@, 255) == Some(q.spec_level() as nat) && 1 <= q.spec_level() <= 9,
                Err(e) => e@ == quality_error() && match parse_unsigned(value@, 255) {
                    Some(n) => !(1 <= n <= 9),
                    None => true,
                },
            },
    {
        let chars = chars_of(value);
        match parse_unsigned_exec(chars.as_slice(), 255) {
            Some(n) => ThumbnailQuality::new(n as u8),
            None => Err(owned("thumbnail quality must be a level from 1 to 9")),
        }
    }

    /// The level as text, as `Display` writes it.
    pub fn text(self) -> (s: String)
        ensures
            s@ == decimal(self.spec_level() as nat),
    {
        let digits = decimal_chars(self.level as u128);
        string_of(digits.as_slice())
    }
}

impl core::str::FromStr for ThumbnailQuality {
    type Err = String;

    fn from_str(value: &str) -> (out: Result<Self, String>)
        ensures
            match out {
                Ok(q) => parse_unsigned(value@, 255) == Some(q.spec_level() as nat) && 1 <= q.spec_level() <= 9,
                Err(e) => e@ == quality_error() && match parse_unsigned(value@, 255) {
                    Some(n) => !(1 <= n <= 9),
                    None => true,
                },
            },
    {
        ThumbnailQuality::parse(value)
    }
}

/// A preferred thumbnail cell size in terminal cells.
#[derive(Clone, Copy, Debug, PartialEq, Eq, Hash, Structural)]
pub struct ThumbnailSize {
    pub width: u16,
    pub height: u16,
}

/// The separators accepted between width and height: `x`, `X` and `×`.
pub open spec fn is_size_separator(c: char) -> bool {
    c == 'x' || c == 'X' || c == '×'
}

/// The separator test as a predicate.
pub open spec fn size_separator() -> spec_fn(char) -> bool {
    |c: char| is_size_separator(c)
}

/// Whether a size lies within the accepted bounds.
pub open spec fn size_in_bounds(width: int, height: int) -> bool {
    MIN_WIDTH <= width <= MAX_WIDTH && MIN_HEIGHT <= height <= MAX_HEIGHT
}

/// What parsing `WIDTHxHEIGHT` yields: the size, or the error message.
pub open spec fn parse_size(s: Seq<char>) -> Result<(u16, u16), Seq<char>> {
    match first_index(s, size_separator()) {
        None => Err("thumbnail size must use WIDTHxHEIGHT, for example 32x14"@),
        Some(i) => match parse_unsigned(s.take(i), 65535) {
            None => Err("thumbnail width must be a positive integer"@),
            Some(w) => match parse_unsigned(s.skip(i + 1), 65535) {
                None => Err("thumbnail height must be a positive integer"@),
                Some(h) => if size_in_bounds(w as int, h as int) {
                    Ok((w as u16, h as u16))
                } else {
                    Err("thumbnail size must be between 12x6 and 120x60 terminal cells"@)
                },
            },
        },
    }
}

/// A size written as `WIDTH`, a separator (`x`, `X` or `×`) and `HEIGHT` in decimal parses back
/// to that size exactly when it lies within `12x6` to `120x60`, and to the bounds error
/// otherwise; so the text of every accepted size reads back as that size.
pub proof fn law_size_text_reads_back(width: u16, height: u16, separator: char)
    requires
        is_size_separator(separator),
    ensures
        parse_size(decimal(width as nat) + seq![separator] + decimal(height as nat)) == (if size_in_bounds(
            width as int,
            height as int,
        ) {
            Ok::<(u16, u16), Seq<char>>((width, height))
        } else {
            Err("thumbnail size must be between 12x6 and 120x60 terminal cells"@)
        }),
{
    let w = decimal(width as nat);
    let h = decimal(height as nat);
    let s = w + seq![separator] + h;
    lemma_decimal_reads_back(width as nat, 65535);
    lemma_decimal_reads_back(height as nat, 65535);
    assert forall|j: int| 0 <= j < w.len() implies !size_separator()(#[trigger] s[j]) by {
        assert(s[j] == w[j]);
        assert(is_digit(w[j]));
    }
    assert(s[w.len() as int] == separator);
    lemma_first_index(s, size_separator(), w.len() as int);
    assert(s.take(w.len() as int) =~= w);
    assert(s.skip(w.len() as int + 1) =~= h);
}

/// `v` limited to the range `lo..=hi`.
pub open spec fn clamp(v: int, lo: int, hi: int) -> int {
    if v < lo {
        lo
    } else if v > hi {
        hi
    } else {
        v
    }
}

fn clamp_u16(v: u16, lo: u16, hi: u16) -> (out: u16)
    requires
        lo <= hi,
    ensures
        out == clamp(v as int, lo as int, hi as int),
{
    if v < lo {
        lo
    } else if v > hi {
        hi
    } else {
        v
    }
}

impl ThumbnailSize {
    /// The built-in default of `32x14` cells.
    pub fn default_size() -> (size: Self)
        ensures
            size.width == 32 && size.height == 14,
    {
        ThumbnailSize { width: 32, height: 14 }
    }

    /// The next larger size for the grid: the cell size that leaves one column and one row fewer,
    /// kept within the accepted bounds (a single column or row keeps its current dimension).
    pub fn larger_for_grid(self, area_width: u16, area_height: u16, columns: usize, rows: usize) -> (out: Self)
        requires
            columns <= u16::MAX,
            rows <= u16::MAX,
        ensures
            out.width == clamp(
                if columns > 1 { area_width as int / (columns - 1) } else { self.width as int },
                MIN_WIDTH as int,
                MAX_WIDTH as int,
            ),
            out.height == clamp(
                if rows > 1 { area_height as int / (rows - 1) } else { self.height as int },
                MIN_HEIGHT as int,
                MAX_HEIGHT as int,
            ),
    {
        let width = if columns > 1 {
            area_width / (columns as u16 - 1)
        } else {
            self.width
        };
        let height = if rows > 1 {
            area_height / (rows as u16 - 1)
        } else {
            self.height
        };
        ThumbnailSize {
            width: clamp_u16(width, MIN_WIDTH, MAX_WIDTH),
            height: clamp_u16(height, MIN_HEIGHT, MAX_HEIGHT),
        }
    }

    /// The next smaller size for the grid: the cell size that fits one more column and one more
    /// row, kept within the accepted bounds.
    pub fn smaller_for_grid(self, area_width: u16, area_height: u16, columns: usize, rows: usize) -> (out: Self)
        requires
            columns < u16::MAX,
            rows < u16::MAX,
        ensures
            out.width == clamp(area_width as int / (columns + 1), MIN_WIDTH as int, MAX_WIDTH as int),
            out.height == clamp(area_height as int / (rows + 1), MIN_HEIGHT as int, MAX_HEIGHT as int),
    {
        let width = area_width / (columns as u16 + 1);
        let height = area_height / (rows as u16 + 1);
        ThumbnailSize {
            width: clamp_u16(width, MIN_WIDTH, MAX_WIDTH),
            height: clamp_u16(height, MIN_HEIGHT, MAX_HEIGHT),
        }
    }

    /// Parses `WIDTHxHEIGHT` (also with `X` or `×`); both numbers are read as std reads a `u16`
    /// and must lie within `12x6` to `120x60`.
    pub fn parse(value: &str) -> (out: Result<Self, String>)
        ensures
            match (out, parse_size(value@)) {
                (Ok(size), Ok((w, h))) => size.width == w && size.height == h,
                (Err(e), Err(m)) => e@ == m,
                _ => false,
            },
    {
        let s = chars_of(value);
        let ghost pred = size_separator();
        let mut i: usize = 0;
        while i < s.len()
            invariant
                i <= s.len(),
                forall|j: int| 0 <= j < i ==> !is_size_separator(#[trigger] s@[j]),
            ensures
                i <= s.len(),
                forall|j: int| 0 <= j < i ==> !is_size_separator(#[trigger] s@[j]),
                i < s.len() ==> is_size_separator(s@[i as int]),
            decreases s.len() - i,
        {
            let c = s[i];
            if c == 'x' || c == 'X' || c == '×' {
                break;
            }
            i = i + 1;
        }
        proof {
            assert forall|j: int| 0 <= j < i implies !pred(#[trigger] s@[j]) by {
                assert(!is_size_separator(s@[j]));
            }
            lemma_first_index(s@, pred, i as int);
        }
        if i == s.len() {
            return Err(owned("thumbnail size must use WIDTHxHEIGHT, for example 32x14"));
        }
        let width_part = slice_range(s.as_slice(), 0, i);
        let height_part = slice_range(s.as_slice(), i + 1, s.len());
        assert(width_part@ =~= s@.take(i as int));
        assert(height_part@ =~= s@.skip(i + 1));
        let width = match parse_unsigned_exec(width_part.as_slice(), 65535) {
            Some(w) => w as u16,
            None => return Err(owned("thumbnail width must be a positive integer")),
        };
        let height = match parse_unsigned_exec(height_part.as_slice(), 65535) {
            Some(h) => h as u16,
            None => return Err(owned("thumbnail height must be a positive integer")),
        };
        if !(MIN_WIDTH <= width && width <= MAX_WIDTH && MIN_HEIGHT <= height && height <= MAX_HEIGHT) {
            return Err(owned("thumbnail size must be between 12x6 and 120x60 terminal cells"));
        }
        Ok(ThumbnailSize { width, height })
    }

    /// The size as `WIDTHxHEIGHT` text, as `Display` writes it.
    pub fn text(self) -> (s: String)
        ensures
            s@ == decimal(self.width as nat) + seq!['x'] + decimal(self.height as nat),
    {
        let mut out = decimal_chars(self.width as u128);
        out.push('x');
        let mut h = decimal_chars(self.height as u128);
        out.append(&mut h);
        string_of(out.as_slice())
    }
}

impl core::str::FromStr for ThumbnailSize {
    type Err = String;

    fn from_str(value: &str) -> (out: Result<Self, String>)
        ensures
            match (out, parse_size(value@)) {
                (Ok(size), Ok((w, h))) => size.width == w && size.height == h,
                (Err(e), Err(m)) => e@ == m,
                _ => false,
            },
    {
        ThumbnailSize::parse(value)
    }
}

/// A copy of the elements `from..to` of a slice.
pub fn slice_range(s: &[char], from: usize, to: usize) -> (out: Vec<char>)
    requires
        from <= to <= s@.len(),
    ensures
        out@ == s@.subrange(from as int, to as int),
{
    let mut out: Vec<char> = Vec::new();
    let mut i = from;
    while i < to
        invariant
            from <= i <= to <= s@.len(),
            out@ == s@.subrange(from as int, i as int),
        decreases to - i,
    {
        out.push(s[i]);
        i = i + 1;
    }
    out
}

} // verus!
