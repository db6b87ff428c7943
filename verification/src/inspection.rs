//! Fullscreen inspection geometry: zoom levels, panning, crop rectangles, and the byte-bounded
//! cache of decoded sources shared by the inspection workers.

use vstd::prelude::*;

use crate::app::{min, EntryId, SourceRevision};
use crate::text::{lemma_position_of, lemma_position_of_found, position_of};
use crate::settings::{BackgroundMode, ThumbnailQuality};

verus! {

/// The step of one pan, in ten-thousandths of the pannable range.
pub const PAN_STEP: u16 = 500;
/// The centered position, in ten-thousandths.
pub const CENTER: u16 = 5000;
/// The largest position, in ten-thousandths.
pub const FAR_EDGE: u16 = 10000;

/// How the inspected image is scaled.
#[derive(Clone, Copy, Debug, PartialEq, Eq, Hash, Structural)]
pub enum Zoom {
    Fit,
    Percent(u16),
}

/// The zoom levels that `+` and `-` step through.
pub open spec fn zoom_levels() -> Seq<u16> {
    seq![25u16, 50u16, 100u16, 200u16, 400u16, 800u16]
}

/// The label shown for a zoom.
pub open spec fn zoom_label(zoom: Zoom) -> Seq<char> {
    match zoom {
        Zoom::Fit => "fit"@,
        Zoom::Percent(p) => if p == 25 {
            "25%"@
        } else if p == 50 {
            "50%"@
        } else if p == 100 {
            "100%"@
        } else if p == 200 {
            "200%"@
        } else if p == 400 {
            "400%"@
        } else if p == 800 {
            "800%"@
        } else {
            "custom"@
        },
    }
}

/// The next level above `percent`, or 800%.
pub open spec fn next_level_up(percent: u16) -> u16 {
    if percent < 25 {
        25
    } else if percent < 50 {
        50
    } else if percent < 100 {
        100
    } else if percent < 200 {
        200
    } else if percent < 400 {
        400
    } else {
        800
    }
}

/// The next level below `percent`, if there is one.
pub open spec fn next_level_down(percent: u16) -> Option<u16> {
    if percent > 800 {
        Some(800u16)
    } else if percent > 400 {
        Some(400u16)
    } else if percent > 200 {
        Some(200u16)
    } else if percent > 100 {
        Some(100u16)
    } else if percent > 50 {
        Some(50u16)
    } else if percent > 25 {
        Some(25u16)
    } else {
        None
    }
}

/// One level larger: from fit to 100%, otherwise the next level above, at most 800%.
pub open spec fn zoomed_in(zoom: Zoom) -> Zoom {
    match zoom {
        Zoom::Fit => Zoom::Percent(100),
        Zoom::Percent(p) => Zoom::Percent(next_level_up(p)),
    }
}

/// One level smaller: the next level below, or fit below 25%.
pub open spec fn zoomed_out(zoom: Zoom) -> Zoom {
    match zoom {
        Zoom::Fit => Zoom::Fit,
        Zoom::Percent(p) => match next_level_down(p) {
            Some(level) => Zoom::Percent(level),
            None => Zoom::Fit,
        },
    }
}

/// Fitting, or one of the zoom levels.
pub open spec fn is_zoom_level(zoom: Zoom) -> bool {
    match zoom {
        Zoom::Fit => true,
        Zoom::Percent(p) => zoom_levels().contains(p),
    }
}

/// Zooming stays within fit and the 25% to 800% levels: from any zoom, zooming in or out, or
/// toggling between fit and 100%, gives fit or one of the levels.
pub proof fn law_zoom_stays_within_the_levels(zoom: Zoom)
    ensures
        is_zoom_level(zoomed_in(zoom)),
        is_zoom_level(zoomed_out(zoom)),
        is_zoom_level(
            match zoom {
                Zoom::Fit => Zoom::Percent(100),
                Zoom::Percent(_) => Zoom::Fit,
            },
        ),
{
    assert(zoom_levels()[0] == 25u16 && zoom_levels()[1] == 50u16 && zoom_levels()[2] == 100u16);
    assert(zoom_levels()[3] == 200u16 && zoom_levels()[4] == 400u16 && zoom_levels()[5] == 800u16);
}

/// Zooming out from a percentage gives the largest zoom level strictly below it, or fit when no
/// level is below it; zooming out from fit stays at fit.
pub proof fn law_zoom_out_takes_the_next_level_below(zoom: Zoom)
    ensures
        zoom matches Zoom::Fit ==> zoomed_out(zoom) == Zoom::Fit,
        zoom matches Zoom::Percent(p) ==> match zoomed_out(zoom) {
            Zoom::Percent(q) => zoom_levels().contains(q) && q < p && forall|i: int| 0 <= i < zoom_levels().len()
                && #[trigger] zoom_levels()[i] < p ==> zoom_levels()[i] <= q,
            Zoom::Fit => forall|i: int| 0 <= i < zoom_levels().len() ==> #[trigger] zoom_levels()[i] >= p,
        },
{
    assert(zoom_levels()[0] == 25u16 && zoom_levels()[1] == 50u16 && zoom_levels()[2] == 100u16);
    assert(zoom_levels()[3] == 200u16 && zoom_levels()[4] == 400u16 && zoom_levels()[5] == 800u16);
}

/// Zooming in from a percentage gives the smallest zoom level strictly above it, or 800% when
/// none is above it; zooming in from fit gives 100%.
pub proof fn law_zoom_in_takes_the_next_level_above(zoom: Zoom)
    ensures
        zoom matches Zoom::Fit ==> zoomed_in(zoom) == Zoom::Percent(100),
        zoom matches Zoom::Percent(p) ==> match zoomed_in(zoom) {
            Zoom::Percent(q) => zoom_levels().contains(q) && (if p < 800 {
                q > p && forall|i: int| 0 <= i < zoom_levels().len() && #[trigger] zoom_levels()[i] > p
                    ==> zoom_levels()[i] >= q
            } else {
                q == 800
            }),
            Zoom::Fit => false,
        },
{
    assert(zoom_levels()[0] == 25u16 && zoom_levels()[1] == 50u16 && zoom_levels()[2] == 100u16);
    assert(zoom_levels()[3] == 200u16 && zoom_levels()[4] == 400u16 && zoom_levels()[5] == 800u16);
}

/// Zooming in one level and out again returns to the level below 800% that one started from.
pub proof fn law_zoom_out_undoes_zoom_in(level: u16)
    requires
        zoom_levels().contains(level),
        level < 800,
    ensures
        zoomed_out(zoomed_in(Zoom::Percent(level))) == Zoom::Percent(level),
{
    let i = choose|i: int| 0 <= i < zoom_levels().len() && zoom_levels()[i] == level;
    assert(zoom_levels()[0] == 25u16 && zoom_levels()[1] == 50u16 && zoom_levels()[2] == 100u16);
    assert(zoom_levels()[3] == 200u16 && zoom_levels()[4] == 400u16 && zoom_levels()[5] == 800u16);
}

impl Zoom {
    /// The label shown for the zoom.
    pub fn label(self) -> (label: &'static str)
        ensures
            label@ == zoom_label(self),
    {
        match self {
            Zoom::Fit => "fit",
            Zoom::Percent(p) => if p == 25 {
                "25%"
            } else if p == 50 {
                "50%"
            } else if p == 100 {
                "100%"
            } else if p == 200 {
                "200%"
            } else if p == 400 {
                "400%"
            } else if p == 800 {
                "800%"
            } else {
                "custom"
            },
        }
    }

    /// Switches between fitting the view and exact 100%.
    pub fn toggle_fit_hundred(self) -> (out: Self)
        ensures
            out == (match self {
                Zoom::Fit => Zoom::Percent(100),
                Zoom::Percent(_) => Zoom::Fit,
            }),
    {
        match self {
            Zoom::Fit => Zoom::Percent(100),
            Zoom::Percent(_) => Zoom::Fit,
        }
    }

    /// The next larger level: from fit to 100%, otherwise the first level above the current
    /// percentage, at most 800%.
    pub fn zoom_in(self) -> (out: Self)
        ensures
            out == zoomed_in(self),
    {
        match self {
            Zoom::Fit => Zoom::Percent(100),
            Zoom::Percent(percent) => Zoom::Percent(
                if percent < 25 {
                    25
                } else if percent < 50 {
                    50
                } else if percent < 100 {
                    100
                } else if percent < 200 {
                    200
                } else if percent < 400 {
                    400
                } else {
                    800
                },
            ),
        }
    }

    /// The next smaller level: the last level below the current percentage, or fit below 25%.
    pub fn zoom_out(self) -> (out: Self)
        ensures
            out == zoomed_out(self),
    {
        match self {
            Zoom::Fit => Zoom::Fit,
            Zoom::Percent(percent) => if percent > 800 {
                Zoom::Percent(800)
            } else if percent > 400 {
                Zoom::Percent(400)
            } else if percent > 200 {
                Zoom::Percent(200)
            } else if percent > 100 {
                Zoom::Percent(100)
            } else if percent > 50 {
                Zoom::Percent(50)
            } else if percent > 25 {
                Zoom::Percent(25)
            } else {
                Zoom::Fit
            },
        }
    }
}

/// The zoom and the normalized crop center of an inspected image.
#[derive(Clone, Copy, Debug, PartialEq, Eq, Structural)]
pub struct ViewState {
    pub zoom: Zoom,
    pub center_x: u16,
    pub center_y: u16,
}

impl Default for ViewState {
    fn default() -> (state: Self)
        ensures
            state.zoom == Zoom::Fit,
            state.center_x == CENTER,
            state.center_y == CENTER,
    {
        ViewState { zoom: Zoom::Fit, center_x: CENTER, center_y: CENTER }
    }
}

/// One step toward the near edge, stopping at 0.
pub open spec fn panned_back(center: u16) -> u16 {
    if center >= PAN_STEP {
        (center - PAN_STEP) as u16
    } else {
        0
    }
}

/// One step toward the far edge, stopping at 10 000.
pub open spec fn panned_forward(center: u16) -> u16 {
    min(min(center + PAN_STEP, u16::MAX as int), FAR_EDGE as int) as u16
}

impl ViewState {
    /// Centers the crop again.
    pub fn recenter(&mut self)
        ensures
            final(self).zoom == old(self).zoom,
            final(self).center_x == CENTER,
            final(self).center_y == CENTER,
    {
        self.center_x = CENTER;
        self.center_y = CENTER;
    }

    /// Pans one step left.
    pub fn pan_left(&mut self)
        ensures
            *final(self) == (ViewState { center_x: panned_back(old(self).center_x), ..*old(self) }),
    {
        self.center_x = self.center_x.saturating_sub(PAN_STEP);
    }

    /// Pans one step right.
    pub fn pan_right(&mut self)
        ensures
            *final(self) == (ViewState { center_x: panned_forward(old(self).center_x), ..*old(self) }),
    {
        self.center_x = min_u16(self.center_x.saturating_add(PAN_STEP), FAR_EDGE);
    }

    /// Pans one step up.
    pub fn pan_up(&mut self)
        ensures
            *final(self) == (ViewState { center_y: panned_back(old(self).center_y), ..*old(self) }),
    {
        self.center_y = self.center_y.saturating_sub(PAN_STEP);
    }

    /// Pans one step down.
    pub fn pan_down(&mut self)
        ensures
            *final(self) == (ViewState { center_y: panned_forward(old(self).center_y), ..*old(self) }),
    {
        self.center_y = min_u16(self.center_y.saturating_add(PAN_STEP), FAR_EDGE);
    }
}

fn min_u16(a: u16, b: u16) -> (m: u16)
    ensures
        m == min(a as int, b as int),
{
    if a <= b {
        a
    } else {
        b
    }
}

/// What an inspection view is prepared for.
#[derive(Clone, Copy, Debug, PartialEq, Eq, Hash, Structural)]
pub struct InspectionKey {
    pub entry_id: EntryId,
    pub revision: SourceRevision,
    /// The view size in terminal cells.
    pub width: u16,
    pub height: u16,
    pub zoom: Zoom,
    pub center_x: u16,
    pub center_y: u16,
    pub background: BackgroundMode,
    pub quality: ThumbnailQuality,
}

/// The source rectangle of a zoomed view and the size it is displayed at.
#[derive(Clone, Copy, Debug, PartialEq, Eq, Structural)]
pub struct CropGeometry {
    pub x: u32,
    pub y: u32,
    pub width: u32,
    pub height: u32,
    pub display_width: u32,
    pub display_height: u32,
}

/// Division rounding up.
pub open spec fn ceil_div(a: int, b: int) -> int {
    a / b + (if a % b != 0 { 1int } else { 0int })
}

/// `v` limited to `lo..=hi`.
pub open spec fn clamp_int(v: int, lo: int, hi: int) -> int {
    if v < lo {
        lo
    } else if v > hi {
        hi
    } else {
        v
    }
}

/// `a * b`, stopping at `u32::MAX`.
pub open spec fn saturating_mul_u32(a: int, b: int) -> int {
    min(a * b, u32::MAX as int)
}

/// The crop extent along one axis: the target size at `percent`, at least 1 and at most the
/// source size.
pub open spec fn crop_extent(source: int, target: int, percent: int) -> int {
    clamp_int(ceil_div(saturating_mul_u32(target, 100), percent), 1, if source < 1 { 1 } else { source })
}

/// The crop origin along one axis: the free space scaled by the center position.
pub open spec fn crop_origin(source: int, extent: int, center: int) -> int {
    (if source >= extent { source - extent } else { 0 }) * min(center, FAR_EDGE as int) / 10000
}

/// The display extent along one axis: the crop extent at `percent`, at most the target size.
pub open spec fn display_extent(extent: int, target: int, percent: int) -> int {
    min(ceil_div(saturating_mul_u32(extent, percent), 100), target)
}

fn ceil_div_u32(a: u32, b: u32) -> (q: u32)
    requires
        b > 0,
    ensures
        q == ceil_div(a as int, b as int),
{
    let whole = a / b;
    if a % b != 0 {
        assert(b >= 2);
        assert(whole < u32::MAX) by (nonlinear_arith) requires whole == a / b, b >= 2;
        whole + 1
    } else {
        whole
    }
}

fn saturating_mul_u32_exec(a: u32, b: u32) -> (m: u32)
    ensures
        m == saturating_mul_u32(a as int, b as int),
{
    match a.checked_mul(b) {
        Some(v) => v,
        None => u32::MAX,
    }
}

fn crop_origin_exec(source: u32, extent: u32, center: u16) -> (origin: u32)
    ensures
        origin == crop_origin(source as int, extent as int, center as int),
{
    let free = source.saturating_sub(extent) as u64;
    let position = min_u16(center, FAR_EDGE) as u64;
    assert(free * position <= 0xffff_ffff * 10000) by (nonlinear_arith)
        requires free <= 0xffff_ffff, position <= 10000;
    let scaled = free * position / 10000;
    assert(scaled <= free) by (nonlinear_arith)
        requires scaled == free * position / 10000, position <= 10000;
    scaled as u32
}

/// The crop of a `percent` zoom: the source rectangle around the normalized center and the
/// size it is shown at within the target.
pub fn crop_geometry(
    source_width: u32,
    source_height: u32,
    target_width: u32,
    target_height: u32,
    percent: u16,
    center_x: u16,
    center_y: u16,
) -> (g: CropGeometry)
    ensures
        ({
            let p = if percent < 1 { 1int } else { percent as int };
            &&& g.width == crop_extent(source_width as int, target_width as int, p)
            &&& g.height == crop_extent(source_height as int, target_height as int, p)
            &&& g.x == crop_origin(source_width as int, g.width as int, center_x as int)
            &&& g.y == crop_origin(source_height as int, g.height as int, center_y as int)
            &&& g.display_width == display_extent(g.width as int, target_width as int, p)
            &&& g.display_height == display_extent(g.height as int, target_height as int, p)
        }),
{
    let p: u32 = if percent < 1 { 1 } else { percent as u32 };
    let max_width = if source_width < 1 { 1 } else { source_width };
    let max_height = if source_height < 1 { 1 } else { source_height };
    let width = clamp_u32(ceil_div_u32(saturating_mul_u32_exec(target_width, 100), p), 1, max_width);
    let height = clamp_u32(ceil_div_u32(saturating_mul_u32_exec(target_height, 100), p), 1, max_height);
    let display_width = min_u32(ceil_div_u32(saturating_mul_u32_exec(width, p), 100), target_width);
    let display_height = min_u32(ceil_div_u32(saturating_mul_u32_exec(height, p), 100), target_height);
    CropGeometry {
        x: crop_origin_exec(source_width, width, center_x),
        y: crop_origin_exec(source_height, height, center_y),
        width,
        height,
        display_width,
        display_height,
    }
}

fn clamp_u32(v: u32, lo: u32, hi: u32) -> (out: u32)
    requires
        lo <= hi,
    ensures
        out == clamp_int(v as int, lo as int, hi as int),
{
    if v < lo {
        lo
    } else if v > hi {
        hi
    } else {
        v
    }
}

fn min_u32(a: u32, b: u32) -> (m: u32)
    ensures
        m == min(a as int, b as int),
{
    if a <= b {
        a
    } else {
        b
    }
}

/// A crop never leaves a non-empty source, and at the far edge it ends exactly at the source's
/// end.
pub proof fn law_crop_stays_inside_the_source(source: int, target: int, percent: int, center: int)
    requires
        1 <= source <= u32::MAX,
        0 <= target <= u32::MAX,
        1 <= percent,
        0 <= center,
    ensures
        ({
            let extent = crop_extent(source, target, percent);
            let origin = crop_origin(source, extent, center);
            &&& 0 <= origin
            &&& origin + extent <= source
            &&& center >= FAR_EDGE ==> origin + extent == source
        }),
{
    let extent = crop_extent(source, target, percent);
    let free = source - extent;
    let position = min(center, FAR_EDGE as int);
    assert(0 <= free * position / 10000 <= free) by (nonlinear_arith)
        requires free >= 0, 0 <= position <= 10000;
    if center >= FAR_EDGE {
        assert(free * 10000 / 10000 == free) by (nonlinear_arith) requires free >= 0;
    }
}

/// The bytes of a prepared view of `width` by `height` cells with `font_width` by `font_height`
/// pixel cells, as four bytes per pixel, stopping at `u64::MAX`.
pub open spec fn prepared_view_bytes(width: int, height: int, font_width: int, font_height: int) -> int {
    min(min(width * font_width * height * font_height, u64::MAX as int) * 4, u64::MAX as int)
}

/// The largest prepared view, 128 MiB.
pub const MAX_PREPARED_VIEW_BYTES: u64 = 134217728;

/// The pixel size of a view of `width` by `height` cells, or the error when its RGBA data would
/// exceed the 128 MiB limit.
pub fn prepared_view_target(width: u16, height: u16, font_width: u16, font_height: u16) -> (out: Result<(u32, u32), String>)
    ensures
        match out {
            Ok((w, h)) => w == width * font_width && h == height * font_height
                && prepared_view_bytes(width as int, height as int, font_width as int, font_height as int) <= MAX_PREPARED_VIEW_BYTES,
            Err(e) => e@ == "terminal view exceeds the 128 MiB prepared-image limit"@
                && prepared_view_bytes(width as int, height as int, font_width as int, font_height as int) > MAX_PREPARED_VIEW_BYTES,
        },
{
    assert(width as int * font_width as int <= u32::MAX) by (nonlinear_arith)
        requires width <= u16::MAX, font_width <= u16::MAX;
    assert(height as int * font_height as int <= u32::MAX) by (nonlinear_arith)
        requires height <= u16::MAX, font_height <= u16::MAX;
    let target_width = width as u32 * font_width as u32;
    let target_height = height as u32 * font_height as u32;
    assert(target_width as int * target_height as int <= u64::MAX) by (nonlinear_arith)
        requires target_width <= u32::MAX, target_height <= u32::MAX;
    let pixels = target_width as u64 * target_height as u64;
    let bytes = match pixels.checked_mul(4) {
        Some(b) => b,
        None => u64::MAX,
    };
    assert(target_width * target_height == width * font_width * height * font_height) by (nonlinear_arith)
        requires target_width == width * font_width, target_height == height * font_height;
    if bytes > MAX_PREPARED_VIEW_BYTES {
        return Err(crate::text::owned("terminal view exceeds the 128 MiB prepared-image limit"));
    }
    Ok((target_width, target_height))
}

/// The gray value of the inspection background at pixel (`x`, `y`): an 8-pixel checkerboard of
/// 72 and 112, dark 24, or light 224.
pub open spec fn background_value(x: int, y: int, mode: BackgroundMode) -> u8 {
    match mode {
        BackgroundMode::Checkerboard => if (x / 8 + y / 8) % 2 == 0 { 72u8 } else { 112u8 },
        BackgroundMode::Dark => 24u8,
        BackgroundMode::Light => 224u8,
    }
}

/// The gray value of the inspection background at a pixel.
pub fn background_pixel(x: u32, y: u32, mode: BackgroundMode) -> (value: u8)
    ensures
        value == background_value(x as int, y as int, mode),
{
    match mode {
        BackgroundMode::Checkerboard => if ((x / 8) as u64 + (y / 8) as u64) % 2 == 0 {
            72
        } else {
            112
        },
        BackgroundMode::Dark => 24,
        BackgroundMode::Light => 224,
    }
}

} // verus!

verus! {

/// The decoded size of an image: width × height × bytes per pixel, stopping at `u64::MAX`.
pub open spec fn decoded_size(width: int, height: int, bytes_per_pixel: int) -> int {
    min(min(width * height, u64::MAX as int) * bytes_per_pixel, u64::MAX as int)
}

/// The decoded size of an image of the given dimensions and pixel size.
pub fn decoded_bytes(width: u32, height: u32, bytes_per_pixel: u8) -> (bytes: u64)
    ensures
        bytes == decoded_size(width as int, height as int, bytes_per_pixel as int),
{
    assert(width as int * height as int <= u64::MAX) by (nonlinear_arith)
        requires width <= u32::MAX, height <= u32::MAX;
    let pixels = width as u64 * height as u64;
    match pixels.checked_mul(bytes_per_pixel as u64) {
        Some(b) => b,
        None => u64::MAX,
    }
}

/// One decoded source held by the cache.
pub struct CachedSource<V> {
    pub id: EntryId,
    pub revision: SourceRevision,
    pub value: V,
    pub bytes: u64,
}

/// The summed sizes of cached sources.
pub open spec fn total_bytes<V>(items: Seq<CachedSource<V>>) -> int
    decreases items.len(),
{
    if items.len() == 0 {
        0
    } else {
        total_bytes(items.drop_last()) + items.last().bytes
    }
}

/// The sources that remain after evicting the oldest until `incoming` more bytes fit the limit.
pub open spec fn after_eviction<V>(items: Seq<CachedSource<V>>, incoming: int, limit: int) -> Seq<CachedSource<V>>
    decreases items.len(),
{
    if items.len() == 0 || total_bytes(items) + incoming <= limit {
        items
    } else {
        after_eviction(items.drop_first(), incoming, limit)
    }
}

/// The sources without the one of `id`.
pub open spec fn without_id<V>(items: Seq<CachedSource<V>>, id: EntryId) -> Seq<CachedSource<V>> {
    match position_of(items.map_values(|c: CachedSource<V>| c.id), id) {
        Some(p) => items.remove(p),
        None => items,
    }
}

proof fn lemma_total_bytes_nonnegative<V>(items: Seq<CachedSource<V>>)
    ensures
        total_bytes(items) >= 0,
    decreases items.len(),
{
    if items.len() > 0 {
        lemma_total_bytes_nonnegative(items.drop_last());
    }
}

proof fn lemma_total_bytes_first<V>(items: Seq<CachedSource<V>>)
    requires
        items.len() > 0,
    ensures
        total_bytes(items) == items[0].bytes + total_bytes(items.drop_first()),
    decreases items.len(),
{
    if items.len() > 1 {
        let shorter = items.drop_last();
        lemma_total_bytes_first(shorter);
        assert(shorter.drop_first() =~= items.drop_first().drop_last());
        assert(items.drop_first().last() == items.last());
        assert(shorter[0] == items[0]);
        assert(total_bytes(items.drop_first()) == total_bytes(items.drop_first().drop_last())
            + items.drop_first().last().bytes);
        assert(total_bytes(items) == total_bytes(shorter) + items.last().bytes);
        assert(total_bytes(shorter.drop_first()) == total_bytes(items.drop_first().drop_last()));
    } else {
        assert(items.drop_first().len() == 0);
        assert(items.drop_last().len() == 0);
        assert(items.last() == items[0]);
        assert(total_bytes(items.drop_first()) == 0);
        assert(total_bytes(items.drop_last()) == 0);
        assert(total_bytes(items) == items[0].bytes);
    }
}

proof fn lemma_total_bytes_remove<V>(items: Seq<CachedSource<V>>, p: int)
    requires
        0 <= p < items.len(),
    ensures
        total_bytes(items.remove(p)) == total_bytes(items) - items[p].bytes,
    decreases items.len(),
{
    if p == items.len() - 1 {
        assert(items.remove(p) =~= items.drop_last());
    } else {
        lemma_total_bytes_remove(items.drop_last(), p);
        assert(items.remove(p).drop_last() =~= items.drop_last().remove(p));
        assert(items.remove(p).last() == items.last());
    }
}

/// Eviction keeps a suffix of the sources, the most recently used ones, and leaves room for
/// the incoming bytes unless nothing is left.
pub proof fn law_eviction_keeps_the_most_recent<V>(items: Seq<CachedSource<V>>, incoming: int, limit: int)
    ensures
        ({
            let kept = after_eviction(items, incoming, limit);
            &&& kept.len() <= items.len()
            &&& kept =~= items.subrange(items.len() - kept.len(), items.len() as int)
            &&& kept.len() > 0 ==> total_bytes(kept) + incoming <= limit
        }),
    decreases items.len(),
{
    if items.len() == 0 || total_bytes(items) + incoming <= limit {
        assert(items =~= items.subrange(0, items.len() as int));
    } else {
        law_eviction_keeps_the_most_recent(items.drop_first(), incoming, limit);
        let kept = after_eviction(items, incoming, limit);
        let rest = items.drop_first();
        assert(kept =~= rest.subrange(rest.len() - kept.len(), rest.len() as int));
        assert forall|k: int| 0 <= k < kept.len() implies kept[k] == items.subrange(
            items.len() - kept.len(),
            items.len() as int,
        )[k] by {
            assert(rest[rest.len() - kept.len() + k] == items[items.len() - kept.len() + k]);
        }
    }
}

/// The cache of decoded sources, bounded by the sum of their sizes and ordered from the least
/// to the most recently used.
pub struct DecodedCache<V> {
    pub entries: Vec<CachedSource<V>>,
    pub bytes: u64,
    pub limit: u64,
}

impl<V> DecodedCache<V> {
    /// The ids held, from the least to the most recently used.
    pub open spec fn ids(&self) -> Seq<EntryId> {
        self.entries@.map_values(|c: CachedSource<V>| c.id)
    }

    /// Ids are distinct, and the accounted bytes are the sum of the sizes and within the limit.
    pub open spec fn wf(&self) -> bool {
        &&& self.ids().no_duplicates()
        &&& self.bytes == total_bytes(self.entries@)
        &&& self.bytes <= self.limit
        &&& self.limit < u64::MAX
    }

    /// An empty cache bounded by `limit` bytes.
    pub fn new(limit: u64) -> (cache: Self)
        requires
            limit < u64::MAX,
        ensures
            cache.wf(),
            cache.entries@.len() == 0,
            cache.limit == limit,
    {
        DecodedCache { entries: Vec::new(), bytes: 0, limit }
    }

    fn position(&self, id: EntryId) -> (out: Option<usize>)
        ensures
            match out {
                Some(p) => {
                    &&& position_of(self.ids(), id) == Some(p as int)
                    &&& p < self.entries@.len()
                    &&& self.entries@[p as int].id == id
                },
                None => position_of(self.ids(), id) is None,
            },
    {
        let mut i: usize = 0;
        while i < self.entries.len()
            invariant
                i <= self.entries@.len(),
                forall|j: int| 0 <= j < i ==> #[trigger] self.ids()[j] != id,
            decreases self.entries.len() - i,
        {
            if self.entries[i].id == id {
                proof {
                    lemma_position_of(self.ids(), id, i as int);
                }
                return Some(i);
            }
            i = i + 1;
        }
        proof {
            lemma_position_of(self.ids(), id, i as int);
        }
        None
    }

    /// Looks up the source of `id` at `revision` and marks it as the most recently used. A
    /// source cached for another revision is not returned.
    pub fn get(&mut self, id: EntryId, revision: SourceRevision) -> (found: bool)
        requires
            old(self).wf(),
        ensures
            final(self).wf(),
            final(self).limit == old(self).limit,
            match position_of(old(self).ids(), id) {
                Some(p) => if old(self).entries@[p].revision == revision {
                    &&& found
                    &&& final(self).entries@ == old(self).entries@.remove(p).push(old(self).entries@[p])
                } else {
                    &&& !found
                    &&& final(self).entries@ == old(self).entries@
                },
                None => !found && final(self).entries@ == old(self).entries@,
            },
    {
        match self.position(id) {
            Some(p) => {
                if self.entries[p].revision == revision {
                    let ghost before = self.entries@;
                    let item = self.entries.remove(p);
                    self.entries.push(item);
                    proof {
                        lemma_total_bytes_remove(before, p as int);
                        assert(self.entries@.drop_last() =~= before.remove(p as int));
                        assert(self.ids() =~= before.map_values(|c: CachedSource<V>| c.id).remove(p as int).push(id));
                        assert(self.ids().no_duplicates()) by {
                            let old_ids = before.map_values(|c: CachedSource<V>| c.id);
                            assert forall|a: int, b: int| 0 <= a < b < self.ids().len()
                                implies self.ids()[a] != self.ids()[b] by {
                                let a2 = if a < p { a } else { a + 1 };
                                if b < self.ids().len() - 1 {
                                    let b2 = if b < p { b } else { b + 1 };
                                    assert(self.ids()[b] == old_ids[b2]);
                                } else {
                                    assert(self.ids()[b] == old_ids[p as int]);
                                }
                                assert(self.ids()[a] == old_ids[a2]);
                            }
                        }
                    }
                    true
                } else {
                    false
                }
            },
            None => false,
        }
    }

    /// The cached value of `id`.
    pub fn value(&self, id: EntryId) -> (out: Option<&V>)
        ensures
            match position_of(self.ids(), id) {
                Some(p) => out == Some(&self.entries@[p].value),
                None => out is None,
            },
    {
        match self.position(id) {
            Some(p) => Some(&self.entries[p].value),
            None => None,
        }
    }

    /// Stores a decoded source of `bytes` bytes as the most recently used, replacing an older
    /// source of the same id and evicting the least recently used until it fits. A source larger
    /// than the whole limit is not stored.
    pub fn insert(&mut self, id: EntryId, revision: SourceRevision, value: V, bytes: u64)
        requires
            old(self).wf(),
        ensures
            final(self).wf(),
            final(self).limit == old(self).limit,
            bytes > old(self).limit ==> final(self).entries@ == old(self).entries@,
            bytes <= old(self).limit ==> {
                let kept = after_eviction(without_id(old(self).entries@, id), bytes as int, old(self).limit as int);
                final(self).entries@ == kept.push(CachedSource { id, revision, value, bytes })
            },
    {
        if bytes > self.limit {
            return;
        }
        let ghost start = self.entries@;
        match self.position(id) {
            Some(p) => {
                let ghost before = self.entries@;
                proof {
                    lemma_total_bytes_remove(before, p as int);
                    lemma_total_bytes_nonnegative(before.remove(p as int));
                }
                let previous = self.entries.remove(p);
                self.bytes = self.bytes - previous.bytes;
                proof {
                    assert(self.ids() =~= before.map_values(|c: CachedSource<V>| c.id).remove(p as int));
                    let old_ids = before.map_values(|c: CachedSource<V>| c.id);
                    assert forall|a: int, b: int| 0 <= a < b < self.ids().len()
                        implies self.ids()[a] != self.ids()[b] by {
                        let a2 = if a < p { a } else { a + 1 };
                        let b2 = if b < p { b } else { b + 1 };
                        assert(self.ids()[a] == old_ids[a2]);
                        assert(self.ids()[b] == old_ids[b2]);
                    }
                    assert(old_ids[p as int] == id);
                    assert forall|k: int| 0 <= k < self.ids().len() implies self.ids()[k] != id by {
                        let k2 = if k < p { k } else { k + 1 };
                        assert(self.ids()[k] == old_ids[k2]);
                    }
                }
            },
            None => {
                proof {
                    lemma_position_of_found(self.ids(), id);
                }
            },
        }
        let ghost base = self.entries@;
        assert(base == without_id(start, id));
        while self.bytes.saturating_add(bytes) > self.limit
            invariant
                self.ids().no_duplicates(),
                self.bytes == total_bytes(self.entries@),
                self.bytes <= self.limit,
                self.limit == old(self).limit,
                self.limit < u64::MAX,
                bytes <= self.limit,
                after_eviction(base, bytes as int, self.limit as int)
                    == after_eviction(self.entries@, bytes as int, self.limit as int),
                !self.ids().contains(id),
            ensures
                self.entries@.len() == 0 || self.bytes + bytes <= self.limit,
            decreases self.entries@.len(),
        {
            if self.entries.len() == 0 {
                proof {
                    assert(total_bytes(self.entries@) == 0);
                }
                break;
            }
            let ghost before = self.entries@;
            proof {
                lemma_total_bytes_first(before);
                lemma_total_bytes_nonnegative(before.drop_first());
            }
            let oldest = self.entries.remove(0);
            self.bytes = self.bytes - oldest.bytes;
            proof {
                assert(self.entries@ =~= before.drop_first());
                let old_ids = before.map_values(|c: CachedSource<V>| c.id);
                assert(self.ids() =~= old_ids.drop_first());
                assert forall|a: int, b: int| 0 <= a < b < self.ids().len()
                    implies self.ids()[a] != self.ids()[b] by {
                    assert(self.ids()[a] == old_ids[a + 1]);
                    assert(self.ids()[b] == old_ids[b + 1]);
                }
                assert forall|k: int| 0 <= k < self.ids().len() implies self.ids()[k] != id by {
                    assert(self.ids()[k] == old_ids[k + 1]);
                }
            }
        }
        assert(after_eviction(self.entries@, bytes as int, self.limit as int) == self.entries@);
        let ghost kept = self.entries@;
        self.entries.push(CachedSource { id, revision, value, bytes });
        self.bytes = self.bytes + bytes;
        proof {
            assert(self.entries@.drop_last() =~= kept);
            let old_ids = kept.map_values(|c: CachedSource<V>| c.id);
            assert(self.ids() =~= old_ids.push(id));
            assert forall|a: int, b: int| 0 <= a < b < self.ids().len()
                implies self.ids()[a] != self.ids()[b] by {
                assert(self.ids()[a] == old_ids[a]);
                if b < self.ids().len() - 1 {
                    assert(self.ids()[b] == old_ids[b]);
                } else {
                    assert(!old_ids.contains(id));
                }
            }
        }
    }
}

/// A source that fits the limit is found right after it is inserted.
pub proof fn law_inserted_source_is_found<V>(cache: &DecodedCache<V>, id: EntryId)
    requires
        cache.wf(),
        cache.entries@.len() > 0,
        cache.entries@.last().id == id,
    ensures
        position_of(cache.ids(), id) == Some(cache.entries@.len() - 1),
{
    let ids = cache.ids();
    let n = ids.len() - 1;
    assert forall|j: int| 0 <= j < n implies #[trigger] ids[j] != id by {
        assert(ids[n] == id);
    }
    lemma_position_of(ids, id, n);
}

/// What inserting into the decoded-source cache gives, as `DecodedCache::insert` ensures it:
/// the byte total stays the sum of the sizes and within the limit; a source larger than the
/// limit leaves the cache as it was; otherwise the new source is found at its revision as the
/// most recently used, and only the least recently used of the other sources were evicted, as
/// few as leave room for it.
pub proof fn law_insertion_evicts_only_the_least_recent<V>(
    before: DecodedCache<V>,
    after: DecodedCache<V>,
    id: EntryId,
    revision: SourceRevision,
    value: V,
    bytes: u64,
)
    requires
        before.wf(),
        after.wf(),
        after.limit == before.limit,
        bytes > before.limit ==> after.entries@ == before.entries@,
        bytes <= before.limit ==> {
            let kept = after_eviction(without_id(before.entries@, id), bytes as int, before.limit as int);
            after.entries@ == kept.push(CachedSource { id, revision, value, bytes })
        },
    ensures
        after.bytes == total_bytes(after.entries@),
        after.bytes <= after.limit,
        bytes > before.limit ==> after.entries@ == before.entries@,
        bytes <= before.limit ==> {
            let others = without_id(before.entries@, id);
            let kept = after.entries@.drop_last();
            &&& position_of(after.ids(), id) == Some(after.entries@.len() - 1)
            &&& after.entries@[after.entries@.len() - 1].revision == revision
            &&& kept =~= others.subrange(others.len() - kept.len(), others.len() as int)
            &&& kept.len() < others.len() ==> total_bytes(others.subrange(
                others.len() - kept.len() - 1,
                others.len() as int,
            )) + bytes > before.limit
        },
{
    if bytes <= before.limit {
        let others = without_id(before.entries@, id);
        let kept = after_eviction(others, bytes as int, before.limit as int);
        assert(after.entries@.drop_last() =~= kept);
        law_inserted_source_is_found(&after, id);
        law_eviction_keeps_the_most_recent(others, bytes as int, before.limit as int);
        lemma_eviction_is_minimal(others, bytes as int, before.limit as int);
    }
}

/// Eviction stops at the first suffix that leaves room: the suffix one longer did not.
proof fn lemma_eviction_is_minimal<V>(items: Seq<CachedSource<V>>, incoming: int, limit: int)
    ensures
        ({
            let kept = after_eviction(items, incoming, limit);
            kept.len() < items.len() ==> total_bytes(items.subrange(
                items.len() - kept.len() - 1,
                items.len() as int,
            )) + incoming > limit
        }),
    decreases items.len(),
{
    if items.len() == 0 || total_bytes(items) + incoming <= limit {
    } else {
        let rest = items.drop_first();
        lemma_eviction_is_minimal(rest, incoming, limit);
        let kept = after_eviction(items, incoming, limit);
        if kept.len() < rest.len() {
            assert(rest.subrange(rest.len() - kept.len() - 1, rest.len() as int) =~= items.subrange(
                items.len() - kept.len() - 1,
                items.len() as int,
            ));
        } else {
            law_eviction_keeps_the_most_recent(rest, incoming, limit);
            assert(items.subrange(items.len() - kept.len() - 1, items.len() as int) =~= items);
        }
    }
}

/// The generation after `g`, wrapping to 0 after the largest.
pub open spec fn next_generation(g: u64) -> u64 {
    if g == u64::MAX {
        0
    } else {
        (g + 1) as u64
    }
}

/// What the inspection view shows of the worker's results.
pub struct InspectionState<V> {
    /// The view last requested.
    pub desired: Option<InspectionKey>,
    /// The generation of the last request sent; older answers are ignored.
    pub generation: u64,
    pub ready: Option<(InspectionKey, V)>,
    pub error: Option<(InspectionKey, String)>,
    /// The view shown at the last draw.
    pub visible: Option<InspectionKey>,
    /// The worker is gone.
    pub closed: bool,
}

/// What to do with an inspection request.
#[derive(Clone, Copy, Debug, PartialEq, Eq, Structural)]
pub enum InspectionRequestStep {
    /// Nothing: the view is empty or already requested.
    Skip,
    /// The worker is gone; the request was recorded as failed.
    Failed,
    /// Send it to the worker with this generation.
    Send(u64),
}

/// What the inspection view shows for a key.
pub enum InspectionDisplay<'a, V> {
    Ready(&'a V),
    Error(&'a str),
    Loading,
}

fn same_key(a: Option<InspectionKey>, b: InspectionKey) -> (out: bool)
    ensures
        out == (a == Some(b)),
{
    match a {
        Some(k) => k == b,
        None => false,
    }
}

impl<V> InspectionState<V> {
    /// Nothing requested yet.
    pub fn new() -> (state: Self)
        ensures
            state.desired is None,
            state.generation == 0,
            state.ready is None,
            state.error is None,
            state.visible is None,
            !state.closed,
    {
        InspectionState { desired: None, generation: 0, ready: None, error: None, visible: None, closed: false }
    }

    /// What to do with a request for `key`: nothing for an empty view or the view already
    /// requested; once the worker is gone the request is recorded as failed; otherwise it is to be
    /// sent with the next generation.
    pub fn begin_request(&mut self, key: InspectionKey) -> (step: InspectionRequestStep)
        ensures
            if key.width == 0 || key.height == 0 || old(self).desired == Some(key) {
                step == InspectionRequestStep::Skip && *final(self) == *old(self)
            } else if old(self).closed {
                &&& step == InspectionRequestStep::Failed
                &&& final(self).desired == Some(key)
                &&& final(self).ready is None
                &&& final(self).error matches Some((k, e)) && k == key && e@ == "image inspection worker is unavailable"@
                &&& final(self).generation == old(self).generation
                &&& final(self).visible == old(self).visible
                &&& final(self).closed
            } else {
                step == InspectionRequestStep::Send(next_generation(old(self).generation)) && *final(self) == *old(self)
            },
    {
        if key.width == 0 || key.height == 0 || same_key(self.desired, key) {
            return InspectionRequestStep::Skip;
        }
        if self.closed {
            self.desired = Some(key);
            self.ready = None;
            self.error = Some((key, crate::text::owned("image inspection worker is unavailable")));
            return InspectionRequestStep::Failed;
        }
        InspectionRequestStep::Send(self.generation.wrapping_add(1))
    }

    /// Records that the request for `key` was accepted with `generation`.
    pub fn request_sent(&mut self, key: InspectionKey, generation: u64)
        ensures
            *final(self) == (InspectionState { desired: Some(key), generation, ..*old(self) }),
    {
        self.desired = Some(key);
        self.generation = generation;
    }

    /// Records that the worker was gone when the request for `key` was sent.
    pub fn request_disconnected(&mut self, key: InspectionKey)
        ensures
            final(self).closed,
            final(self).desired == Some(key),
            final(self).ready is None,
            final(self).error matches Some((k, e)) && k == key && e@ == "image inspection worker is unavailable"@,
            final(self).generation == old(self).generation,
            final(self).visible == old(self).visible,
    {
        self.closed = true;
        self.desired = Some(key);
        self.ready = None;
        self.error = Some((key, crate::text::owned("image inspection worker is unavailable")));
    }

    /// Takes an answer of the worker for `key` at `generation`: the prepared view, its error, or
    /// nothing when the worker dropped an outdated request. Answers to anything but the current
    /// request are ignored. A received answer always asks for a redraw.
    pub fn receive(&mut self, key: InspectionKey, generation: u64, answer: Option<Result<V, String>>) -> (changed: bool)
        ensures
            changed,
            final(self).desired == old(self).desired,
            final(self).generation == old(self).generation,
            final(self).visible == old(self).visible,
            final(self).closed == old(self).closed,
            if generation != old(self).generation || old(self).desired != Some(key) {
                *final(self) == *old(self)
            } else {
                match answer {
                    Some(Ok(v)) => final(self).ready == Some((key, v)) && final(self).error is None,
                    Some(Err(e)) => final(self).error == Some((key, e)) && final(self).ready is None,
                    None => *final(self) == *old(self),
                }
            },
    {
        if generation != self.generation || !same_key(self.desired, key) {
            return true;
        }
        match answer {
            Some(Ok(v)) => {
                self.ready = Some((key, v));
                self.error = None;
            },
            Some(Err(e)) => {
                self.error = Some((key, e));
                self.ready = None;
            },
            None => {},
        }
        true
    }

    /// Records that the worker stopped: the current request becomes an error. Tells whether the
    /// view changed.
    pub fn worker_stopped(&mut self) -> (changed: bool)
        ensures
            final(self).closed,
            final(self).desired == old(self).desired,
            final(self).generation == old(self).generation,
            final(self).visible == old(self).visible,
            changed == (!old(self).closed && old(self).desired is Some),
            changed ==> final(self).ready is None,
            changed ==> (final(self).error matches Some((k, e)) && old(self).desired == Some(k)
                && e@ == "image inspection worker stopped unexpectedly"@),
            !changed ==> final(self).ready == old(self).ready && final(self).error == old(self).error,
    {
        if self.closed {
            return false;
        }
        self.closed = true;
        match self.desired {
            Some(key) => {
                self.ready = None;
                self.error = Some((key, crate::text::owned("image inspection worker stopped unexpectedly")));
                true
            },
            None => false,
        }
    }

    /// What the view shows for `key`: the prepared view, else its error, else that it is loading.
    pub fn display(&self, key: InspectionKey) -> (out: InspectionDisplay<'_, V>)
        ensures
            match self.ready {
                Some((k, v)) if k == key => out == InspectionDisplay::Ready(&v),
                _ => match self.error {
                    Some((k, e)) if k == key => out matches InspectionDisplay::Error(m) && m@ == e@,
                    _ => out matches InspectionDisplay::Loading,
                },
            },
    {
        if let Some((k, v)) = &self.ready {
            if *k == key {
                return InspectionDisplay::Ready(v);
            }
        }
        if let Some((k, e)) = &self.error {
            if *k == key {
                return InspectionDisplay::Error(e.as_str());
            }
        }
        InspectionDisplay::Loading
    }

    /// Records the view shown at this draw and tells whether the ready view must be sent to the
    /// terminal again: it has just become visible.
    pub fn update_visible(&mut self, key: Option<InspectionKey>) -> (rearm: bool)
        ensures
            final(self).visible == key,
            final(self).desired == old(self).desired,
            final(self).generation == old(self).generation,
            final(self).ready == old(self).ready,
            final(self).error == old(self).error,
            final(self).closed == old(self).closed,
            rearm == (old(self).visible != key && (key matches Some(k) && old(self).ready matches Some((r, _))
                && r == k)),
    {
        let changed = match (self.visible, key) {
            (Some(a), Some(b)) => a != b,
            (None, None) => false,
            _ => true,
        };
        let rearm = changed && match key {
            Some(k) => match &self.ready {
                Some((r, _)) => *r == k,
                None => false,
            },
            None => false,
        };
        self.visible = key;
        rearm
    }
}

} // verus!
