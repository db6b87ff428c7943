//! Screen geometry and the texts the screens show: the thumbnail grid, its labels, the status
//! lines and the help overlay.

use vstd::prelude::*;

use crate::actions::{key_list, Action, ActionContext, Bindings};
use crate::app::{App, ImageEntry, InputMode};
use crate::browser::{CompareState, ComparePane};
use crate::inspection::{zoom_label, ViewState};
use crate::settings::{background_name, BackgroundMode, ThumbnailQuality, ThumbnailSize};
use crate::text::{chars_of, decimal, decimal_chars, lossy_text, string_of, utf8_lossy};

verus! {

/// A rectangle of terminal cells.
#[derive(Clone, Copy, Debug, PartialEq, Eq, Hash, Structural)]
pub struct Rect {
    pub x: u16,
    pub y: u16,
    pub width: u16,
    pub height: u16,
}

/// A size in terminal cells.
#[derive(Clone, Copy, Debug, PartialEq, Eq, Hash, Structural)]
pub struct Size {
    pub width: u16,
    pub height: u16,
}

/// How the grid area is divided into thumbnail cards.
#[derive(Clone, Copy, Debug, PartialEq, Eq, Structural)]
pub struct GridLayout {
    pub area: Rect,
    pub columns: usize,
    pub rows: usize,
    pub cell_width: u16,
    pub cell_height: u16,
    /// The room for an image inside a card: the card less its border and label row.
    pub image_size: Size,
}

/// `a - b`, or zero when `b` is larger.
pub open spec fn cells_less(a: int, b: int) -> int {
    if a > b {
        a - b
    } else {
        0
    }
}

/// `n`, or one when `n` is zero.
pub open spec fn at_least_one_cell(n: int) -> int {
    if n == 0 {
        1
    } else {
        n
    }
}

impl GridLayout {
    /// As many columns and rows of the thumbnail size as fit the area, at least one each, with
    /// the area shared evenly between them.
    pub fn new(area: Rect, thumbnail_size: ThumbnailSize) -> (grid: GridLayout)
        requires
            thumbnail_size.width > 0,
            thumbnail_size.height > 0,
        ensures
            grid.area == area,
            grid.columns == at_least_one_cell((area.width / thumbnail_size.width) as int),
            grid.rows == at_least_one_cell((area.height / thumbnail_size.height) as int),
            grid.cell_width as int == area.width as int / grid.columns as int,
            grid.cell_height as int == area.height as int / grid.rows as int,
            grid.image_size == (Size {
                width: cells_less(grid.cell_width as int, 2) as u16,
                height: cells_less(grid.cell_height as int, 3) as u16,
            }),
    {
        let c = area.width / thumbnail_size.width;
        let columns: u16 = if c == 0 { 1 } else { c };
        let r = area.height / thumbnail_size.height;
        let rows: u16 = if r == 0 { 1 } else { r };
        let cell_width = area.width / columns;
        let cell_height = area.height / rows;
        GridLayout {
            area,
            columns: columns as usize,
            rows: rows as usize,
            cell_width,
            cell_height,
            image_size: Size { width: cell_width.saturating_sub(2), height: cell_height.saturating_sub(3) },
        }
    }

    /// The card at a column and row of the grid.
    pub fn cell(self, column: usize, row: usize) -> (out: Rect)
        requires
            self.area.x + column * self.cell_width <= u16::MAX,
            self.area.y + row * self.cell_height <= u16::MAX,
        ensures
            out == (Rect {
                x: (self.area.x + column * self.cell_width) as u16,
                y: (self.area.y + row * self.cell_height) as u16,
                width: self.cell_width,
                height: self.cell_height,
            }),
    {
        assert(column * self.cell_width <= u16::MAX);
        assert(row * self.cell_height <= u16::MAX);
        let dx = (column as u64 * self.cell_width as u64) as u16;
        let dy = (row as u64 * self.cell_height as u64) as u16;
        Rect { x: self.area.x + dx, y: self.area.y + dy, width: self.cell_width, height: self.cell_height }
    }
}

/// The first and one-past-last positions in the filtered list of the cards on screen: from the
/// first visible row on, as many as the grid holds and the list has.
pub open spec fn visible_cards(row_offset: int, columns: int, rows: int, len: int) -> (int, int) {
    let start = row_offset * columns;
    let end = if start + columns * rows < len { start + columns * rows } else { len };
    (start, end)
}

/// The area of the card at `position` of the list when the grid shows rows from `row_offset`.
pub open spec fn card_cell(grid: GridLayout, row_offset: int, position: int) -> Rect {
    let visible = position - row_offset * grid.columns;
    Rect {
        x: (grid.area.x + (visible % grid.columns as int) * grid.cell_width) as u16,
        y: (grid.area.y + (visible / grid.columns as int) * grid.cell_height) as u16,
        width: grid.cell_width,
        height: grid.cell_height,
    }
}

impl GridLayout {
    /// Whether the cards fit the area: at least one column and row, cards no wider or higher
    /// than their share, and the area within the screen coordinates.
    pub open spec fn fits(self) -> bool {
        &&& self.columns >= 1
        &&& self.rows >= 1
        &&& self.columns * self.cell_width <= self.area.width
        &&& self.rows * self.cell_height <= self.area.height
        &&& self.area.x + self.area.width <= u16::MAX
        &&& self.area.y + self.area.height <= u16::MAX
    }

    /// The cards on screen: each position of the filtered list from the first visible row on,
    /// with its area, as many as the grid holds and the list has.
    pub fn visible_cards(self, row_offset: usize, len: usize) -> (cards: Vec<(usize, Rect)>)
        requires
            self.fits(),
            row_offset * self.columns + self.columns * self.rows <= usize::MAX,
        ensures
            ({
                let (start, end) = visible_cards(row_offset as int, self.columns as int, self.rows as int, len as int);
                &&& cards@.len() == (if end > start { end - start } else { 0int })
                &&& forall|i: int| 0 <= i < cards@.len() ==> (#[trigger] cards@[i]).0 == start + i
                    && cards@[i].1 == card_cell(self, row_offset as int, start + i)
            }),
    {
        let start = row_offset * self.columns;
        let all = start + self.columns * self.rows;
        let end = if all < len { all } else { len };
        let mut cards: Vec<(usize, Rect)> = Vec::new();
        let mut position = start;
        while position < end
            invariant
                self.fits(),
                start == row_offset * self.columns,
                end <= start + self.columns * self.rows,
                start <= position <= end || (position == start && end < start),
                position >= end ==> position == end || end < start,
                cards@.len() == position - start,
                forall|i: int| 0 <= i < cards@.len() ==> (#[trigger] cards@[i]).0 == start + i
                    && cards@[i].1 == card_cell(self, row_offset as int, start + i),
            decreases end - position,
        {
            let visible = position - start;
            let column = visible % self.columns;
            let row = visible / self.columns;
            proof {
                let c = self.columns as int;
                let r = self.rows as int;
                assert(visible < c * r);
                assert(column < c);
                assert(row * c <= visible) by (nonlinear_arith)
                    requires row == visible as int / c, c >= 1, visible >= 0;
                assert(row < r) by (nonlinear_arith)
                    requires row * c <= visible, visible < c * r, c >= 1, row >= 0;
                assert(column * self.cell_width <= (c - 1) * self.cell_width) by (nonlinear_arith)
                    requires column <= c - 1, self.cell_width >= 0;
                assert((c - 1) * self.cell_width + self.cell_width == c * self.cell_width) by (nonlinear_arith);
                assert(row * self.cell_height <= (r - 1) * self.cell_height) by (nonlinear_arith)
                    requires row <= r - 1, self.cell_height >= 0;
                assert((r - 1) * self.cell_height + self.cell_height == r * self.cell_height) by (nonlinear_arith);
            }
            let cell = self.cell(column, row);
            cards.push((position, cell));
            position = position + 1;
        }
        cards
    }
}

/// The image area of a card's inner area (all but its last row) and its label area (that row).
pub fn card_areas(inner: Rect) -> (out: (Rect, Rect))
    requires
        inner.y + inner.height <= u16::MAX,
    ensures
        out.0 == (Rect { x: inner.x, y: inner.y, width: inner.width, height: cells_less(inner.height as int, 1) as u16 }),
        out.1 == (Rect {
            x: inner.x,
            y: (inner.y + cells_less(inner.height as int, 1)) as u16,
            width: inner.width,
            height: if inner.height < 1 { inner.height } else { 1 },
        }),
{
    let image_height = inner.height.saturating_sub(1);
    let label_height = if inner.height < 1 { inner.height } else { 1 };
    (
        Rect { x: inner.x, y: inner.y, width: inner.width, height: image_height },
        Rect { x: inner.x, y: inner.y + image_height, width: inner.width, height: label_height },
    )
}

/// The label under a card: `[x] ` for a marked image, `[ ] ` otherwise, then the file name.
pub open spec fn card_label(marked: bool, label: Seq<char>) -> Seq<char> {
    (if marked { "[x] "@ } else { "[ ] "@ }) + label
}

fn text_of(parts: &Vec<&str>) -> (out: String)
    ensures
        out@ == concatenation(parts@.map_values(|p: &str| p@)),
{
    let mut out: Vec<char> = Vec::new();
    let mut i: usize = 0;
    while i < parts.len()
        invariant
            i <= parts@.len(),
            out@ == concatenation(parts@.map_values(|p: &str| p@).take(i as int)),
        decreases parts.len() - i,
    {
        let mut chars = chars_of(parts[i]);
        out.append(&mut chars);
        assert(parts@.map_values(|p: &str| p@).take(i as int + 1).drop_last() =~= parts@.map_values(|p: &str| p@).take(i as int));
        i = i + 1;
    }
    assert(parts@.map_values(|p: &str| p@).take(i as int) =~= parts@.map_values(|p: &str| p@));
    string_of(out.as_slice())
}

/// Texts one after another.
pub open spec fn concatenation(parts: Seq<Seq<char>>) -> Seq<char>
    decreases parts.len(),
{
    if parts.len() == 0 {
        Seq::empty()
    } else {
        concatenation(parts.drop_last()) + parts.last()
    }
}

/// The label under a card.
pub fn grid_label(app: &App, entry: &ImageEntry) -> (out: String)
    ensures
        out@ == card_label(app.marks().contains(entry.id), entry.label@),
{
    let marked = app.is_marked(entry.id);
    let mut text = if marked { chars_of("[x] ") } else { chars_of("[ ] ") };
    let mut label = chars_of(entry.label.as_str());
    text.append(&mut label);
    string_of(text.as_slice())
}

/// The colour of a card border.
#[derive(Clone, Copy, Debug, PartialEq, Eq, Structural)]
pub enum CardColor {
    Red,
    Yellow,
    DarkGray,
}

/// How a card border is drawn.
#[derive(Clone, Copy, Debug, PartialEq, Eq, Structural)]
pub struct CardStyle {
    pub color: CardColor,
    pub bold: bool,
    /// A double line marks a marked image; focus changes only the colour and weight.
    pub double_border: bool,
}

/// How a card border is drawn: bold red when focused, else yellow when marked, else dark grey;
/// double lines exactly for marked images.
pub fn card_style(focused: bool, marked: bool) -> (out: CardStyle)
    ensures
        out.color == (if focused { CardColor::Red } else if marked { CardColor::Yellow } else { CardColor::DarkGray }),
        out.bold == focused,
        out.double_border == marked,
{
    let color = if focused {
        CardColor::Red
    } else if marked {
        CardColor::Yellow
    } else {
        CardColor::DarkGray
    };
    CardStyle { color, bold: focused, double_border: marked }
}

/// The key list of an action in a context, as status lines show it.
pub open spec fn keys_text(bindings: Bindings, context: ActionContext, action: Action) -> Seq<char> {
    key_list(bindings.keys_in(context, action), "/"@)
}

/// The key hints of the inspection view.
pub open spec fn inspection_help_text(bindings: Bindings, selection_mode: bool) -> Seq<char> {
    let c = ActionContext::Inspect;
    " "@ + keys_text(bindings, c, Action::PreviousImage) + " previous · "@ + keys_text(bindings, c, Action::NextImage)
        + " next · "@ + keys_text(bindings, c, Action::ToggleMark) + " mark · "@ + keys_text(
        bindings,
        c,
        Action::ToggleFitHundred,
    ) + " fit/100% · "@ + keys_text(bindings, c, Action::CloseInspect) + " return"@ + (if selection_mode {
        " · "@ + keys_text(bindings, c, Action::ConfirmSelection) + " confirm"@
    } else {
        Seq::empty()
    })
}

/// The key hints of the inspection view.
pub fn inspection_help(bindings: &Bindings, selection_mode: bool) -> (out: String)
    requires
        bindings.wf(),
    ensures
        out@ == inspection_help_text(*bindings, selection_mode),
{
    let c = ActionContext::Inspect;
    let previous = bindings.keys_for(c, Action::PreviousImage);
    let next = bindings.keys_for(c, Action::NextImage);
    let mark = bindings.keys_for(c, Action::ToggleMark);
    let fit = bindings.keys_for(c, Action::ToggleFitHundred);
    let close = bindings.keys_for(c, Action::CloseInspect);
    let confirm = bindings.keys_for(c, Action::ConfirmSelection);
    let mut parts: Vec<&str> = Vec::new();
    parts.push(" ");
    parts.push(previous.as_str());
    parts.push(" previous · ");
    parts.push(next.as_str());
    parts.push(" next · ");
    parts.push(mark.as_str());
    parts.push(" mark · ");
    parts.push(fit.as_str());
    parts.push(" fit/100% · ");
    parts.push(close.as_str());
    parts.push(" return");
    if selection_mode {
        parts.push(" · ");
        parts.push(confirm.as_str());
        parts.push(" confirm");
    }
    let out = text_of(&parts);
    proof {
        reveal_with_fuel(concatenation, 15);
        assert(out@ =~= inspection_help_text(*bindings, selection_mode));
    }
    out
}

/// The key hints of the comparison view.
pub open spec fn comparison_help_text(bindings: Bindings, selection_mode: bool) -> Seq<char> {
    let c = ActionContext::Compare;
    " "@ + keys_text(bindings, c, Action::SwitchComparePane) + " pane · "@ + keys_text(bindings, c, Action::PreviousImage)
        + " previous/"@ + keys_text(bindings, c, Action::NextImage) + " next · "@ + keys_text(
        bindings,
        c,
        Action::PromoteCandidate,
    ) + " promote · "@ + keys_text(bindings, c, Action::ToggleCompareSync) + " sync · "@ + keys_text(
        bindings,
        c,
        Action::CloseInspect,
    ) + " return"@ + (if selection_mode {
        " · "@ + keys_text(bindings, c, Action::ConfirmSelection) + " confirm"@
    } else {
        Seq::empty()
    })
}

/// The key hints of the comparison view.
pub fn comparison_help(bindings: &Bindings, selection_mode: bool) -> (out: String)
    requires
        bindings.wf(),
    ensures
        out@ == comparison_help_text(*bindings, selection_mode),
{
    let c = ActionContext::Compare;
    let pane = bindings.keys_for(c, Action::SwitchComparePane);
    let previous = bindings.keys_for(c, Action::PreviousImage);
    let next = bindings.keys_for(c, Action::NextImage);
    let promote = bindings.keys_for(c, Action::PromoteCandidate);
    let sync = bindings.keys_for(c, Action::ToggleCompareSync);
    let close = bindings.keys_for(c, Action::CloseInspect);
    let confirm = bindings.keys_for(c, Action::ConfirmSelection);
    let mut parts: Vec<&str> = Vec::new();
    parts.push(" ");
    parts.push(pane.as_str());
    parts.push(" pane · ");
    parts.push(previous.as_str());
    parts.push(" previous/");
    parts.push(next.as_str());
    parts.push(" next · ");
    parts.push(promote.as_str());
    parts.push(" promote · ");
    parts.push(sync.as_str());
    parts.push(" sync · ");
    parts.push(close.as_str());
    parts.push(" return");
    if selection_mode {
        parts.push(" · ");
        parts.push(confirm.as_str());
        parts.push(" confirm");
    }
    let out = text_of(&parts);
    proof {
        reveal_with_fuel(concatenation, 17);
        assert(out@ =~= comparison_help_text(*bindings, selection_mode));
    }
    out
}

/// The key hints of the grid: marking, range, marked only, confirming in selection mode and
/// help; in search mode applying and cancelling.
pub open spec fn grid_help_text(bindings: Bindings, searching: bool, selection_mode: bool) -> Seq<char> {
    let n = ActionContext::Normal;
    let s = ActionContext::Search;
    if searching {
        " type to filter · "@ + keys_text(bindings, s, Action::CommitSearch) + " apply · "@ + keys_text(
            bindings,
            s,
            Action::CancelSearch,
        ) + " cancel"@
    } else {
        " "@ + keys_text(bindings, n, Action::ToggleMark) + " mark · "@ + keys_text(bindings, n, Action::MarkRange)
            + " range · "@ + keys_text(bindings, n, Action::ToggleMarkedOnly) + " marked only · "@ + (
        if selection_mode {
            keys_text(bindings, n, Action::ConfirmSelection) + " confirm · "@
        } else {
            Seq::empty()
        }) + keys_text(bindings, n, Action::ToggleHelp) + " help"@
    }
}

/// The key hints of the grid.
pub fn grid_help(bindings: &Bindings, searching: bool, selection_mode: bool) -> (out: String)
    requires
        bindings.wf(),
    ensures
        out@ == grid_help_text(*bindings, searching, selection_mode),
{
    let n = ActionContext::Normal;
    let s = ActionContext::Search;
    let mut parts: Vec<&str> = Vec::new();
    if searching {
        let apply = bindings.keys_for(s, Action::CommitSearch);
        let cancel = bindings.keys_for(s, Action::CancelSearch);
        parts.push(" type to filter · ");
        parts.push(apply.as_str());
        parts.push(" apply · ");
        parts.push(cancel.as_str());
        parts.push(" cancel");
        let out = text_of(&parts);
        proof {
            reveal_with_fuel(concatenation, 7);
            assert(out@ =~= grid_help_text(*bindings, searching, selection_mode));
        }
        return out;
    }
    let mark = bindings.keys_for(n, Action::ToggleMark);
    let range = bindings.keys_for(n, Action::MarkRange);
    let only = bindings.keys_for(n, Action::ToggleMarkedOnly);
    let confirm = bindings.keys_for(n, Action::ConfirmSelection);
    let help = bindings.keys_for(n, Action::ToggleHelp);
    parts.push(" ");
    parts.push(mark.as_str());
    parts.push(" mark · ");
    parts.push(range.as_str());
    parts.push(" range · ");
    parts.push(only.as_str());
    parts.push(" marked only · ");
    if selection_mode {
        parts.push(confirm.as_str());
        parts.push(" confirm · ");
    }
    parts.push(help.as_str());
    parts.push(" help");
    let out = text_of(&parts);
    proof {
        reveal_with_fuel(concatenation, 13);
        assert(out@ =~= grid_help_text(*bindings, searching, selection_mode));
    }
    out
}

/// The title of a comparison pane: its role, the mark box, the file name and the zoom.
pub open spec fn pane_title_text(role: Seq<char>, marked: bool, label: Seq<char>, view: ViewState) -> Seq<char> {
    " "@ + role + " · "@ + (if marked { "[x]"@ } else { "[ ]"@ }) + " · "@ + label + " · "@ + zoom_label(view.zoom)
        + " "@
}

/// The title of a comparison pane.
pub fn pane_title(role: &str, marked: bool, label: &str, view: ViewState) -> (out: String)
    ensures
        out@ == pane_title_text(role@, marked, label@, view),
{
    let mut parts: Vec<&str> = Vec::new();
    parts.push(" ");
    parts.push(role);
    parts.push(" · ");
    parts.push(if marked { "[x]" } else { "[ ]" });
    parts.push(" · ");
    parts.push(label);
    parts.push(" · ");
    parts.push(view.zoom.label());
    parts.push(" ");
    let out = text_of(&parts);
    proof {
        reveal_with_fuel(concatenation, 10);
        assert(out@ =~= pane_title_text(role@, marked, label@, view));
    }
    out
}

/// The status line of the comparison view.
pub open spec fn comparison_status_text(
    marked: nat,
    state: CompareState,
    background: BackgroundMode,
    debug: bool,
    protocol: Seq<char>,
) -> Seq<char> {
    " "@ + decimal(marked) + " marked · sync "@ + (if state.synchronized { "on"@ } else { "off"@ })
        + " · active "@ + (match state.active {
        ComparePane::Reference => "reference"@,
        ComparePane::Candidate => "candidate"@,
    }) + " · "@ + background_name(background) + " background"@ + (if debug {
        " · "@ + protocol
    } else {
        Seq::empty()
    })
}

/// The status line of the comparison view.
pub fn comparison_status(
    marked: usize,
    state: CompareState,
    background: BackgroundMode,
    debug: bool,
    protocol: &str,
) -> (out: String)
    ensures
        out@ == comparison_status_text(marked as nat, state, background, debug, protocol@),
{
    let count = decimal_chars(marked as u128);
    let count = string_of(count.as_slice());
    let mut parts: Vec<&str> = Vec::new();
    parts.push(" ");
    parts.push(count.as_str());
    parts.push(" marked · sync ");
    parts.push(if state.synchronized { "on" } else { "off" });
    parts.push(" · active ");
    parts.push(match state.active {
        ComparePane::Reference => "reference",
        ComparePane::Candidate => "candidate",
    });
    parts.push(" · ");
    parts.push(background.name());
    parts.push(" background");
    if debug {
        parts.push(" · ");
        parts.push(protocol);
    }
    let out = text_of(&parts);
    proof {
        reveal_with_fuel(concatenation, 12);
        assert(out@ =~= comparison_status_text(marked as nat, state, background, debug, protocol@));
    }
    out
}

/// The rectangle of the help overlay: centred, at most 72 columns wide and 4 narrower than
/// the screen, as tall as its lines plus the border but 2 shorter than the screen, and at least
/// one cell each way.
pub open spec fn help_area(screen: Rect, lines: int) -> Rect {
    let width = if screen.width >= 5 {
        if screen.width - 4 > 72 { 72 } else { screen.width - 4 }
    } else {
        1
    };
    let wanted = lines + 2;
    let room = if screen.height >= 2 { screen.height - 2 } else { 0 };
    let height = if wanted <= room { wanted } else { room };
    let height = if height >= 1 { height } else { 1 };
    Rect {
        x: (screen.x + (if screen.width >= width { screen.width - width } else { 0 }) / 2) as u16,
        y: (screen.y + (if screen.height >= height { screen.height - height } else { 0 }) / 2) as u16,
        width: width as u16,
        height: height as u16,
    }
}

/// The rectangle of the help overlay for a screen and a number of text lines.
pub fn help_overlay_area(screen: Rect, lines: usize) -> (out: Rect)
    requires
        lines + 2 <= u16::MAX,
        screen.x + screen.width <= u16::MAX,
        screen.y + screen.height <= u16::MAX,
    ensures
        out == help_area(screen, lines as int),
{
    let width: u16 = if screen.width >= 5 {
        if screen.width - 4 > 72 { 72 } else { screen.width - 4 }
    } else {
        1
    };
    let wanted: u16 = lines as u16 + 2;
    let room: u16 = if screen.height >= 2 { screen.height - 2 } else { 0 };
    let height: u16 = if wanted <= room { wanted } else { room };
    let height: u16 = if height >= 1 { height } else { 1 };
    let spare_x: u16 = if screen.width >= width { screen.width - width } else { 0 };
    let spare_y: u16 = if screen.height >= height { screen.height - height } else { 0 };
    Rect { x: screen.x + spare_x / 2, y: screen.y + spare_y / 2, width, height }
}

/// The extra figures of the grid's status line in debug mode.
#[derive(Clone, Copy, Debug, PartialEq, Eq, Structural)]
pub struct GridDebugInfo {
    pub thumbnail_size: ThumbnailSize,
    pub quality: ThumbnailQuality,
    pub memory_entries: usize,
    pub memory_bytes: u64,
    pub disk_hits: usize,
    pub disk_misses: usize,
}

/// Bytes in whole mebibytes, rounded up.
pub open spec fn mebibytes_up(bytes: int) -> int {
    (bytes + 1048575) / 1048576
}

/// The 1-based position of the focus, or 0 when nothing is shown.
pub open spec fn focus_position(shown: nat, selected: nat) -> nat {
    if shown == 0 {
        0
    } else {
        selected + 1
    }
}

/// The grid's status line: the focus position among the shown images, the marks, the images
/// found and whether the scan is done; then, in debug mode, the pending loads, the thumbnail
/// size and quality, the protocol, the memory and disk cache figures and the error count, or
/// otherwise the loads and errors when there are any.
pub open spec fn grid_status_text(
    shown: nat,
    selected: nat,
    marked: nat,
    only: bool,
    found: nat,
    scan_done: bool,
    pending: nat,
    errors: nat,
    debug: Option<GridDebugInfo>,
    protocol: Seq<char>,
) -> Seq<char> {
    let state = if scan_done { "ready"@ } else { "scanning"@ };
    let head = " "@ + decimal(focus_position(shown, selected)) + "/"@ + decimal(shown) + " · "@ + decimal(marked)
        + " marked"@;
    match debug {
        Some(d) => head + " · "@ + decimal(found) + " found · "@ + state + " · "@ + decimal(pending) + " load · "@
            + decimal(d.thumbnail_size.width as nat) + "x"@ + decimal(d.thumbnail_size.height as nat) + " · Q"@
            + decimal(d.quality.spec_level() as nat) + " · "@ + protocol + " · M"@ + decimal(d.memory_entries as nat)
            + "/"@ + decimal(mebibytes_up(d.memory_bytes as int) as nat) + "MiB · D"@ + decimal(d.disk_hits as nat)
            + "/"@ + decimal(d.disk_misses as nat) + " · "@ + decimal(errors) + " err"@,
        None => head + (if only { " (only)"@ } else { ""@ }) + " · "@ + decimal(found) + " found · "@ + state + (if pending
            > 0 {
            " · "@ + decimal(pending) + " loading"@
        } else {
            ""@
        }) + (if errors > 0 {
            " · "@ + decimal(errors) + " errors"@
        } else {
            ""@
        }),
    }
}

fn push_str_chars(out: &mut Vec<char>, text: &str)
    ensures
        final(out)@ == old(out)@ + text@,
{
    let mut chars = chars_of(text);
    out.append(&mut chars);
}

fn push_number(out: &mut Vec<char>, n: u128)
    ensures
        final(out)@ == old(out)@ + decimal(n as nat),
{
    let mut digits = decimal_chars(n);
    out.append(&mut digits);
}

/// The grid's status line.
pub fn grid_status(app: &App, pending: usize, debug: Option<GridDebugInfo>, protocol: &str) -> (out: String)
    ensures
        out@ == grid_status_text(
            app.filtered@.len(),
            app.selected as nat,
            app.marks().len(),
            app.only_marked(),
            app.entries@.len(),
            app.scan_done,
            pending as nat,
            (app.scan_errors + app.thumbnail_errors) as nat,
            debug,
            protocol@,
        ),
{
    let shown = app.filtered.len();
    let position: u128 = if shown == 0 { 0 } else { app.selected as u128 + 1 };
    let errors: u128 = app.scan_errors as u128 + app.thumbnail_errors as u128;
    let state = if app.scan_done { "ready" } else { "scanning" };
    let mut out: Vec<char> = Vec::new();
    push_str_chars(&mut out, " ");
    push_number(&mut out, position);
    push_str_chars(&mut out, "/");
    push_number(&mut out, shown as u128);
    push_str_chars(&mut out, " · ");
    push_number(&mut out, app.marked_count() as u128);
    push_str_chars(&mut out, " marked");
    let ghost head = out@;
    match debug {
        Some(d) => {
            push_str_chars(&mut out, " · ");
            push_number(&mut out, app.entries.len() as u128);
            push_str_chars(&mut out, " found · ");
            push_str_chars(&mut out, state);
            push_str_chars(&mut out, " · ");
            push_number(&mut out, pending as u128);
            push_str_chars(&mut out, " load · ");
            push_number(&mut out, d.thumbnail_size.width as u128);
            push_str_chars(&mut out, "x");
            push_number(&mut out, d.thumbnail_size.height as u128);
            push_str_chars(&mut out, " · Q");
            push_number(&mut out, d.quality.level() as u128);
            push_str_chars(&mut out, " · ");
            push_str_chars(&mut out, protocol);
            push_str_chars(&mut out, " · M");
            push_number(&mut out, d.memory_entries as u128);
            push_str_chars(&mut out, "/");
            push_number(&mut out, (d.memory_bytes as u128 + 1048575) / 1048576);
            push_str_chars(&mut out, "MiB · D");
            push_number(&mut out, d.disk_hits as u128);
            push_str_chars(&mut out, "/");
            push_number(&mut out, d.disk_misses as u128);
            push_str_chars(&mut out, " · ");
            push_number(&mut out, errors);
            push_str_chars(&mut out, " err");
        },
        None => {
            push_str_chars(&mut out, if app.marked_only() { " (only)" } else { "" });
            push_str_chars(&mut out, " · ");
            push_number(&mut out, app.entries.len() as u128);
            push_str_chars(&mut out, " found · ");
            push_str_chars(&mut out, state);
            let ghost before_loads = out@;
            if pending > 0 {
                push_str_chars(&mut out, " · ");
                push_number(&mut out, pending as u128);
                push_str_chars(&mut out, " loading");
            }
            assert(out@ =~= before_loads + (if pending > 0 {
                " · "@ + decimal(pending as nat) + " loading"@
            } else {
                ""@
            })) by {
                reveal_strlit("");
            }
            let ghost before_errors = out@;
            if errors > 0 {
                push_str_chars(&mut out, " · ");
                push_number(&mut out, errors);
                push_str_chars(&mut out, " errors");
            }
            assert(out@ =~= before_errors + (if errors > 0 {
                " · "@ + decimal(errors as nat) + " errors"@
            } else {
                ""@
            })) by {
                reveal_strlit("");
            }
        },
    }
    string_of(out.as_slice())
}

/// The inspection view's status line: the focus position, the marks, the zoom and the
/// background, whether the current image is marked, and in debug mode the protocol and the
/// crop center.
pub open spec fn inspection_status_text(
    shown: nat,
    selected: nat,
    marked: nat,
    view: ViewState,
    background: BackgroundMode,
    current_marked: bool,
    debug: bool,
    protocol: Seq<char>,
) -> Seq<char> {
    " "@ + decimal(focus_position(shown, selected)) + "/"@ + decimal(shown) + " · "@ + decimal(marked) + " marked · "@
        + zoom_label(view.zoom) + " · "@ + background_name(background) + " background"@ + (if current_marked {
        " · [x] current"@
    } else {
        ""@
    }) + (if debug {
        " · "@ + protocol + " · center "@ + decimal(view.center_x as nat) + ","@ + decimal(view.center_y as nat)
    } else {
        ""@
    })
}

/// The inspection view's status line.
pub fn inspection_status(
    app: &App,
    view: ViewState,
    background: BackgroundMode,
    debug: bool,
    protocol: &str,
) -> (out: String)
    requires
        app.wf(),
    ensures
        out@ == inspection_status_text(
            app.filtered@.len(),
            app.selected as nat,
            app.marks().len(),
            view,
            background,
            app.selected < app.filtered@.len() && app.marks().contains(
                app.entries@[app.filtered@[app.selected as int].0 as int].id,
            ),
            debug,
            protocol@,
        ),
{
    let shown = app.filtered.len();
    let position: u128 = if shown == 0 { 0 } else { app.selected as u128 + 1 };
    let current_marked = match app.selected_entry() {
        Some(entry) => app.is_marked(entry.id),
        None => false,
    };
    let mut out: Vec<char> = Vec::new();
    push_str_chars(&mut out, " ");
    push_number(&mut out, position);
    push_str_chars(&mut out, "/");
    push_number(&mut out, shown as u128);
    push_str_chars(&mut out, " · ");
    push_number(&mut out, app.marked_count() as u128);
    push_str_chars(&mut out, " marked · ");
    push_str_chars(&mut out, view.zoom.label());
    push_str_chars(&mut out, " · ");
    push_str_chars(&mut out, background.name());
    push_str_chars(&mut out, " background");
    push_str_chars(&mut out, if current_marked { " · [x] current" } else { "" });
    let ghost before_debug = out@;
    if debug {
        push_str_chars(&mut out, " · ");
        push_str_chars(&mut out, protocol);
        push_str_chars(&mut out, " · center ");
        push_number(&mut out, view.center_x as u128);
        push_str_chars(&mut out, ",");
        push_number(&mut out, view.center_y as u128);
    }
    assert(out@ =~= before_debug + (if debug {
        " · "@ + protocol@ + " · center "@ + decimal(view.center_x as nat) + ","@ + decimal(view.center_y as nat)
    } else {
        ""@
    })) by {
        reveal_strlit("");
    }
    string_of(out.as_slice())
}

/// The input line under the grid: the focused path; while a filter applies, the query before
/// it; while searching, the query and a cursor block.
pub open spec fn footer_input_text(searching: bool, query: Seq<char>, path: Seq<char>) -> Seq<char> {
    if searching {
        "/"@ + query + "█"@
    } else if query.len() == 0 {
        path
    } else {
        "/"@ + query + "  ·  "@ + path
    }
}

/// The input line under the grid.
pub fn footer_input(app: &App) -> (out: String)
    requires
        app.wf(),
    ensures
        out@ == footer_input_text(
            app.mode == InputMode::Search,
            app.query@,
            if app.selected < app.filtered@.len() {
                utf8_lossy(app.entries@[app.filtered@[app.selected as int].0 as int].path@)
            } else {
                Seq::empty()
            },
        ),
{
    let path = match app.selected_entry() {
        Some(entry) => lossy_text(entry.path.as_slice()),
        None => crate::text::owned(""),
    };
    proof {
        reveal_strlit("");
    }
    let mut out: Vec<char> = Vec::new();
    match app.mode {
        InputMode::Search => {
            push_str_chars(&mut out, "/");
            push_str_chars(&mut out, app.query.as_str());
            push_str_chars(&mut out, "█");
        },
        InputMode::Normal => {
            let query = chars_of(app.query.as_str());
            if query.len() == 0 {
                push_str_chars(&mut out, path.as_str());
            } else {
                push_str_chars(&mut out, "/");
                push_str_chars(&mut out, app.query.as_str());
                push_str_chars(&mut out, "  ·  ");
                push_str_chars(&mut out, path.as_str());
            }
        },
    }
    assert(out@ =~= footer_input_text(
        app.mode == InputMode::Search,
        app.query@,
        path@,
    ));
    string_of(out.as_slice())
}

/// The message of an empty grid.
pub fn empty_grid_message(scan_done: bool, query_empty: bool) -> (out: &'static str)
    ensures
        out@ == (if !scan_done {
            "Scanning for images…"@
        } else if query_empty {
            "No supported images found"@
        } else {
            "No images match the current search"@
        }),
{
    if scan_done {
        if query_empty {
            "No supported images found"
        } else {
            "No images match the current search"
        }
    } else {
        "Scanning for images…"
    }
}

} // verus!
