//! The browser's decisions: which view is shown, what each key does in it, and what the
//! comparison view pins and skips. Drawing, timers and workers stay with the caller, which feeds
//! key events in and reads the resulting state.

use vstd::prelude::*;

use crate::actions::{Action, ActionContext, Bindings, KeyCode, KeyEvent};
use crate::app::{
    at_least_one, min, refocused, saturating_mul, saturating_sub, scrolled_offset, App, EntryId,
    InputMode, range_bounds, marks_with,
};
use crate::inspection::{
    next_level_down, next_level_up, panned_back, panned_forward, InspectionKey, ViewState, Zoom,
    CENTER,
};
use crate::settings::{clamp, BackgroundMode, ThumbnailQuality, ThumbnailSize, MAX_HEIGHT, MAX_WIDTH, MIN_HEIGHT, MIN_WIDTH};
use crate::text::{lemma_position_of_found, position_of};
use crate::ui::{GridLayout, Size};

verus! {

/// The two panes of the comparison view.
#[derive(Clone, Copy, Debug, PartialEq, Eq, Structural)]
pub enum ComparePane {
    Reference,
    Candidate,
}

/// The comparison view: a pinned reference image beside the focused candidate.
#[derive(Clone, Copy, Debug, PartialEq, Eq, Structural)]
pub struct CompareState {
    pub reference_id: EntryId,
    pub reference_view: ViewState,
    pub candidate_view: ViewState,
    pub active: ComparePane,
    pub synchronized: bool,
}

/// What the browser shows.
#[derive(Clone, Copy, Debug, PartialEq, Eq, Structural)]
pub enum BrowserView {
    Grid,
    Inspect(ViewState),
    Compare(CompareState),
}

/// A change of zoom or position applied to an inspection view.
#[derive(Clone, Copy, Debug, PartialEq, Eq, Structural)]
pub enum ViewChange {
    ToggleFitHundred,
    ZoomIn,
    ZoomOut,
    PanLeft,
    PanRight,
    PanUp,
    PanDown,
}

/// The zoom after toggling between fitting and 100%.
pub open spec fn toggled_zoom(zoom: Zoom) -> Zoom {
    match zoom {
        Zoom::Fit => Zoom::Percent(100),
        Zoom::Percent(_) => Zoom::Fit,
    }
}

/// The zoom one level closer.
pub open spec fn zoomed_in(zoom: Zoom) -> Zoom {
    match zoom {
        Zoom::Fit => Zoom::Percent(100),
        Zoom::Percent(p) => Zoom::Percent(next_level_up(p)),
    }
}

/// The zoom one level farther, ending at fitting.
pub open spec fn zoomed_out(zoom: Zoom) -> Zoom {
    match zoom {
        Zoom::Fit => Zoom::Fit,
        Zoom::Percent(p) => match next_level_down(p) {
            Some(level) => Zoom::Percent(level),
            None => Zoom::Fit,
        },
    }
}

/// A view after a change.
pub open spec fn changed_view(view: ViewState, change: ViewChange) -> ViewState {
    match change {
        ViewChange::ToggleFitHundred => ViewState { zoom: toggled_zoom(view.zoom), ..view },
        ViewChange::ZoomIn => ViewState { zoom: zoomed_in(view.zoom), ..view },
        ViewChange::ZoomOut => ViewState { zoom: zoomed_out(view.zoom), ..view },
        ViewChange::PanLeft => ViewState { center_x: panned_back(view.center_x), ..view },
        ViewChange::PanRight => ViewState { center_x: panned_forward(view.center_x), ..view },
        ViewChange::PanUp => ViewState { center_y: panned_back(view.center_y), ..view },
        ViewChange::PanDown => ViewState { center_y: panned_forward(view.center_y), ..view },
    }
}

/// A view recentered, keeping its zoom.
pub open spec fn recentered(view: ViewState) -> ViewState {
    ViewState { center_x: CENTER, center_y: CENTER, ..view }
}

/// Applies a change to a view.
pub fn change_view(view: &mut ViewState, change: ViewChange)
    ensures
        *final(view) == changed_view(*old(view), change),
{
    match change {
        ViewChange::ToggleFitHundred => view.zoom = view.zoom.toggle_fit_hundred(),
        ViewChange::ZoomIn => view.zoom = view.zoom.zoom_in(),
        ViewChange::ZoomOut => view.zoom = view.zoom.zoom_out(),
        ViewChange::PanLeft => view.pan_left(),
        ViewChange::PanRight => view.pan_right(),
        ViewChange::PanUp => view.pan_up(),
        ViewChange::PanDown => view.pan_down(),
    }
}

/// The comparison after changing the active pane's view; when synchronized both panes take
/// the changed view.
pub open spec fn compare_changed(state: CompareState, change: ViewChange) -> CompareState {
    let active = match state.active {
        ComparePane::Reference => changed_view(state.reference_view, change),
        ComparePane::Candidate => changed_view(state.candidate_view, change),
    };
    if state.synchronized {
        CompareState { reference_view: active, candidate_view: active, ..state }
    } else {
        match state.active {
            ComparePane::Reference => CompareState { reference_view: active, ..state },
            ComparePane::Candidate => CompareState { candidate_view: active, ..state },
        }
    }
}

/// The comparison after toggling synchronization; turning it on copies the active view to both
/// panes.
pub open spec fn compare_sync_toggled(state: CompareState) -> CompareState {
    if !state.synchronized {
        let shared = match state.active {
            ComparePane::Reference => state.reference_view,
            ComparePane::Candidate => state.candidate_view,
        };
        CompareState { synchronized: true, reference_view: shared, candidate_view: shared, ..state }
    } else {
        CompareState { synchronized: false, ..state }
    }
}

/// The comparison with the candidate recentered, and the reference too when synchronized.
pub open spec fn candidate_recentered(state: CompareState) -> CompareState {
    CompareState {
        candidate_view: recentered(state.candidate_view),
        reference_view: if state.synchronized {
            recentered(state.reference_view)
        } else {
            state.reference_view
        },
        ..state
    }
}

/// The other pane.
pub open spec fn other_pane(pane: ComparePane) -> ComparePane {
    match pane {
        ComparePane::Reference => ComparePane::Candidate,
        ComparePane::Candidate => ComparePane::Reference,
    }
}

impl CompareState {
    /// A comparison pinning `reference_id`, both views fitted and centered, the reference pane
    /// active and the views synchronized.
    pub fn pinning(reference_id: EntryId) -> (state: CompareState)
        ensures
            state == (CompareState {
                reference_id,
                reference_view: ViewState { zoom: Zoom::Fit, center_x: CENTER, center_y: CENTER },
                candidate_view: ViewState { zoom: Zoom::Fit, center_x: CENTER, center_y: CENTER },
                active: ComparePane::Reference,
                synchronized: true,
            }),
    {
        CompareState {
            reference_id,
            reference_view: ViewState::default(),
            candidate_view: ViewState::default(),
            active: ComparePane::Reference,
            synchronized: true,
        }
    }

    /// Changes the active pane's view; when synchronized both panes follow.
    pub fn mutate_view(&mut self, change: ViewChange)
        ensures
            *final(self) == compare_changed(*old(self), change),
    {
        match self.active {
            ComparePane::Reference => change_view(&mut self.reference_view, change),
            ComparePane::Candidate => change_view(&mut self.candidate_view, change),
        }
        if self.synchronized {
            let shared = match self.active {
                ComparePane::Reference => self.reference_view,
                ComparePane::Candidate => self.candidate_view,
            };
            self.reference_view = shared;
            self.candidate_view = shared;
        }
    }

    /// Turns synchronization on or off; turning it on copies the active view to both panes.
    pub fn toggle_sync(&mut self)
        ensures
            *final(self) == compare_sync_toggled(*old(self)),
    {
        self.synchronized = !self.synchronized;
        if self.synchronized {
            let shared = match self.active {
                ComparePane::Reference => self.reference_view,
                ComparePane::Candidate => self.candidate_view,
            };
            self.reference_view = shared;
            self.candidate_view = shared;
        }
    }

    /// Recenters the candidate, and the reference too when synchronized.
    pub fn recenter_candidate(&mut self)
        ensures
            *final(self) == candidate_recentered(*old(self)),
    {
        self.candidate_view.recenter();
        if self.synchronized {
            self.reference_view.recenter();
        }
    }
}

/// Coupled panes show the same zoom and center: coupling makes them equal, and every change of
/// the active pane, and every recentering, keeps them equal while they stay coupled.
pub proof fn law_coupled_views_stay_identical(state: CompareState, change: ViewChange)
    ensures
        !state.synchronized ==> compare_sync_toggled(state).reference_view == compare_sync_toggled(
            state,
        ).candidate_view,
        state.synchronized ==> compare_changed(state, change).reference_view == compare_changed(
            state,
            change,
        ).candidate_view,
        state.synchronized && state.reference_view == state.candidate_view ==> candidate_recentered(
            state,
        ).reference_view == candidate_recentered(state).candidate_view,
{
}

/// The position `offset` steps away from `current`, forward or back, wrapping around `len`.
pub open spec fn wrapped_step(len: int, current: int, offset: int, forward: bool) -> int {
    if forward {
        (current + offset) % len
    } else {
        (current + len - offset % len) % len
    }
}

/// The nearest position from `offset` steps on whose image is not the reference.
pub open spec fn candidate_from(
    filtered: Seq<EntryId>,
    current: int,
    reference_id: EntryId,
    forward: bool,
    offset: int,
) -> Option<int>
    decreases filtered.len() + 1 - offset,
{
    if offset < 1 || offset > filtered.len() {
        None
    } else {
        let position = wrapped_step(filtered.len() as int, current, offset, forward);
        if filtered[position] != reference_id {
            Some(position)
        } else {
            candidate_from(filtered, current, reference_id, forward, offset + 1)
        }
    }
}

/// The next candidate position from `current`, forward or back with wrap-around, skipping the
/// reference; none when fewer than two images are shown or every one is the reference.
pub open spec fn candidate_position(
    filtered: Seq<EntryId>,
    current: int,
    reference_id: EntryId,
    forward: bool,
) -> Option<int> {
    if filtered.len() < 2 {
        None
    } else {
        candidate_from(filtered, current, reference_id, forward, 1)
    }
}

/// The next candidate position, skipping the reference.
pub fn comparison_candidate_position(
    filtered: &[EntryId],
    current: usize,
    reference_id: EntryId,
    forward: bool,
) -> (out: Option<usize>)
    ensures
        match out {
            Some(p) => candidate_position(filtered@, current as int, reference_id, forward) == Some(p as int),
            None => candidate_position(filtered@, current as int, reference_id, forward) is None,
        },
        filtered@.len() >= 2 && current < filtered@.len() && filtered@[steps_away(filtered@.len() as int, current as int, 1, forward)]
            != reference_id ==> out == Some(steps_away(filtered@.len() as int, current as int, 1, forward) as usize),
{
    proof {
        if filtered@.len() >= 2 && current < filtered@.len() {
            law_candidate_is_the_nearest_in_its_direction(filtered@, current as int, reference_id, forward);
        }
        law_candidate_is_never_the_reference(filtered@, current as int, reference_id, forward);
    }
    let len = filtered.len();
    if len < 2 {
        return None;
    }
    let mut i: usize = 0;
    while i < len
        invariant
            i <= len,
            len == filtered@.len(),
            len >= 2,
            candidate_position(filtered@, current as int, reference_id, forward) == candidate_from(
                filtered@,
                current as int,
                reference_id,
                forward,
                i + 1,
            ),
            current < filtered@.len() && filtered@[steps_away(filtered@.len() as int, current as int, 1, forward)]
                != reference_id ==> candidate_position(filtered@, current as int, reference_id, forward) == Some(
                steps_away(filtered@.len() as int, current as int, 1, forward),
            ),
            candidate_position(filtered@, current as int, reference_id, forward) matches Some(p) ==> 0 <= p < len,
        decreases len - i,
    {
        let offset = i as u128 + 1;
        let n = len as u128;
        let wide = if forward {
            (current as u128 + offset) % n
        } else {
            (current as u128 + n - offset % n) % n
        };
        let position = wide as usize;
        assert(position as int == wrapped_step(len as int, current as int, i + 1, forward));
        if filtered[position] != reference_id {
            return Some(position);
        }
        i = i + 1;
    }
    None
}

/// A candidate position is a shown image other than the reference.
pub proof fn law_candidate_is_never_the_reference(
    filtered: Seq<EntryId>,
    current: int,
    reference_id: EntryId,
    forward: bool,
)
    requires
        current >= 0,
    ensures
        candidate_position(filtered, current, reference_id, forward) matches Some(p) ==> (0 <= p
            < filtered.len() && filtered[p] != reference_id),
{
    if filtered.len() >= 2 {
        lemma_candidate_from(filtered, current, reference_id, forward, 1);
    }
}

proof fn lemma_candidate_from(
    filtered: Seq<EntryId>,
    current: int,
    reference_id: EntryId,
    forward: bool,
    offset: int,
)
    requires
        current >= 0,
        filtered.len() >= 1,
    ensures
        candidate_from(filtered, current, reference_id, forward, offset) matches Some(p) ==> (0 <= p
            < filtered.len() && filtered[p] != reference_id),
    decreases filtered.len() + 1 - offset,
{
    if 1 <= offset <= filtered.len() {
        lemma_candidate_from(filtered, current, reference_id, forward, offset + 1);
    }
}

/// The position `k` places after `current` (forward) or before it (backward), around a list of
/// `len` images.
pub open spec fn steps_away(len: int, current: int, k: int, forward: bool) -> int {
    if forward {
        (current + k) % len
    } else {
        (current - k) % len
    }
}

proof fn lemma_wrapped_step_is_steps_away(len: int, current: int, k: int, forward: bool)
    requires
        len >= 1,
        current >= 0,
        1 <= k <= len,
    ensures
        wrapped_step(len, current, k, forward) == steps_away(len, current, k, forward),
{
    if !forward {
        if k < len {
            vstd::arithmetic::div_mod::lemma_small_mod(k as nat, len as nat);
            vstd::arithmetic::div_mod::lemma_mod_add_multiples_vanish(current - k, len);
            assert(current + len - k == len + (current - k));
        } else {
            vstd::arithmetic::div_mod::lemma_mod_self_0(len);
            vstd::arithmetic::div_mod::lemma_mod_add_multiples_vanish(current, len);
            vstd::arithmetic::div_mod::lemma_mod_sub_multiples_vanish(current, len);
            assert(current - k == -len + current);
            assert(current + len - k % len == len + current);
        }
    }
}

proof fn lemma_candidate_nearest(
    filtered: Seq<EntryId>,
    current: int,
    reference_id: EntryId,
    forward: bool,
    offset: int,
)
    requires
        filtered.len() >= 1,
        current >= 0,
        1 <= offset,
        forall|j: int| 1 <= j < offset ==> filtered[#[trigger] steps_away(filtered.len() as int, current, j, forward)]
            == reference_id,
    ensures
        candidate_from(filtered, current, reference_id, forward, offset) matches Some(p) ==> exists|k: int| 1 <= k
            <= filtered.len() && p == #[trigger] steps_away(filtered.len() as int, current, k, forward)
            && filtered[p] != reference_id && forall|j: int| 1 <= j < k ==> filtered[#[trigger] steps_away(
            filtered.len() as int,
            current,
            j,
            forward,
        )] == reference_id,
        candidate_from(filtered, current, reference_id, forward, offset) is None && offset <= filtered.len() + 1
            ==> forall|j: int| 1 <= j <= filtered.len() ==> filtered[#[trigger] steps_away(
            filtered.len() as int,
            current,
            j,
            forward,
        )] == reference_id,
    decreases filtered.len() + 1 - offset,
{
    let len = filtered.len() as int;
    if 1 <= offset <= len {
        lemma_wrapped_step_is_steps_away(len, current, offset, forward);
        let position = steps_away(len, current, offset, forward);
        if filtered[position] != reference_id {
            assert(steps_away(len, current, offset, forward) == position);
        } else {
            assert forall|j: int| 1 <= j < offset + 1 implies filtered[#[trigger] steps_away(len, current, j, forward)]
                == reference_id by {
                if j == offset {
                    assert(steps_away(len, current, j, forward) == position);
                }
            }
            lemma_candidate_nearest(filtered, current, reference_id, forward, offset + 1);
        }
    }
}

/// Stepping the comparison candidate goes to the nearest image in the chosen direction, around
/// the list, that is not the reference: backward to the preceding position, forward to the
/// following one, unless that is the reference, which is skipped. No candidate is found only
/// when every other position holds the reference.
pub proof fn law_candidate_is_the_nearest_in_its_direction(
    filtered: Seq<EntryId>,
    current: int,
    reference_id: EntryId,
    forward: bool,
)
    requires
        filtered.len() >= 2,
        0 <= current < filtered.len(),
    ensures
        filtered[steps_away(filtered.len() as int, current, 1, forward)] != reference_id ==> candidate_position(
            filtered,
            current,
            reference_id,
            forward,
        ) == Some(steps_away(filtered.len() as int, current, 1, forward)),
        candidate_position(filtered, current, reference_id, forward) matches Some(p) ==> exists|k: int| 1 <= k
            <= filtered.len() && p == #[trigger] steps_away(filtered.len() as int, current, k, forward)
            && filtered[p] != reference_id && forall|j: int| 1 <= j < k ==> filtered[#[trigger] steps_away(
            filtered.len() as int,
            current,
            j,
            forward,
        )] == reference_id,
        candidate_position(filtered, current, reference_id, forward) is None ==> forall|j: int| 1 <= j
            <= filtered.len() ==> filtered[#[trigger] steps_away(filtered.len() as int, current, j, forward)]
            == reference_id,
{
    lemma_candidate_nearest(filtered, current, reference_id, forward, 1);
    lemma_wrapped_step_is_steps_away(filtered.len() as int, current, 1, forward);
}

/// A focus movement in the grid.
#[derive(Clone, Copy, Debug, PartialEq, Eq, Structural)]
pub enum Movement {
    Left,
    Right,
    Up,
    Down,
    PageUp,
    PageDown,
    First,
    Last,
}

/// The focused position after a movement.
pub open spec fn moved_selection(m: Movement, selected: int, len: int, columns: int, rows: int) -> int {
    let page = saturating_mul(at_least_one(columns), at_least_one(rows));
    match m {
        Movement::Left => if selected > 0 { selected - 1 } else { 0 },
        Movement::Right => if selected + 1 < len { selected + 1 } else { selected },
        Movement::Up => saturating_sub(selected, at_least_one(columns)),
        Movement::Down => if len > 0 { min(selected + at_least_one(columns), len - 1) } else { selected },
        Movement::PageUp => saturating_sub(selected, page),
        Movement::PageDown => if len > 0 { min(selected + page, len - 1) } else { selected },
        Movement::First => 0,
        Movement::Last => saturating_sub(len, 1),
    }
}

/// `after` is `before` with the focus moved and the grid scrolled to keep it visible (to the top
/// for `First`).
pub open spec fn focus_moved(after: App, before: App, m: Movement, columns: int, rows: int) -> bool {
    let selected = moved_selection(m, before.selected as int, before.filtered@.len() as int, columns, rows);
    &&& after.same_except_focus(&before)
    &&& after.selected == selected
    &&& after.row_offset == (if m == Movement::First {
        0
    } else {
        scrolled_offset(selected, before.row_offset as int, columns, rows, before.filtered@.len() as int)
    })
}

/// `after` is `before` with the focused image's mark toggled, when an image is focused.
pub open spec fn focused_mark_toggled(after: App, before: App) -> bool {
    if before.selected < before.filtered@.len() {
        after.toggled_from(&before, before.filtered@[before.selected as int])
    } else {
        after == before
    }
}

/// `after` is `before` with the range from the anchor to the focus marked.
pub open spec fn range_marked(after: App, before: App) -> bool {
    if before.selected < before.filtered@.len() {
        let (start, end) = range_bounds(before.filtered@, before.anchor(), before.selected as int);
        &&& after.marks() == marks_with(before.marks(), before.filtered@.subrange(start, end + 1))
        &&& after.anchor() == (match before.anchor() {
            Some(a) => Some(a),
            None => Some(before.filtered@[before.selected as int]),
        })
        &&& after.same_except_marks(&before)
        &&& after.filtered@ == before.filtered@
        &&& after.selected == before.selected
        &&& after.row_offset == before.row_offset
    } else {
        after == before
    }
}

/// `after` is `before` with every mark cleared.
pub open spec fn marks_cleared(after: App, before: App) -> bool {
    &&& after.marks().len() == 0
    &&& after.anchor() is None
    &&& after.same_except_marks(&before)
    &&& after.view_after_marks(&before)
}

/// `after` is `before` switched between all matching and only marked images.
pub open spec fn marked_only_switched(after: App, before: App) -> bool {
    &&& after.only_marked() == !before.only_marked()
    &&& after.marks() == before.marks()
    &&& after.anchor() == before.anchor()
    &&& after.root@ == before.root@
    &&& after.entries@ == before.entries@
    &&& after.query@ == before.query@
    &&& after.mode == before.mode
    &&& after.saved_query() == before.saved_query()
    &&& after.refiltered_from(&before)
}

/// Everything but the query, the mode, the saved query and the view of the grid is equal.
pub open spec fn same_but_search(after: App, before: App) -> bool {
    &&& after.root@ == before.root@
    &&& after.entries@ == before.entries@
    &&& after.marks() == before.marks()
    &&& after.anchor() == before.anchor()
    &&& after.only_marked() == before.only_marked()
}

/// `after` is `before` in search mode, remembering the query.
pub open spec fn search_started(after: App, before: App) -> bool {
    &&& same_but_search(after, before)
    &&& after.mode == InputMode::Search
    &&& after.saved_query() == before.query@
    &&& after.query@ == before.query@
    &&& after.filtered@ == before.filtered@
    &&& after.selected == before.selected
    &&& after.row_offset == before.row_offset
}

/// `after` is `before` back in normal mode with the edited query kept.
pub open spec fn search_committed(after: App, before: App) -> bool {
    &&& same_but_search(after, before)
    &&& after.mode == InputMode::Normal
    &&& after.saved_query() == before.saved_query()
    &&& after.query@ == before.query@
    &&& after.filtered@ == before.filtered@
    &&& after.selected == before.selected
    &&& after.row_offset == before.row_offset
}

/// `after` is `before` back in normal mode with the query from before the search.
pub open spec fn search_cancelled(after: App, before: App) -> bool {
    &&& same_but_search(after, before)
    &&& after.mode == InputMode::Normal
    &&& after.query@ == before.saved_query()
    &&& after.saved_query().len() == 0
    &&& after.refiltered_from(&before)
}

/// `after` is `before` with the query edited to `query`.
pub open spec fn query_edited(after: App, before: App, query: Seq<char>) -> bool {
    &&& same_but_search(after, before)
    &&& after.mode == before.mode
    &&& after.saved_query() == before.saved_query()
    &&& after.query@ == query
    &&& after.refiltered_from(&before)
}

/// The thumbnail size after growing it for the grid.
pub open spec fn grown_size(size: ThumbnailSize, grid: GridLayout) -> ThumbnailSize {
    ThumbnailSize {
        width: clamp(
            if grid.columns > 1 { grid.area.width as int / (grid.columns - 1) } else { size.width as int },
            MIN_WIDTH as int,
            MAX_WIDTH as int,
        ) as u16,
        height: clamp(
            if grid.rows > 1 { grid.area.height as int / (grid.rows - 1) } else { size.height as int },
            MIN_HEIGHT as int,
            MAX_HEIGHT as int,
        ) as u16,
    }
}

/// The thumbnail size after shrinking it for the grid.
pub open spec fn shrunk_size(size: ThumbnailSize, grid: GridLayout) -> ThumbnailSize {
    ThumbnailSize {
        width: clamp(grid.area.width as int / (grid.columns + 1), MIN_WIDTH as int, MAX_WIDTH as int) as u16,
        height: clamp(grid.area.height as int / (grid.rows + 1), MIN_HEIGHT as int, MAX_HEIGHT as int) as u16,
    }
}

/// The background after the next one in the cycle.
pub open spec fn cycled_background(mode: BackgroundMode) -> BackgroundMode {
    match mode {
        BackgroundMode::Checkerboard => BackgroundMode::Dark,
        BackgroundMode::Dark => BackgroundMode::Light,
        BackgroundMode::Light => BackgroundMode::Checkerboard,
    }
}

/// A quality action names a level from 1 to 9; every other action is valid as it is.
pub open spec fn valid_action(action: Action) -> bool {
    action matches Action::SetQuality(level) ==> 1 <= level <= 9
}

/// Every bound action is valid.
pub open spec fn valid_table(table: Map<(ActionContext, crate::actions::KeyChord), Action>) -> bool {
    forall|k: (ActionContext, crate::actions::KeyChord)| #[trigger] table.contains_key(k) ==> valid_action(table[k])
}

/// The interactive state of a browsing session.
pub struct Browser {
    pub app: App,
    pub view: BrowserView,
    pub grid: GridLayout,
    /// The size of the inspection view, or of the reference pane when comparing.
    pub inspection_size: Size,
    /// The size of the candidate pane.
    pub comparison_size: Size,
    pub inspection_key: Option<InspectionKey>,
    pub comparison_key: Option<InspectionKey>,
    pub thumbnail_size: ThumbnailSize,
    pub thumbnail_quality: ThumbnailQuality,
    pub bindings: Bindings,
    pub show_help: bool,
    pub debug_status: bool,
    pub background: BackgroundMode,
    pub running: bool,
    pub selection_mode: bool,
    pub confirmed: bool,
}

/// How a browsing session ended.
pub enum BrowseOutcome {
    Completed,
    Cancelled,
    /// The marked paths, in the order they were marked.
    Selection(Vec<Vec<u8>>),
}

impl Browser {
    /// The state is consistent: the image list's invariant, bindings without duplicate keys
    /// that name valid actions, a focus on a shown image whenever one is shown, and a grid of at
    /// least one and fewer than 65535 columns and rows.
    pub open spec fn wf(&self) -> bool {
        &&& self.app.wf()
        &&& self.bindings.wf()
        &&& valid_table(self.bindings.table())
        &&& (self.app.filtered@.len() == 0 || self.app.selected < self.app.filtered@.len())
        &&& 1 <= self.grid.columns < u16::MAX
        &&& 1 <= self.grid.rows < u16::MAX
    }

    /// A session over `app`, showing the grid.
    pub fn new(
        app: App,
        bindings: Bindings,
        thumbnail_size: ThumbnailSize,
        thumbnail_quality: ThumbnailQuality,
        debug_status: bool,
        background: BackgroundMode,
        selection_mode: bool,
    ) -> (browser: Browser)
        ensures
            browser.app == app,
            browser.view == BrowserView::Grid,
            browser.grid == (GridLayout {
                area: crate::ui::Rect { x: 0, y: 0, width: 0, height: 0 },
                columns: 1,
                rows: 1,
                cell_width: 0,
                cell_height: 0,
                image_size: Size { width: 0, height: 0 },
            }),
            browser.inspection_size == (Size { width: 0, height: 0 }),
            browser.comparison_size == (Size { width: 0, height: 0 }),
            browser.inspection_key is None,
            browser.comparison_key is None,
            browser.thumbnail_size == thumbnail_size,
            browser.thumbnail_quality == thumbnail_quality,
            browser.bindings == bindings,
            !browser.show_help,
            browser.debug_status == debug_status,
            browser.background == background,
            browser.running,
            browser.selection_mode == selection_mode,
            !browser.confirmed,
    {
        Browser {
            app,
            view: BrowserView::Grid,
            grid: GridLayout {
                area: crate::ui::Rect { x: 0, y: 0, width: 0, height: 0 },
                columns: 1,
                rows: 1,
                cell_width: 0,
                cell_height: 0,
                image_size: Size { width: 0, height: 0 },
            },
            inspection_size: Size { width: 0, height: 0 },
            comparison_size: Size { width: 0, height: 0 },
            inspection_key: None,
            comparison_key: None,
            thumbnail_size,
            thumbnail_quality,
            bindings,
            show_help: false,
            debug_status,
            background,
            running: true,
            selection_mode,
            confirmed: false,
        }
    }

    /// The outcome once the session stops: the marked paths after a confirmation, otherwise a
    /// cancellation in selection mode or a plain completion.
    pub fn finish(&self) -> (outcome: BrowseOutcome)
        requires
            self.app.wf(),
        ensures
            match outcome {
                BrowseOutcome::Selection(paths) => self.confirmed && paths@.len() == self.app.marks().len()
                    && forall|i: int| 0 <= i < paths@.len() ==> #[trigger] paths@[i]@ == self.app.entries@[self.app.marks()[i].0 as int].path@,
                BrowseOutcome::Cancelled => !self.confirmed && self.selection_mode,
                BrowseOutcome::Completed => !self.confirmed && !self.selection_mode,
            },
    {
        if self.confirmed {
            BrowseOutcome::Selection(self.app.marked_paths())
        } else if self.selection_mode {
            BrowseOutcome::Cancelled
        } else {
            BrowseOutcome::Completed
        }
    }
}

proof fn lemma_refocused_in_range(old_filtered: Seq<EntryId>, old_selected: int, new_filtered: Seq<EntryId>)
    requires
        old_selected >= 0,
    ensures
        new_filtered.len() > 0 ==> 0 <= refocused(old_filtered, old_selected, new_filtered) < new_filtered.len(),
{
    if 0 <= old_selected < old_filtered.len() {
        lemma_position_of_found(new_filtered, old_filtered[old_selected]);
    }
}

/// The effect of an action in the grid.
pub open spec fn normal_step(after: Browser, before: Browser, action: Option<Action>) -> bool {
    let columns = before.grid.columns as int;
    let rows = before.grid.rows as int;
    let with_app = Browser { app: after.app, ..before };
    match action {
        Some(Action::Quit) => after == Browser { running: false, ..before },
        Some(Action::StartSearch) => search_started(after.app, before.app) && after == with_app,
        Some(Action::ThumbnailLarger) => after == Browser {
            thumbnail_size: grown_size(before.thumbnail_size, before.grid),
            ..before
        },
        Some(Action::ThumbnailSmaller) => after == Browser {
            thumbnail_size: shrunk_size(before.thumbnail_size, before.grid),
            ..before
        },
        Some(Action::ThumbnailReset) => after == Browser {
            thumbnail_size: ThumbnailSize { width: 32, height: 14 },
            ..before
        },
        Some(Action::SetQuality(level)) => after.thumbnail_quality.spec_level() == level && after == Browser {
            thumbnail_quality: after.thumbnail_quality,
            ..before
        },
        Some(Action::MoveLeft) => focus_moved(after.app, before.app, Movement::Left, columns, rows) && after == with_app,
        Some(Action::MoveRight) => focus_moved(after.app, before.app, Movement::Right, columns, rows) && after == with_app,
        Some(Action::MoveUp) => focus_moved(after.app, before.app, Movement::Up, columns, rows) && after == with_app,
        Some(Action::MoveDown) => focus_moved(after.app, before.app, Movement::Down, columns, rows) && after == with_app,
        Some(Action::PageUp) => focus_moved(after.app, before.app, Movement::PageUp, columns, rows) && after == with_app,
        Some(Action::PageDown) => focus_moved(after.app, before.app, Movement::PageDown, columns, rows) && after == with_app,
        Some(Action::First) => focus_moved(after.app, before.app, Movement::First, columns, rows) && after == with_app,
        Some(Action::Last) => focus_moved(after.app, before.app, Movement::Last, columns, rows) && after == with_app,
        Some(Action::ToggleHelp) => after == Browser { show_help: true, ..before },
        Some(Action::ToggleDebug) => after == Browser { debug_status: !before.debug_status, ..before },
        Some(Action::ToggleMark) => focused_mark_toggled(after.app, before.app) && after == with_app,
        Some(Action::MarkRange) => range_marked(after.app, before.app) && after == with_app,
        Some(Action::ClearMarks) => marks_cleared(after.app, before.app) && after == with_app,
        Some(Action::ToggleMarkedOnly) => marked_only_switched(after.app, before.app) && after == with_app,
        Some(Action::ConfirmSelection) => if before.selection_mode {
            after == Browser { confirmed: true, running: false, ..before }
        } else {
            after == before
        },
        Some(Action::OpenInspect) => if before.app.selected < before.app.filtered@.len() {
            after == Browser {
                view: BrowserView::Inspect(ViewState { zoom: Zoom::Fit, center_x: CENTER, center_y: CENTER }),
                inspection_key: None,
                ..before
            }
        } else {
            after == before
        },
        Some(Action::OpenCompare) => comparison_started(after, before),
        _ => after == before,
    }
}

/// The effect of opening the comparison: with two or more images shown, the focused image is
/// pinned as the reference and the focus moves to the next image, or the previous one at the
/// end; otherwise nothing changes.
pub open spec fn comparison_started(after: Browser, before: Browser) -> bool {
    let len = before.app.filtered@.len();
    let selected = before.app.selected as int;
    if len < 2 {
        after == before
    } else {
        &&& after.app == App {
            selected: (if selected + 1 < len { selected + 1 } else { selected - 1 }) as usize,
            ..before.app
        }
        &&& after == Browser {
            app: after.app,
            view: BrowserView::Compare(CompareState {
                reference_id: before.app.filtered@[selected],
                reference_view: ViewState { zoom: Zoom::Fit, center_x: CENTER, center_y: CENTER },
                candidate_view: ViewState { zoom: Zoom::Fit, center_x: CENTER, center_y: CENTER },
                active: ComparePane::Reference,
                synchronized: true,
            }),
            inspection_key: None,
            comparison_key: None,
            ..before
        }
    }
}

impl Browser {
    proof fn lemma_moved_in_range(after: App, before: App, m: Movement, columns: int, rows: int)
        requires
            before.filtered@.len() == 0 || before.selected < before.filtered@.len(),
            focus_moved(after, before, m, columns, rows),
        ensures
            after.filtered@.len() == 0 || after.selected < after.filtered@.len(),
    {
    }

    proof fn lemma_marks_in_range(after: App, before: App)
        requires
            before.filtered@.len() == 0 || before.selected < before.filtered@.len(),
            after.view_after_marks(&before),
        ensures
            after.filtered@.len() == 0 || after.selected < after.filtered@.len(),
    {
        lemma_refocused_in_range(before.filtered@, before.selected as int, after.filtered@);
    }

    /// Pins the focused image and moves the focus to a candidate beside it, when two or more
    /// images are shown.
    pub fn start_comparison(&mut self)
        requires
            old(self).wf(),
        ensures
            final(self).wf(),
            comparison_started(*final(self), *old(self)),
    {
        if self.app.filtered.len() < 2 {
            return;
        }
        let reference_id = self.app.filtered[self.app.selected];
        self.app.selected = if self.app.selected + 1 < self.app.filtered.len() {
            self.app.selected + 1
        } else {
            self.app.selected - 1
        };
        self.view = BrowserView::Compare(CompareState::pinning(reference_id));
        self.inspection_key = None;
        self.comparison_key = None;
    }

    /// Carries out an action in the grid.
    pub fn handle_normal_action(&mut self, action: Option<Action>)
        requires
            old(self).wf(),
            action matches Some(a) ==> valid_action(a),
        ensures
            final(self).wf(),
            normal_step(*final(self), *old(self), action),
    {
        let columns = self.grid.columns;
        let rows = self.grid.rows;
        let ghost before = self.app;
        match action {
            Some(Action::Quit) => self.running = false,
            Some(Action::StartSearch) => self.app.start_search(),
            Some(Action::ThumbnailLarger) => {
                self.thumbnail_size = self.thumbnail_size.larger_for_grid(
                    self.grid.area.width,
                    self.grid.area.height,
                    columns,
                    rows,
                );
            },
            Some(Action::ThumbnailSmaller) => {
                self.thumbnail_size = self.thumbnail_size.smaller_for_grid(
                    self.grid.area.width,
                    self.grid.area.height,
                    columns,
                    rows,
                );
            },
            Some(Action::ThumbnailReset) => {
                self.thumbnail_size = ThumbnailSize::default_size();
            },
            Some(Action::SetQuality(level)) => {
                match ThumbnailQuality::new(level) {
                    Ok(quality) => self.thumbnail_quality = quality,
                    Err(_) => {},
                }
            },
            Some(Action::MoveLeft) => {
                self.app.move_left(columns, rows);
                proof { Self::lemma_moved_in_range(self.app, before, Movement::Left, columns as int, rows as int); }
            },
            Some(Action::MoveRight) => {
                self.app.move_right(columns, rows);
                proof { Self::lemma_moved_in_range(self.app, before, Movement::Right, columns as int, rows as int); }
            },
            Some(Action::MoveUp) => {
                self.app.move_up(columns, rows);
                proof { Self::lemma_moved_in_range(self.app, before, Movement::Up, columns as int, rows as int); }
            },
            Some(Action::MoveDown) => {
                self.app.move_down(columns, rows);
                proof { Self::lemma_moved_in_range(self.app, before, Movement::Down, columns as int, rows as int); }
            },
            Some(Action::PageUp) => {
                self.app.page_up(columns, rows);
                proof { Self::lemma_moved_in_range(self.app, before, Movement::PageUp, columns as int, rows as int); }
            },
            Some(Action::PageDown) => {
                self.app.page_down(columns, rows);
                proof { Self::lemma_moved_in_range(self.app, before, Movement::PageDown, columns as int, rows as int); }
            },
            Some(Action::First) => {
                self.app.select_first();
                proof { Self::lemma_moved_in_range(self.app, before, Movement::First, columns as int, rows as int); }
            },
            Some(Action::Last) => {
                self.app.select_last(columns, rows);
                proof { Self::lemma_moved_in_range(self.app, before, Movement::Last, columns as int, rows as int); }
            },
            Some(Action::ToggleHelp) => self.show_help = true,
            Some(Action::ToggleDebug) => self.debug_status = !self.debug_status,
            Some(Action::ToggleMark) => {
                self.app.toggle_mark();
                proof {
                    if before.selected < before.filtered@.len() {
                        Self::lemma_marks_in_range(self.app, before);
                    }
                }
            },
            Some(Action::MarkRange) => self.app.mark_range(),
            Some(Action::ClearMarks) => {
                self.app.clear_marks();
                proof { Self::lemma_marks_in_range(self.app, before); }
            },
            Some(Action::ToggleMarkedOnly) => {
                self.app.toggle_marked_only();
                proof { lemma_refocused_in_range(before.filtered@, before.selected as int, self.app.filtered@); }
            },
            Some(Action::ConfirmSelection) => {
                if self.selection_mode {
                    self.confirmed = true;
                    self.running = false;
                }
            },
            Some(Action::OpenInspect) => {
                if self.app.selected_entry().is_some() {
                    self.view = BrowserView::Inspect(ViewState::default());
                    self.inspection_key = None;
                }
            },
            Some(Action::OpenCompare) => self.start_comparison(),
            _ => {},
        }
    }
}

/// An inspection view after a change; other views are kept.
pub open spec fn inspect_changed(view: BrowserView, change: ViewChange) -> BrowserView {
    match view {
        BrowserView::Inspect(state) => BrowserView::Inspect(changed_view(state, change)),
        _ => view,
    }
}

/// An inspection view recentered; other views are kept.
pub open spec fn inspect_recentered(view: BrowserView) -> BrowserView {
    match view {
        BrowserView::Inspect(state) => BrowserView::Inspect(recentered(state)),
        _ => view,
    }
}

/// The view change an action asks for.
pub open spec fn change_of(action: Action) -> Option<ViewChange> {
    match action {
        Action::ToggleFitHundred => Some(ViewChange::ToggleFitHundred),
        Action::ZoomIn => Some(ViewChange::ZoomIn),
        Action::ZoomOut => Some(ViewChange::ZoomOut),
        Action::PanLeft => Some(ViewChange::PanLeft),
        Action::PanRight => Some(ViewChange::PanRight),
        Action::PanUp => Some(ViewChange::PanUp),
        Action::PanDown => Some(ViewChange::PanDown),
        _ => None,
    }
}

fn change_for(action: Action) -> (out: Option<ViewChange>)
    ensures
        out == change_of(action),
{
    match action {
        Action::ToggleFitHundred => Some(ViewChange::ToggleFitHundred),
        Action::ZoomIn => Some(ViewChange::ZoomIn),
        Action::ZoomOut => Some(ViewChange::ZoomOut),
        Action::PanLeft => Some(ViewChange::PanLeft),
        Action::PanRight => Some(ViewChange::PanRight),
        Action::PanUp => Some(ViewChange::PanUp),
        Action::PanDown => Some(ViewChange::PanDown),
        _ => None,
    }
}

/// The effect of the actions that the grid, inspection and comparison share: help, debug status
/// and confirming the selection.
pub open spec fn shared_step(after: Browser, before: Browser, action: Action) -> bool {
    match action {
        Action::Quit => after == Browser { running: false, ..before },
        Action::ToggleHelp => after == Browser { show_help: true, ..before },
        Action::ToggleDebug => after == Browser { debug_status: !before.debug_status, ..before },
        Action::CycleBackground => after == Browser { background: cycled_background(before.background), ..before },
        Action::ConfirmSelection => if before.selection_mode {
            after == Browser { confirmed: true, running: false, ..before }
        } else {
            after == before
        },
        _ => after == before,
    }
}

/// The effect of an action in the inspection view.
pub open spec fn inspect_step(after: Browser, before: Browser, action: Option<Action>) -> bool {
    let columns = before.grid.columns as int;
    let rows = before.grid.rows as int;
    let with_app = Browser { app: after.app, ..before };
    match action {
        Some(Action::CloseInspect) => after == Browser { view: BrowserView::Grid, ..before },
        Some(Action::PreviousImage) => focus_moved(after.app, before.app, Movement::Left, columns, rows)
            && after == Browser { app: after.app, view: inspect_recentered(before.view), ..before },
        Some(Action::NextImage) => focus_moved(after.app, before.app, Movement::Right, columns, rows)
            && after == Browser { app: after.app, view: inspect_recentered(before.view), ..before },
        Some(Action::ToggleMark) => focused_mark_toggled(after.app, before.app) && after == with_app,
        Some(Action::MarkRange) => range_marked(after.app, before.app) && after == with_app,
        Some(Action::ClearMarks) => marks_cleared(after.app, before.app) && after == with_app,
        Some(Action::ToggleMarkedOnly) => marked_only_switched(after.app, before.app) && after == with_app,
        Some(a) => match change_of(a) {
            Some(change) => after == Browser { view: inspect_changed(before.view, change), ..before },
            None => shared_step(after, before, a),
        },
        None => after == before,
    }
}

impl Browser {
    fn change_inspection(&mut self, change: ViewChange)
        ensures
            *final(self) == (Browser { view: inspect_changed(old(self).view, change), ..*old(self) }),
    {
        match self.view {
            BrowserView::Inspect(state) => {
                let mut changed = state;
                change_view(&mut changed, change);
                self.view = BrowserView::Inspect(changed);
            },
            _ => {},
        }
    }

    fn recenter_inspection(&mut self)
        ensures
            *final(self) == (Browser { view: inspect_recentered(old(self).view), ..*old(self) }),
    {
        match self.view {
            BrowserView::Inspect(state) => {
                let mut changed = state;
                changed.recenter();
                self.view = BrowserView::Inspect(changed);
            },
            _ => {},
        }
    }

    fn handle_shared_action(&mut self, action: Action)
        ensures
            shared_step(*final(self), *old(self), action),
    {
        match action {
            Action::Quit => self.running = false,
            Action::ToggleHelp => self.show_help = true,
            Action::ToggleDebug => self.debug_status = !self.debug_status,
            Action::CycleBackground => self.background = self.background.next(),
            Action::ConfirmSelection => {
                if self.selection_mode {
                    self.confirmed = true;
                    self.running = false;
                }
            },
            _ => {},
        }
    }

    /// Carries out an action in the inspection view.
    pub fn handle_inspect_action(&mut self, action: Option<Action>)
        requires
            old(self).wf(),
        ensures
            final(self).wf(),
            inspect_step(*final(self), *old(self), action),
    {
        let columns = self.grid.columns;
        let rows = self.grid.rows;
        let ghost before = self.app;
        match action {
            Some(Action::CloseInspect) => self.view = BrowserView::Grid,
            Some(Action::PreviousImage) => {
                self.app.move_left(columns, rows);
                proof { Self::lemma_moved_in_range(self.app, before, Movement::Left, columns as int, rows as int); }
                self.recenter_inspection();
            },
            Some(Action::NextImage) => {
                self.app.move_right(columns, rows);
                proof { Self::lemma_moved_in_range(self.app, before, Movement::Right, columns as int, rows as int); }
                self.recenter_inspection();
            },
            Some(Action::ToggleMark) => {
                self.app.toggle_mark();
                proof {
                    if before.selected < before.filtered@.len() {
                        Self::lemma_marks_in_range(self.app, before);
                    }
                }
            },
            Some(Action::MarkRange) => self.app.mark_range(),
            Some(Action::ClearMarks) => {
                self.app.clear_marks();
                proof { Self::lemma_marks_in_range(self.app, before); }
            },
            Some(Action::ToggleMarkedOnly) => {
                self.app.toggle_marked_only();
                proof { lemma_refocused_in_range(before.filtered@, before.selected as int, self.app.filtered@); }
            },
            Some(a) => match change_for(a) {
                Some(change) => self.change_inspection(change),
                None => self.handle_shared_action(a),
            },
            None => {},
        }
    }
}

/// Whether a comparison can no longer be shown: its reference is not shown, or no candidate
/// other than the reference is focused.
pub open spec fn comparison_invalid(state: CompareState, app: App) -> bool {
    ||| !app.filtered@.contains(state.reference_id)
    ||| app.selected >= app.filtered@.len()
    ||| app.filtered@[app.selected as int] == state.reference_id
}

/// The view after checking a comparison against `app`: an invalid comparison returns to the grid.
pub open spec fn checked_view(view: BrowserView, app: App) -> BrowserView {
    match view {
        BrowserView::Compare(state) => if comparison_invalid(state, app) {
            BrowserView::Grid
        } else {
            view
        },
        _ => view,
    }
}

/// The image whose mark the comparison toggles: the reference or the candidate, by active pane.
pub open spec fn compare_mark_target(before: Browser) -> Option<EntryId> {
    match before.view {
        BrowserView::Compare(state) => match state.active {
            ComparePane::Reference => Some(state.reference_id),
            ComparePane::Candidate => if before.app.selected < before.app.filtered@.len() {
                Some(before.app.filtered@[before.app.selected as int])
            } else {
                None
            },
        },
        _ => None,
    }
}

/// `after` is `before` with the mark of `id` toggled, when `id` names an image.
pub open spec fn id_mark_toggled(after: App, before: App, id: EntryId) -> bool {
    if id.0 < before.entries@.len() {
        after.toggled_from(&before, id)
    } else {
        after == before
    }
}

/// The effect of moving the candidate forward or back, skipping the reference.
pub open spec fn candidate_moved(after: Browser, before: Browser, forward: bool) -> bool {
    match before.view {
        BrowserView::Compare(state) => match candidate_position(
            before.app.filtered@,
            before.app.selected as int,
            state.reference_id,
            forward,
        ) {
            Some(p) => after == Browser {
                app: App { selected: p as usize, ..before.app },
                view: BrowserView::Compare(candidate_recentered(state)),
                comparison_key: None,
                ..before
            },
            None => after == before,
        },
        _ => after == before,
    }
}

/// The effect of promoting the candidate to reference: the next image after it becomes the
/// candidate; without a focused image or another candidate the grid returns.
pub open spec fn candidate_promoted(after: Browser, before: Browser) -> bool {
    match before.view {
        BrowserView::Compare(state) => if before.app.selected >= before.app.filtered@.len() {
            after == Browser { view: BrowserView::Grid, ..before }
        } else {
            let promoted = before.app.filtered@[before.app.selected as int];
            match candidate_position(before.app.filtered@, before.app.selected as int, promoted, true) {
                None => after == Browser { view: BrowserView::Grid, ..before },
                Some(p) => after == Browser {
                    app: App { selected: p as usize, ..before.app },
                    view: BrowserView::Compare(candidate_recentered(CompareState { reference_id: promoted, ..state })),
                    inspection_key: None,
                    comparison_key: None,
                    ..before
                },
            }
        },
        _ => after == before,
    }
}

/// The effect of an action in the comparison view.
pub open spec fn compare_step(after: Browser, before: Browser, action: Option<Action>) -> bool {
    let checked = Browser { app: after.app, view: checked_view(before.view, after.app), ..before };
    match action {
        Some(Action::CloseInspect) => after == Browser { view: BrowserView::Grid, ..before },
        Some(Action::PreviousImage) => candidate_moved(after, before, false),
        Some(Action::NextImage) => candidate_moved(after, before, true),
        Some(Action::PromoteCandidate) => candidate_promoted(after, before),
        Some(Action::SwitchComparePane) => after == Browser {
            view: match before.view {
                BrowserView::Compare(state) => BrowserView::Compare(CompareState { active: other_pane(state.active), ..state }),
                _ => before.view,
            },
            ..before
        },
        Some(Action::ToggleCompareSync) => after == Browser {
            view: match before.view {
                BrowserView::Compare(state) => BrowserView::Compare(compare_sync_toggled(state)),
                _ => before.view,
            },
            ..before
        },
        Some(Action::ToggleMark) => match compare_mark_target(before) {
            Some(id) => id_mark_toggled(after.app, before.app, id) && after == checked,
            None => after == before,
        },
        Some(Action::ClearMarks) => marks_cleared(after.app, before.app) && after == checked,
        Some(Action::ToggleMarkedOnly) => marked_only_switched(after.app, before.app) && after == checked,
        Some(a) => match change_of(a) {
            Some(change) => after == Browser {
                view: match before.view {
                    BrowserView::Compare(state) => BrowserView::Compare(compare_changed(state, change)),
                    _ => before.view,
                },
                ..before
            },
            None => shared_step(after, before, a),
        },
        None => after == before,
    }
}

impl Browser {
    /// Returns to the grid when the comparison lost its reference or candidate.
    pub fn close_invalid_comparison(&mut self)
        requires
            old(self).app.wf(),
        ensures
            *final(self) == (Browser { view: checked_view(old(self).view, old(self).app), ..*old(self) }),
    {
        match self.view {
            BrowserView::Compare(state) => {
                let shown = crate::app::contains_id(self.app.filtered.as_slice(), state.reference_id);
                let invalid = if !shown {
                    true
                } else if self.app.selected >= self.app.filtered.len() {
                    true
                } else {
                    self.app.filtered[self.app.selected] == state.reference_id
                };
                if invalid {
                    self.view = BrowserView::Grid;
                }
            },
            _ => {},
        }
    }

    /// Moves the candidate forward or back, skipping the reference.
    pub fn move_compare_candidate(&mut self, forward: bool)
        requires
            old(self).wf(),
        ensures
            final(self).wf(),
            candidate_moved(*final(self), *old(self), forward),
    {
        match self.view {
            BrowserView::Compare(state) => {
                match comparison_candidate_position(self.app.filtered.as_slice(), self.app.selected, state.reference_id, forward) {
                    Some(position) => {
                        proof {
                            law_candidate_is_never_the_reference(self.app.filtered@, self.app.selected as int, state.reference_id, forward);
                        }
                        self.app.selected = position;
                        let mut changed = state;
                        changed.recenter_candidate();
                        self.view = BrowserView::Compare(changed);
                        self.comparison_key = None;
                    },
                    None => {},
                }
            },
            _ => {},
        }
    }

    /// Makes the candidate the reference and moves the candidate to the next image.
    pub fn promote_candidate(&mut self)
        requires
            old(self).wf(),
        ensures
            final(self).wf(),
            candidate_promoted(*final(self), *old(self)),
    {
        match self.view {
            BrowserView::Compare(state) => {
                if self.app.selected >= self.app.filtered.len() {
                    self.view = BrowserView::Grid;
                    return;
                }
                let promoted = self.app.filtered[self.app.selected];
                match comparison_candidate_position(self.app.filtered.as_slice(), self.app.selected, promoted, true) {
                    None => {
                        self.view = BrowserView::Grid;
                    },
                    Some(position) => {
                        proof {
                            law_candidate_is_never_the_reference(self.app.filtered@, self.app.selected as int, promoted, true);
                        }
                        self.app.selected = position;
                        let mut changed = CompareState { reference_id: promoted, ..state };
                        changed.recenter_candidate();
                        self.view = BrowserView::Compare(changed);
                        self.inspection_key = None;
                        self.comparison_key = None;
                    },
                }
            },
            _ => {},
        }
    }

    /// Carries out an action in the comparison view.
    pub fn handle_compare_action(&mut self, action: Option<Action>)
        requires
            old(self).wf(),
        ensures
            final(self).wf(),
            compare_step(*final(self), *old(self), action),
    {
        let ghost before = self.app;
        match action {
            Some(Action::CloseInspect) => self.view = BrowserView::Grid,
            Some(Action::PreviousImage) => self.move_compare_candidate(false),
            Some(Action::NextImage) => self.move_compare_candidate(true),
            Some(Action::PromoteCandidate) => self.promote_candidate(),
            Some(Action::SwitchComparePane) => {
                match self.view {
                    BrowserView::Compare(state) => {
                        let active = match state.active {
                            ComparePane::Reference => ComparePane::Candidate,
                            ComparePane::Candidate => ComparePane::Reference,
                        };
                        self.view = BrowserView::Compare(CompareState { active, ..state });
                    },
                    _ => {},
                }
            },
            Some(Action::ToggleCompareSync) => {
                match self.view {
                    BrowserView::Compare(state) => {
                        let mut changed = state;
                        changed.toggle_sync();
                        self.view = BrowserView::Compare(changed);
                    },
                    _ => {},
                }
            },
            Some(Action::ToggleMark) => {
                let target = match self.view {
                    BrowserView::Compare(state) => match state.active {
                        ComparePane::Reference => Some(state.reference_id),
                        ComparePane::Candidate => match self.app.selected_entry() {
                            Some(entry) => Some(entry.id),
                            None => None,
                        },
                    },
                    _ => None,
                };
                proof {
                    if self.app.selected < self.app.filtered@.len() {
                        self.app.lemma_filtered_ids_known();
                    }
                }
                match target {
                    Some(id) => {
                        self.app.toggle_mark_id(id);
                        proof {
                            if id.0 < before.entries@.len() {
                                Self::lemma_marks_in_range(self.app, before);
                            }
                        }
                        self.close_invalid_comparison();
                    },
                    None => {},
                }
            },
            Some(Action::ClearMarks) => {
                self.app.clear_marks();
                proof { Self::lemma_marks_in_range(self.app, before); }
                self.close_invalid_comparison();
            },
            Some(Action::ToggleMarkedOnly) => {
                self.app.toggle_marked_only();
                proof { lemma_refocused_in_range(before.filtered@, before.selected as int, self.app.filtered@); }
                self.close_invalid_comparison();
            },
            Some(a) => match change_for(a) {
                Some(change) => {
                    match self.view {
                        BrowserView::Compare(state) => {
                            let mut changed = state;
                            changed.mutate_view(change);
                            self.view = BrowserView::Compare(changed);
                        },
                        _ => {},
                    }
                },
                None => self.handle_shared_action(a),
            },
            None => {},
        }
    }
}

/// The effect of a key in search mode.
pub open spec fn search_step(after: Browser, before: Browser, action: Option<Action>, key: KeyEvent) -> bool {
    let with_app = Browser { app: after.app, ..before };
    let query = before.app.query@;
    match action {
        Some(Action::CancelSearch) => search_cancelled(after.app, before.app) && after == with_app,
        Some(Action::CommitSearch) => search_committed(after.app, before.app) && after == with_app,
        Some(Action::DeleteSearchCharacter) => query_edited(
            after.app,
            before.app,
            if query.len() > 0 { query.drop_last() } else { query },
        ) && after == with_app,
        None => match key.code {
            KeyCode::Char(c) => if !key.modifiers.control && !key.modifiers.alt {
                query_edited(after.app, before.app, query.push(c)) && after == with_app
            } else {
                after == before
            },
            _ => after == before,
        },
        _ => after == before,
    }
}

/// Whether a key is pressed, repeated or released.
#[derive(Clone, Copy, Debug, PartialEq, Eq, Structural)]
pub enum KeyKind {
    Press,
    Repeat,
    Release,
}

/// An input event of the terminal.
#[derive(Clone, Copy, Debug, PartialEq, Eq, Structural)]
pub enum BrowserEvent {
    Key(KeyEvent, KeyKind),
    Resize,
    Other,
}

/// The context in which keys are read for a view and input mode.
pub open spec fn context_for(view: BrowserView, mode: InputMode) -> ActionContext {
    match view {
        BrowserView::Inspect(_) => ActionContext::Inspect,
        BrowserView::Compare(_) => ActionContext::Compare,
        BrowserView::Grid => match mode {
            InputMode::Normal => ActionContext::Normal,
            InputMode::Search => ActionContext::Search,
        },
    }
}

/// The action a table binds to a key event in a context.
pub open spec fn bound_action(
    table: Map<(ActionContext, crate::actions::KeyChord), Action>,
    context: ActionContext,
    key: KeyEvent,
) -> Option<Action> {
    let slot = (context, crate::actions::chord_of_event(key));
    if table.contains_key(slot) {
        Some(table[slot])
    } else {
        None
    }
}

/// The effect of a key while the help overlay is shown: the help, cancel and close actions or
/// Esc close it, quitting stops, and every other key is ignored.
pub open spec fn help_step(after: Browser, before: Browser, action: Option<Action>, key: KeyEvent) -> bool {
    match action {
        Some(Action::ToggleHelp) | Some(Action::CancelSearch) | Some(Action::CloseInspect) => after
            == Browser { show_help: false, ..before },
        Some(Action::Quit) => after == Browser { running: false, ..before },
        _ => if key.code == KeyCode::Esc {
            after == Browser { show_help: false, ..before }
        } else {
            after == before
        },
    }
}

/// The effect of a terminal event. A resize asks for a redraw; a released key and other events
/// are ignored; Ctrl+c always stops; other keys go through the help overlay when it is shown,
/// else to the current view.
pub open spec fn event_step(after: Browser, before: Browser, event: BrowserEvent) -> bool {
    match event {
        BrowserEvent::Resize => after == before,
        BrowserEvent::Other => after == before,
        BrowserEvent::Key(key, kind) => if kind == KeyKind::Release {
            after == before
        } else if key.modifiers.control && key.code == KeyCode::Char('c') {
            after == Browser { running: false, ..before }
        } else {
            let action = bound_action(
                before.bindings.table(),
                context_for(before.view, before.app.mode),
                key,
            );
            if before.show_help {
                help_step(after, before, action, key)
            } else {
                match before.view {
                    BrowserView::Inspect(_) => inspect_step(after, before, action),
                    BrowserView::Compare(_) => compare_step(after, before, action),
                    BrowserView::Grid => match before.app.mode {
                        InputMode::Normal => normal_step(after, before, action),
                        InputMode::Search => search_step(after, before, action, key),
                    },
                }
            }
        },
    }
}

/// Whether an event asks for a redraw: a resize does, a handled key does while the session
/// keeps running, and nothing else does.
pub open spec fn event_redraws(after: Browser, event: BrowserEvent) -> bool {
    match event {
        BrowserEvent::Resize => true,
        BrowserEvent::Other => false,
        BrowserEvent::Key(key, kind) => kind != KeyKind::Release && !(key.modifiers.control && key.code
            == KeyCode::Char('c')) && after.running,
    }
}

impl Browser {
    /// Carries out a key in search mode: cancel, apply, delete, or type a character.
    pub fn handle_search_key(&mut self, action: Option<Action>, key: KeyEvent)
        requires
            old(self).wf(),
        ensures
            final(self).wf(),
            search_step(*final(self), *old(self), action, key),
    {
        let ghost before = self.app;
        match action {
            Some(Action::CancelSearch) => {
                self.app.cancel_search();
                proof { lemma_refocused_in_range(before.filtered@, before.selected as int, self.app.filtered@); }
            },
            Some(Action::CommitSearch) => self.app.commit_search(),
            Some(Action::DeleteSearchCharacter) => {
                self.app.pop_search();
                proof { lemma_refocused_in_range(before.filtered@, before.selected as int, self.app.filtered@); }
            },
            None => {
                match key.code {
                    KeyCode::Char(c) => {
                        if !key.modifiers.control && !key.modifiers.alt {
                            self.app.push_search(c);
                            proof { lemma_refocused_in_range(before.filtered@, before.selected as int, self.app.filtered@); }
                        }
                    },
                    _ => {},
                }
            },
            _ => {},
        }
    }

    /// Carries out a terminal event and tells whether the screen should be redrawn.
    pub fn handle_event(&mut self, event: BrowserEvent) -> (redraw: bool)
        requires
            old(self).wf(),
        ensures
            final(self).wf(),
            event_step(*final(self), *old(self), event),
            redraw == event_redraws(*final(self), event),
    {
        let (key, kind) = match event {
            BrowserEvent::Key(key, kind) => (key, kind),
            BrowserEvent::Resize => {
                return true;
            },
            BrowserEvent::Other => {
                return false;
            },
        };
        if kind == KeyKind::Release {
            return false;
        }
        if key.modifiers.control && key.code == KeyCode::Char('c') {
            self.running = false;
            return false;
        }
        let context = match self.view {
            BrowserView::Inspect(_) => ActionContext::Inspect,
            BrowserView::Compare(_) => ActionContext::Compare,
            BrowserView::Grid => match self.app.mode {
                InputMode::Normal => ActionContext::Normal,
                InputMode::Search => ActionContext::Search,
            },
        };
        let action = self.bindings.action(context, key);
        proof {
            if let Some(a) = action {
                let slot = (context, crate::actions::chord_of_event(key));
                assert(self.bindings.table().contains_key(slot));
            }
        }
        if self.show_help {
            match action {
                Some(Action::ToggleHelp) | Some(Action::CancelSearch) | Some(Action::CloseInspect) => {
                    self.show_help = false;
                },
                Some(Action::Quit) => self.running = false,
                _ => {
                    if key.code == KeyCode::Esc {
                        self.show_help = false;
                    }
                },
            }
            return self.running;
        }
        match self.view {
            BrowserView::Inspect(_) => self.handle_inspect_action(action),
            BrowserView::Compare(_) => self.handle_compare_action(action),
            BrowserView::Grid => match self.app.mode {
                InputMode::Normal => self.handle_normal_action(action),
                InputMode::Search => self.handle_search_key(action, key),
            },
        }
        self.running
    }
}

/// Opening the inspection of the focused image and closing it again returns to the grid with the
/// image list, focus and scrolling unchanged.
pub proof fn law_inspection_round_trip_keeps_the_grid(before: Browser, opened: Browser, closed: Browser)
    requires
        before.view == BrowserView::Grid,
        before.app.selected < before.app.filtered@.len(),
        normal_step(opened, before, Some(Action::OpenInspect)),
        inspect_step(closed, opened, Some(Action::CloseInspect)),
    ensures
        closed.view == BrowserView::Grid,
        closed.app == before.app,
        closed.running == before.running,
{
}

/// Ctrl+c stops the session whatever the view, the mode, the bindings or the help overlay.
pub proof fn law_interrupt_always_stops(before: Browser, after: Browser, key: KeyEvent, kind: KeyKind)
    requires
        kind != KeyKind::Release,
        key.modifiers.control,
        key.code == KeyCode::Char('c'),
        event_step(after, before, BrowserEvent::Key(key, kind)),
    ensures
        !after.running,
        after == (Browser { running: false, ..before }),
{
}

/// Quitting in selection mode cancels: the outcome carries no selection.
pub proof fn law_quitting_cancels_the_selection(before: Browser, after: Browser)
    requires
        before.view == BrowserView::Grid,
        !before.confirmed,
        normal_step(after, before, Some(Action::Quit)),
    ensures
        !after.running,
        !after.confirmed,
{
}

/// Confirming the selection ends the session with the marks confirmed only when the browser was
/// started to select; otherwise it changes nothing, in the grid, the inspection or the comparison.
pub proof fn law_confirming_needs_selection_mode(before: Browser, after: Browser)
    requires
        normal_step(after, before, Some(Action::ConfirmSelection))
            || inspect_step(after, before, Some(Action::ConfirmSelection))
            || compare_step(after, before, Some(Action::ConfirmSelection)),
    ensures
        before.selection_mode ==> after == (Browser { confirmed: true, running: false, ..before }),
        !before.selection_mode ==> after == before,
{
}

/// The inspection key of an image shown at `size` with a view's zoom and position.
pub open spec fn key_for(
    entry: crate::app::ImageEntry,
    size: Size,
    view: ViewState,
    background: BackgroundMode,
    quality: ThumbnailQuality,
) -> InspectionKey {
    InspectionKey {
        entry_id: entry.id,
        revision: entry.revision,
        width: size.width,
        height: size.height,
        zoom: view.zoom,
        center_x: view.center_x,
        center_y: view.center_y,
        background,
        quality,
    }
}

fn make_key(
    entry: &crate::app::ImageEntry,
    size: Size,
    view: ViewState,
    background: BackgroundMode,
    quality: ThumbnailQuality,
) -> (key: InspectionKey)
    ensures
        key == key_for(*entry, size, view, background, quality),
{
    InspectionKey {
        entry_id: entry.id,
        revision: entry.revision,
        width: size.width,
        height: size.height,
        zoom: view.zoom,
        center_x: view.center_x,
        center_y: view.center_y,
        background,
        quality,
    }
}

impl Browser {
    /// The view the inspection worker should prepare for `view`: the focused image at the
    /// inspection size, recorded as the current inspection key; none without a focused image.
    pub fn plan_inspection(&mut self, view: ViewState) -> (key: Option<InspectionKey>)
        requires
            old(self).wf(),
        ensures
            final(self).wf(),
            match key {
                Some(k) => old(self).app.selected < old(self).app.filtered@.len() && k == key_for(
                    old(self).app.entries@[old(self).app.filtered@[old(self).app.selected as int].0 as int],
                    old(self).inspection_size,
                    view,
                    old(self).background,
                    old(self).thumbnail_quality,
                ),
                None => old(self).app.selected >= old(self).app.filtered@.len(),
            },
            *final(self) == (Browser { inspection_key: key, ..*old(self) }),
    {
        match self.app.selected_entry() {
            None => {
                self.inspection_key = None;
                None
            },
            Some(entry) => {
                let key = make_key(entry, self.inspection_size, view, self.background, self.thumbnail_quality);
                self.inspection_key = Some(key);
                Some(key)
            },
        }
    }

    /// The views the two comparison workers should prepare: the reference at the inspection size
    /// and the focused candidate at the comparison size, recorded as the current keys. When the
    /// candidate is missing or is the reference, or the reference is not shown, the grid returns
    /// instead.
    pub fn plan_comparison(&mut self, state: CompareState) -> (keys: Option<(InspectionKey, InspectionKey)>)
        requires
            old(self).wf(),
        ensures
            final(self).wf(),
            ({
                let app = old(self).app;
                let shown = app.selected < app.filtered@.len() && app.filtered@[app.selected as int]
                    != state.reference_id && app.filtered@.contains(state.reference_id)
                    && state.reference_id.0 < app.entries@.len();
                match keys {
                    Some((reference, candidate)) => {
                        &&& shown
                        &&& reference == key_for(
                            app.entries@[state.reference_id.0 as int],
                            old(self).inspection_size,
                            state.reference_view,
                            old(self).background,
                            old(self).thumbnail_quality,
                        )
                        &&& candidate == key_for(
                            app.entries@[app.filtered@[app.selected as int].0 as int],
                            old(self).comparison_size,
                            state.candidate_view,
                            old(self).background,
                            old(self).thumbnail_quality,
                        )
                        &&& *final(self) == (Browser {
                            inspection_key: Some(reference),
                            comparison_key: Some(candidate),
                            ..*old(self)
                        })
                    },
                    None => !shown && *final(self) == (Browser { view: BrowserView::Grid, ..*old(self) }),
                }
            }),
    {
        proof {
            if self.app.selected < self.app.filtered@.len() {
                self.app.lemma_filtered_ids_known();
            }
        }
        let candidate = match self.app.selected_entry() {
            None => {
                self.view = BrowserView::Grid;
                return None;
            },
            Some(entry) => entry,
        };
        if candidate.id == state.reference_id || !crate::app::contains_id(self.app.filtered.as_slice(), state.reference_id) {
            self.view = BrowserView::Grid;
            return None;
        }
        let candidate_key = make_key(candidate, self.comparison_size, state.candidate_view, self.background, self.thumbnail_quality);
        let reference = match self.app.entry(state.reference_id) {
            None => {
                self.view = BrowserView::Grid;
                return None;
            },
            Some(entry) => entry,
        };
        let reference_key = make_key(reference, self.inspection_size, state.reference_view, self.background, self.thumbnail_quality);
        self.inspection_key = Some(reference_key);
        self.comparison_key = Some(candidate_key);
        Some((reference_key, candidate_key))
    }
}

} // verus!
