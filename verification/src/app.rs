//! The browsing model: discovered images, the filtered view, focus, scrolling and marks.

use vstd::prelude::*;
use vstd::hash_map::StringHashMap;

use crate::text::{
    chars_of, contains_chars, contains_text, lemma_position_of, lemma_position_of_found,
    lossy_text, lowercase, position_of, string_of, to_lowercase, utf8_lossy,
};

verus! {

/// A stable identity of a discovered image, independent of filtering.
#[derive(Clone, Copy, Debug, PartialEq, Eq, Hash, Structural)]
pub struct EntryId(pub u64);

/// The size and modification time that identify one version of a source file.
#[derive(Clone, Copy, Debug, PartialEq, Eq, Hash, Structural)]
pub struct SourceRevision {
    pub size: u64,
    pub modified_nanoseconds: i128,
}

impl Default for SourceRevision {
    fn default() -> (revision: Self)
        ensures
            revision.size == 0 && revision.modified_nanoseconds == 0,
    {
        SourceRevision { size: 0, modified_nanoseconds: 0 }
    }
}

/// Whether keys navigate the grid or edit the search query.
#[derive(Clone, Copy, Debug, PartialEq, Eq, Structural)]
pub enum InputMode {
    Normal,
    Search,
}

/// One discovered image.
#[derive(Debug)]
pub struct ImageEntry {
    pub id: EntryId,
    pub revision: SourceRevision,
    /// The full path as raw bytes.
    pub path: Vec<u8>,
    /// The file name shown below the thumbnail.
    pub label: String,
    /// The lowercase path relative to the browsed root, matched by searches.
    pub search_key: Vec<char>,
}

/// Names what std's `Path::file_name` returns for a path given as text.
pub uninterp spec fn path_file_name(path: Seq<char>) -> Option<Seq<char>>;

/// Names what std's `Path::strip_prefix` returns for two paths given as text.
pub uninterp spec fn path_strip_prefix(path: Seq<char>, base: Seq<char>) -> Option<Seq<char>>;

/// Names what std's `Path::extension` returns for a path given as text.
pub uninterp spec fn path_extension(path: Seq<char>) -> Option<Seq<char>>;

/// The final component of a path (std's `Path::file_name`); the contract only names it.
#[verifier::external_body]
fn file_name_of(path: &str) -> (out: Option<String>)
    ensures
        match out {
            Some(name) => path_file_name(path@) == Some(name@),
            None => path_file_name(path@) is None,
        },
{
    std::path::Path::new(path).file_name().map(|name| name.to_string_lossy().into_owned())
}

/// The path relative to `base` (std's `Path::strip_prefix`); the contract only names it.
#[verifier::external_body]
fn strip_path_prefix(path: &str, base: &str) -> (out: Option<String>)
    ensures
        match out {
            Some(rest) => path_strip_prefix(path@, base@) == Some(rest@),
            None => path_strip_prefix(path@, base@) is None,
        },
{
    std::path::Path::new(path).strip_prefix(base).ok().map(|rest| rest.to_string_lossy().into_owned())
}

/// The extension of a path (std's `Path::extension`); the contract only names it.
#[verifier::external_body]
fn extension_of(path: &str) -> (out: Option<String>)
    ensures
        match out {
            Some(ext) => path_extension(path@) == Some(ext@),
            None => path_extension(path@) is None,
        },
{
    std::path::Path::new(path).extension().map(|ext| ext.to_string_lossy().into_owned())
}

/// The bytes of a text with one character per byte: each character's code, cut to a byte.
pub open spec fn latin1_bytes(text: Seq<char>) -> Seq<u8> {
    Seq::new(text.len(), |i: int| (text[i] as u32) as u8)
}

/// The label of an image: its file name, or the whole path when it has none, as lossy text.
/// Paths reach std's `Path` as text with one character per byte (`byte_key`), so that its
/// components are those of the raw bytes, and come back to bytes with `latin1_bytes`.
pub open spec fn entry_label(path: Seq<u8>) -> Seq<char> {
    utf8_lossy(
        match path_file_name(byte_key(path)) {
            Some(name) => latin1_bytes(name),
            None => path,
        },
    )
}

/// The search key of an image: its path relative to the root (or the whole path outside the
/// root), taken on the raw bytes, then as lossy text, lowercased.
pub open spec fn entry_search_key(root: Seq<u8>, path: Seq<u8>) -> Seq<char> {
    lowercase(
        utf8_lossy(
            match path_strip_prefix(byte_key(path), byte_key(root)) {
                Some(relative) => latin1_bytes(relative),
                None => path,
            },
        ),
    )
}

/// The bytes of a text with one character per byte.
fn latin1_bytes_of(text: &str) -> (out: Vec<u8>)
    ensures
        out@ == latin1_bytes(text@),
{
    let chars = chars_of(text);
    let mut out: Vec<u8> = Vec::new();
    let mut i: usize = 0;
    while i < chars.len()
        invariant
            i <= chars@.len(),
            chars@ == text@,
            out@ =~= latin1_bytes(chars@.take(i as int)),
        decreases chars.len() - i,
    {
        let code: u32 = chars[i] as u32;
        out.push(code as u8);
        i = i + 1;
        assert(out@ =~= latin1_bytes(chars@.take(i as int)));
    }
    assert(chars@.take(i as int) =~= chars@);
    out
}

/// A lossless text key for raw path bytes: each byte becomes the character of the same code.
pub open spec fn byte_key(bytes: Seq<u8>) -> Seq<char> {
    Seq::new(bytes.len(), |i: int| bytes[i] as char)
}

proof fn lemma_byte_key_injective(a: Seq<u8>, b: Seq<u8>)
    requires
        byte_key(a) == byte_key(b),
    ensures
        a == b,
{
    assert(a.len() == byte_key(a).len());
    assert forall|i: int| 0 <= i < a.len() implies a[i] == b[i] by {
        assert(byte_key(a)[i] == a[i] as char);
        assert(byte_key(b)[i] == b[i] as char);
    }
    assert(a =~= b);
}

fn byte_key_of(bytes: &[u8]) -> (key: String)
    ensures
        key@ == byte_key(bytes@),
{
    let mut chars: Vec<char> = Vec::new();
    let mut i: usize = 0;
    while i < bytes.len()
        invariant
            i <= bytes@.len(),
            chars@ =~= byte_key(bytes@.take(i as int)),
        decreases bytes.len() - i,
    {
        chars.push(bytes[i] as char);
        i = i + 1;
        assert(chars@ =~= byte_key(bytes@.take(i as int)));
    }
    assert(bytes@.take(i as int) =~= bytes@);
    string_of(chars.as_slice())
}

/// The extensions of the supported image formats, lowercase.
pub open spec fn is_supported_extension(ext: Seq<char>) -> bool {
    ext == "jpg"@ || ext == "jpeg"@ || ext == "png"@ || ext == "gif"@ || ext == "webp"@
        || ext == "tif"@ || ext == "tiff"@ || ext == "bmp"@
}

/// The ASCII lowercase form of a character; other characters are kept.
pub open spec fn ascii_lower(c: char) -> char {
    if 'A' <= c <= 'Z' {
        ((c as u32) + 32) as char
    } else {
        c
    }
}

/// The ASCII lowercase form of a text (std's `to_ascii_lowercase`).
pub open spec fn ascii_lowercase(s: Seq<char>) -> Seq<char> {
    Seq::new(s.len(), |i: int| ascii_lower(s[i]))
}

/// The ASCII lowercase form of a character.
pub fn ascii_lower_char(c: char) -> (out: char)
    ensures
        out == ascii_lower(c),
{
    if 'A' <= c && c <= 'Z' {
        ((c as u32) + 32) as u8 as char
    } else {
        c
    }
}

/// The ASCII lowercase form of a text.
pub fn ascii_lowercase_chars(s: &[char]) -> (out: Vec<char>)
    ensures
        out@ == ascii_lowercase(s@),
{
    let mut out: Vec<char> = Vec::new();
    let mut i: usize = 0;
    while i < s.len()
        invariant
            i <= s@.len(),
            out@ =~= ascii_lowercase(s@.take(i as int)),
        decreases s.len() - i,
    {
        out.push(ascii_lower_char(s[i]));
        i = i + 1;
        assert(out@ =~= ascii_lowercase(s@.take(i as int)));
    }
    assert(s@.take(i as int) =~= s@);
    out
}

/// Whether a path names a supported image: its extension, taken byte for byte and
/// ASCII-lowercased, is one of jpg, jpeg, png, gif, webp, tif, tiff or bmp.
pub open spec fn supported_image(path: Seq<u8>) -> bool {
    match path_extension(byte_key(path)) {
        Some(ext) => is_supported_extension(ascii_lowercase(ext)),
        None => false,
    }
}

/// Whether a path names a supported image, by its extension and regardless of case.
pub fn is_supported_image(path: &[u8]) -> (supported: bool)
    ensures
        supported == supported_image(path@),
{
    let text = byte_key_of(path);
    match extension_of(text.as_str()) {
        None => false,
        Some(ext) => {
            let e = chars_of(ext.as_str());
            let lower = ascii_lowercase_chars(e.as_slice());
            let l = lower.as_slice();
            is_chars(l, "jpg") || is_chars(l, "jpeg") || is_chars(l, "png") || is_chars(l, "gif")
                || is_chars(l, "webp") || is_chars(l, "tif") || is_chars(l, "tiff") || is_chars(l, "bmp")
        },
    }
}

fn is_chars(s: &[char], literal: &str) -> (eq: bool)
    ensures
        eq == (s@ == literal@),
{
    let l = chars_of(literal);
    crate::text::chars_equal(s, l.as_slice())
}

/// Whether an entry passes the search and the marked-only filter: an empty query lets every
/// entry through, otherwise its search key must contain the lowercased query.
pub open spec fn entry_matches(
    entry: ImageEntry,
    query: Seq<char>,
    marks: Seq<EntryId>,
    marked_only: bool,
) -> bool {
    (query.len() == 0 || contains_text(entry.search_key@, lowercase(query))) && (!marked_only
        || marks.contains(entry.id))
}

/// The ids of the entries that pass the filters, in discovery order.
pub open spec fn matching_ids(
    entries: Seq<ImageEntry>,
    query: Seq<char>,
    marks: Seq<EntryId>,
    marked_only: bool,
) -> Seq<EntryId>
    decreases entries.len(),
{
    if entries.len() == 0 {
        Seq::empty()
    } else {
        let rest = matching_ids(entries.drop_last(), query, marks, marked_only);
        if entry_matches(entries.last(), query, marks, marked_only) {
            rest.push(entries.last().id)
        } else {
            rest
        }
    }
}

/// The marks after adding, in order, each id of `ids` that is not marked yet.
pub open spec fn marks_with(marks: Seq<EntryId>, ids: Seq<EntryId>) -> Seq<EntryId>
    decreases ids.len(),
{
    if ids.len() == 0 {
        marks
    } else {
        let before = marks_with(marks, ids.drop_last());
        if before.contains(ids.last()) {
            before
        } else {
            before.push(ids.last())
        }
    }
}

/// The smallest value of a count that treats zero as one.
pub open spec fn at_least_one(n: int) -> int {
    if n < 1 {
        1
    } else {
        n
    }
}

/// Subtraction that stops at zero.
pub open spec fn saturating_sub(a: int, b: int) -> int {
    if a >= b {
        a - b
    } else {
        0
    }
}

/// Multiplication that stops at `usize::MAX`.
pub open spec fn saturating_mul(a: int, b: int) -> int {
    if a * b > usize::MAX {
        usize::MAX as int
    } else {
        a * b
    }
}

/// The smaller of two integers.
pub open spec fn min(a: int, b: int) -> int {
    if a <= b {
        a
    } else {
        b
    }
}

/// The focus after re-filtering: the previously focused image where it is still shown, else the
/// old position clamped to the new list.
pub open spec fn refocused(old_filtered: Seq<EntryId>, old_selected: int, new_filtered: Seq<EntryId>) -> int {
    let kept = if 0 <= old_selected < old_filtered.len() {
        position_of(new_filtered, old_filtered[old_selected])
    } else {
        None
    };
    match kept {
        Some(position) => position,
        None => min(old_selected, saturating_sub(new_filtered.len() as int, 1)),
    }
}

/// The grid browsing state.
pub struct App {
    /// The browsed root directory as raw bytes.
    pub root: Vec<u8>,
    /// Every discovered image; the position of an entry is its id.
    pub entries: Vec<ImageEntry>,
    /// The ids shown in the grid, in discovery order.
    pub filtered: Vec<EntryId>,
    /// The focused position in `filtered`.
    pub selected: usize,
    /// The first visible grid row.
    pub row_offset: usize,
    /// The search query.
    pub query: String,
    pub mode: InputMode,
    pub scan_done: bool,
    pub scan_errors: usize,
    pub thumbnail_errors: usize,
    pub mark_order: Vec<EntryId>,
    pub mark_anchor: Option<EntryId>,
    pub marked_only: bool,
    pub query_before_edit: String,
    pub path_ids: StringHashMap<u64>,
}

impl App {
    /// The marked ids in the order they were marked.
    pub open spec fn marks(&self) -> Seq<EntryId> {
        self.mark_order@
    }

    /// The id that anchors range marking.
    pub open spec fn anchor(&self) -> Option<EntryId> {
        self.mark_anchor
    }

    /// Whether only marked images are shown.
    pub open spec fn only_marked(&self) -> bool {
        self.marked_only
    }

    /// The query to restore when a search is cancelled.
    pub open spec fn saved_query(&self) -> Seq<char> {
        self.query_before_edit@
    }

    /// The ids that the current query and marks let through.
    pub open spec fn expected_filter(&self) -> Seq<EntryId> {
        matching_ids(self.entries@, self.query@, self.marks(), self.only_marked())
    }

    /// The state's invariant: ids are positions, paths are distinct and indexed, labels and
    /// search keys derive from the paths, marks are distinct known ids, and the filtered list
    /// is exactly what the query and marks let through.
    pub open spec fn wf(&self) -> bool {
        &&& self.base_wf()
        &&& self.filtered@ == self.expected_filter()
    }

    /// The invariant apart from the consistency of the filtered list.
    pub open spec fn base_wf(&self) -> bool {
        &&& forall|i: int| 0 <= i < self.entries@.len() ==> (#[trigger] self.entries@[i]).id == EntryId(i as u64)
        &&& self.entries@.len() <= u64::MAX
        &&& forall|i: int, j: int| 0 <= i < j < self.entries@.len()
            ==> (#[trigger] self.entries@[i]).path@ != (#[trigger] self.entries@[j]).path@
        &&& forall|i: int| 0 <= i < self.entries@.len() ==> {
            &&& self.path_ids@.contains_key(byte_key((#[trigger] self.entries@[i]).path@))
            &&& self.path_ids@[byte_key(self.entries@[i].path@)] == i
            &&& self.entries@[i].label@ == entry_label(self.entries@[i].path@)
            &&& self.entries@[i].search_key@ == entry_search_key(self.root@, self.entries@[i].path@)
        }
        &&& forall|k: Seq<char>| #[trigger] self.path_ids@.contains_key(k) ==> {
            &&& self.path_ids@[k] < self.entries@.len()
            &&& byte_key(self.entries@[self.path_ids@[k] as int].path@) == k
        }
        &&& self.mark_order@.no_duplicates()
        &&& forall|k: int| 0 <= k < self.mark_order@.len() ==> (#[trigger] self.mark_order@[k]).0 < self.entries@.len()
    }

    /// Everything but the filtered list, focus and scrolling is equal.
    pub open spec fn same_except_view(&self, other: &App) -> bool {
        &&& self.root@ == other.root@
        &&& self.entries@ == other.entries@
        &&& self.query@ == other.query@
        &&& self.mode == other.mode
        &&& self.scan_done == other.scan_done
        &&& self.scan_errors == other.scan_errors
        &&& self.thumbnail_errors == other.thumbnail_errors
        &&& self.marks() == other.marks()
        &&& self.anchor() == other.anchor()
        &&& self.only_marked() == other.only_marked()
        &&& self.saved_query() == other.saved_query()
    }

    /// `self` is `before` with the filter rebuilt: the list recomputed, the focus kept on the same
    /// image where possible, and scrolling reset when nothing is shown.
    pub open spec fn refiltered_from(&self, before: &App) -> bool {
        &&& self.filtered@ == self.expected_filter()
        &&& self.selected == refocused(before.filtered@, before.selected as int, self.filtered@)
        &&& self.row_offset == (if self.filtered@.len() == 0 { 0 } else { before.row_offset })
    }

    /// An empty browser for `root`.
    pub fn new(root: Vec<u8>) -> (app: Self)
        ensures
            app.wf(),
            app.root@ == root@,
            app.entries@.len() == 0,
            app.filtered@.len() == 0,
            app.selected == 0,
            app.row_offset == 0,
            app.query@.len() == 0,
            app.mode == InputMode::Normal,
            !app.scan_done,
            app.scan_errors == 0,
            app.thumbnail_errors == 0,
            app.marks().len() == 0,
            app.anchor() is None,
            !app.only_marked(),
            app.saved_query().len() == 0,
    {
        App {
            root,
            entries: Vec::new(),
            filtered: Vec::new(),
            selected: 0,
            row_offset: 0,
            query: String::new(),
            mode: InputMode::Normal,
            scan_done: false,
            scan_errors: 0,
            thumbnail_errors: 0,
            mark_order: Vec::new(),
            mark_anchor: None,
            marked_only: false,
            query_before_edit: String::new(),
            path_ids: StringHashMap::new(),
        }
    }
}

} // verus!

verus! {

/// The position of the first occurrence of `id` in `ids`.
pub fn position_in(ids: &[EntryId], id: EntryId) -> (out: Option<usize>)
    ensures
        match out {
            Some(p) => position_of(ids@, id) == Some(p as int),
            None => position_of(ids@, id) is None,
        },
{
    let mut i: usize = 0;
    while i < ids.len()
        invariant
            i <= ids@.len(),
            forall|j: int| 0 <= j < i ==> #[trigger] ids@[j] != id,
        decreases ids.len() - i,
    {
        if ids[i] == id {
            proof {
                lemma_position_of(ids@, id, i as int);
            }
            return Some(i);
        }
        i = i + 1;
    }
    proof {
        lemma_position_of(ids@, id, i as int);
    }
    None
}

/// Whether `id` occurs in `ids`.
pub fn contains_id(ids: &[EntryId], id: EntryId) -> (found: bool)
    ensures
        found == ids@.contains(id),
{
    let p = position_in(ids, id);
    proof {
        lemma_position_of_found(ids@, id);
    }
    p.is_some()
}

/// A copy of a byte vector.
pub fn copy_bytes(v: &Vec<u8>) -> (out: Vec<u8>)
    ensures
        out@ == v@,
{
    let out = v.clone();
    assert(out@ =~= v@);
    out
}

fn min_usize(a: usize, b: usize) -> (m: usize)
    ensures
        m == min(a as int, b as int),
{
    if a <= b {
        a
    } else {
        b
    }
}

impl App {
    /// The entry with the given id.
    pub fn entry(&self, id: EntryId) -> (out: Option<&ImageEntry>)
        requires
            self.wf(),
        ensures
            match out {
                Some(e) => id.0 < self.entries@.len() && *e == self.entries@[id.0 as int],
                None => id.0 >= self.entries@.len(),
            },
    {
        if id.0 < self.entries.len() as u64 {
            Some(&self.entries[id.0 as usize])
        } else {
            None
        }
    }

    /// The entry at the focused grid position.
    pub fn selected_entry(&self) -> (out: Option<&ImageEntry>)
        requires
            self.wf(),
        ensures
            match out {
                Some(e) => self.selected < self.filtered@.len() && *e == self.entries@[self.filtered@[self.selected as int].0 as int],
                None => self.selected >= self.filtered@.len(),
            },
    {
        proof {
            self.lemma_filtered_ids_known();
        }
        if self.selected < self.filtered.len() {
            self.entry(self.filtered[self.selected])
        } else {
            None
        }
    }

    /// Whether an image is marked.
    pub fn is_marked(&self, id: EntryId) -> (marked: bool)
        ensures
            marked == self.marks().contains(id),
    {
        contains_id(self.mark_order.as_slice(), id)
    }

    /// How many images are marked.
    pub fn marked_count(&self) -> (count: usize)
        ensures
            count == self.marks().len(),
    {
        self.mark_order.len()
    }

    /// Whether only marked images are shown.
    pub fn marked_only(&self) -> (only: bool)
        ensures
            only == self.only_marked(),
    {
        self.marked_only
    }

    /// The full paths of the marked images, in the order they were marked.
    pub fn marked_paths(&self) -> (paths: Vec<Vec<u8>>)
        requires
            self.wf(),
        ensures
            paths@.len() == self.marks().len(),
            forall|k: int| 0 <= k < paths@.len()
                ==> (#[trigger] paths@[k])@ == self.entries@[self.marks()[k].0 as int].path@,
    {
        let mut paths: Vec<Vec<u8>> = Vec::new();
        let mut k: usize = 0;
        while k < self.mark_order.len()
            invariant
                self.wf(),
                k <= self.mark_order@.len(),
                paths@.len() == k,
                forall|m: int| 0 <= m < k
                    ==> (#[trigger] paths@[m])@ == self.entries@[self.mark_order@[m].0 as int].path@,
            decreases self.mark_order.len() - k,
        {
            let id = self.mark_order[k];
            let n = self.entries.len();
            assert(id.0 < self.entries@.len());
            let position = id.0 as usize;
            paths.push(copy_bytes(&self.entries[position].path));
            k = k + 1;
        }
        paths
    }

    /// Every filtered id names an entry.
    pub proof fn lemma_filtered_ids_known(&self)
        requires
            self.wf(),
        ensures
            forall|k: int| 0 <= k < self.filtered@.len() ==> (#[trigger] self.filtered@[k]).0 < self.entries@.len(),
    {
        lemma_matching_ids_known(self.entries@, self.query@, self.marks(), self.only_marked());
    }

    /// Recomputes the filtered list after the query or the marks changed, keeping the focus on
    /// the same image where it is still shown.
    fn rebuild_filter(&mut self)
        requires
            old(self).base_wf(),
        ensures
            final(self).wf(),
            final(self).refiltered_from(&*old(self)),
            final(self).same_except_view(&*old(self)),
    {
        let selected_id = if self.selected < self.filtered.len() {
            Some(self.filtered[self.selected])
        } else {
            None
        };
        let old_position = self.selected;
        let query_empty = self.query.as_str().is_empty();
        let needle_text = to_lowercase(self.query.as_str());
        let needle = chars_of(needle_text.as_str());
        let mut filtered: Vec<EntryId> = Vec::new();
        let mut i: usize = 0;
        while i < self.entries.len()
            invariant
                i <= self.entries@.len(),
                query_empty == (self.query@.len() == 0),
                needle@ == lowercase(self.query@),
                filtered@ == matching_ids(self.entries@.take(i as int), self.query@, self.marks(), self.only_marked()),
            decreases self.entries.len() - i,
        {
            let e = &self.entries[i];
            let found = query_empty || contains_chars(e.search_key.as_slice(), needle.as_slice());
            let keep = found && (!self.marked_only || self.is_marked(e.id));
            proof {
                assert(self.entries@.take(i + 1).drop_last() =~= self.entries@.take(i as int));
                assert(self.entries@.take(i + 1).last() == self.entries@[i as int]);
            }
            if keep {
                filtered.push(e.id);
            }
            i = i + 1;
        }
        assert(self.entries@.take(i as int) =~= self.entries@);
        self.filtered = filtered;
        let position = match selected_id {
            Some(id) => position_in(self.filtered.as_slice(), id),
            None => None,
        };
        self.selected = match position {
            Some(p) => p,
            None => min_usize(old_position, self.filtered.len().saturating_sub(1)),
        };
        if self.filtered.len() == 0 {
            self.row_offset = 0;
        }
    }
}

/// Every id that passes the filters names an entry, provided ids are positions.
pub proof fn lemma_matching_ids_known(entries: Seq<ImageEntry>, query: Seq<char>, marks: Seq<EntryId>, marked_only: bool)
    requires
        entries.len() <= u64::MAX,
        forall|i: int| 0 <= i < entries.len() ==> (#[trigger] entries[i]).id == EntryId(i as u64),
    ensures
        forall|k: int| 0 <= k < matching_ids(entries, query, marks, marked_only).len()
            ==> (#[trigger] matching_ids(entries, query, marks, marked_only)[k]).0 < entries.len(),
    decreases entries.len(),
{
    if entries.len() > 0 {
        let rest = entries.drop_last();
        assert forall|i: int| 0 <= i < rest.len() implies (#[trigger] rest[i]).id == EntryId(i as u64) by {
            assert(rest[i] == entries[i]);
        }
        lemma_matching_ids_known(rest, query, marks, marked_only);
        assert(entries.last() == entries[entries.len() - 1]);
        let m = matching_ids(entries, query, marks, marked_only);
        let r = matching_ids(rest, query, marks, marked_only);
        assert forall|k: int| 0 <= k < m.len() implies (#[trigger] m[k]).0 < entries.len() by {
            if k < r.len() {
                assert(m[k] == r[k]);
            } else {
                assert(m[k] == entries.last().id);
            }
        }
    }
}

} // verus!

verus! {

impl App {
    /// Records a discovered image and returns its id. A path seen before keeps its id and only
    /// takes the new revision; a new path becomes the last entry, labelled by its file name,
    /// searchable by its lowercase path relative to the root, and shown when the current query
    /// and marked-only filter let it through.
    pub fn add_path(&mut self, path: Vec<u8>, revision: SourceRevision) -> (id: EntryId)
        requires
            old(self).wf(),
            old(self).entries@.len() < u64::MAX,
        ensures
            final(self).wf(),
            final(self).same_except_entries(&*old(self)),
            (exists|i: int| 0 <= i < old(self).entries@.len() && old(self).entries@[i].path@ == path@) ==> {
                &&& id.0 < old(self).entries@.len()
                &&& old(self).entries@[id.0 as int].path@ == path@
                &&& final(self).entries@ == old(self).entries@.update(
                    id.0 as int,
                    ImageEntry { revision, ..old(self).entries@[id.0 as int] },
                )
                &&& final(self).filtered@ == old(self).filtered@
            },
            (forall|i: int| 0 <= i < old(self).entries@.len() ==> old(self).entries@[i].path@ != path@) ==> {
                &&& id == EntryId(old(self).entries@.len() as u64)
                &&& final(self).entries@.len() == old(self).entries@.len() + 1
                &&& final(self).entries@.drop_last() == old(self).entries@
                &&& final(self).entries@.last().id == id
                &&& final(self).entries@.last().revision == revision
                &&& final(self).entries@.last().path@ == path@
                &&& final(self).entries@.last().label@ == entry_label(path@)
                &&& final(self).entries@.last().search_key@ == entry_search_key(old(self).root@, path@)
                &&& final(self).filtered@ == (if entry_matches(
                    final(self).entries@.last(),
                    old(self).query@,
                    old(self).marks(),
                    old(self).only_marked(),
                ) {
                    old(self).filtered@.push(id)
                } else {
                    old(self).filtered@
                })
            },
    {
        let key = byte_key_of(path.as_slice());
        let found = match self.path_ids.get(key.as_str()) {
            Some(position) => Some(*position),
            None => None,
        };
        if let Some(position) = found {
            let n = self.entries.len();
            assert(self.path_ids@.contains_key(key@));
            assert(position == self.path_ids@[key@]);
            assert(position < self.entries@.len());
            let p = position as usize;
            proof {
                assert(byte_key(self.entries@[p as int].path@) == key@);
                lemma_byte_key_injective(self.entries@[p as int].path@, path@);
            }
            self.entries[p].revision = revision;
            proof {
                assert(self.entries@ =~= old(self).entries@.update(
                    p as int,
                    ImageEntry { revision, ..old(self).entries@[p as int] },
                ));
                assert(matching_ids(self.entries@, self.query@, self.marks(), self.only_marked())
                    == matching_ids(old(self).entries@, self.query@, self.marks(), self.only_marked())) by {
                    lemma_matching_ids_ignore_revision(old(self).entries@, self.entries@, self.query@, self.marks(), self.only_marked());
                }
                assert forall|i: int| 0 <= i < self.entries@.len() implies {
                    &&& self.path_ids@.contains_key(byte_key((#[trigger] self.entries@[i]).path@))
                } by {
                    assert(self.entries@[i].path == old(self).entries@[i].path);
                }
                assert forall|i: int, j: int| 0 <= i < j < self.entries@.len()
                    implies (#[trigger] self.entries@[i]).path@ != (#[trigger] self.entries@[j]).path@ by {
                    assert(self.entries@[i].path == old(self).entries@[i].path);
                    assert(self.entries@[j].path == old(self).entries@[j].path);
                }
                assert forall|k: Seq<char>| #[trigger] self.path_ids@.contains_key(k) implies {
                    &&& self.path_ids@[k] < self.entries@.len()
                    &&& byte_key(self.entries@[self.path_ids@[k] as int].path@) == k
                } by {
                    assert(self.entries@[self.path_ids@[k] as int].path == old(self).entries@[self.path_ids@[k] as int].path);
                }
            }
            return EntryId(position);
        }
        proof {
            assert forall|i: int| 0 <= i < self.entries@.len() implies self.entries@[i].path@ != path@ by {
                assert(self.path_ids@.contains_key(byte_key(self.entries@[i].path@)));
            }
        }
        let id = EntryId(self.entries.len() as u64);
        let root_key = byte_key_of(self.root.as_slice());
        let relative = match strip_path_prefix(key.as_str(), root_key.as_str()) {
            Some(rest) => lossy_text(latin1_bytes_of(rest.as_str()).as_slice()),
            None => lossy_text(path.as_slice()),
        };
        let key_text = to_lowercase(relative.as_str());
        let search_key = chars_of(key_text.as_str());
        let label = match file_name_of(key.as_str()) {
            Some(name) => lossy_text(latin1_bytes_of(name.as_str()).as_slice()),
            None => lossy_text(path.as_slice()),
        };
        let query_empty = self.query.as_str().is_empty();
        let needle_text = to_lowercase(self.query.as_str());
        let needle = chars_of(needle_text.as_str());
        let matches = !self.marked_only && (query_empty || contains_chars(search_key.as_slice(), needle.as_slice()));
        let ghost old_entries = self.entries@;
        self.entries.push(ImageEntry { id, revision, path, label, search_key });
        proof {
            assert(self.entries@.drop_last() =~= old_entries);
            if self.marks().contains(id) {
                let k = choose|k: int| 0 <= k < self.marks().len() && self.marks()[k] == id;
                assert(self.mark_order@[k].0 < old_entries.len());
            }
        }
        if matches {
            self.filtered.push(id);
        }
        self.path_ids.insert(key, id.0);
        proof {
            let n = old_entries.len() as int;
            assert forall|i: int| 0 <= i < self.entries@.len() implies {
                &&& self.path_ids@.contains_key(byte_key((#[trigger] self.entries@[i]).path@))
                &&& self.path_ids@[byte_key(self.entries@[i].path@)] == i
            } by {
                if i < n {
                    assert(self.entries@[i] == old_entries[i]);
                    assert(byte_key(old_entries[i].path@) != byte_key(path@)) by {
                        if byte_key(old_entries[i].path@) == byte_key(path@) {
                            lemma_byte_key_injective(old_entries[i].path@, path@);
                        }
                    }
                }
            }
            assert forall|k: Seq<char>| #[trigger] self.path_ids@.contains_key(k) implies {
                &&& self.path_ids@[k] < self.entries@.len()
                &&& byte_key(self.entries@[self.path_ids@[k] as int].path@) == k
            } by {
                if k != byte_key(path@) {
                    assert(old(self).path_ids@.contains_key(k));
                    assert(self.entries@[self.path_ids@[k] as int] == old_entries[self.path_ids@[k] as int]);
                }
            }
            assert forall|k: int| 0 <= k < self.mark_order@.len() implies (#[trigger] self.mark_order@[k]).0 < self.entries@.len() by {
                assert(old(self).mark_order@[k].0 < old_entries.len());
            }
        }
        id
    }

    /// Everything but the entries and the filtered list is equal.
    pub open spec fn same_except_entries(&self, other: &App) -> bool {
        &&& self.root@ == other.root@
        &&& self.selected == other.selected
        &&& self.row_offset == other.row_offset
        &&& self.query@ == other.query@
        &&& self.mode == other.mode
        &&& self.scan_done == other.scan_done
        &&& self.scan_errors == other.scan_errors
        &&& self.thumbnail_errors == other.thumbnail_errors
        &&& self.marks() == other.marks()
        &&& self.anchor() == other.anchor()
        &&& self.only_marked() == other.only_marked()
        &&& self.saved_query() == other.saved_query()
    }
}

/// The filter does not look at revisions.
proof fn lemma_matching_ids_ignore_revision(
    a: Seq<ImageEntry>,
    b: Seq<ImageEntry>,
    query: Seq<char>,
    marks: Seq<EntryId>,
    marked_only: bool,
)
    requires
        a.len() == b.len(),
        forall|i: int| 0 <= i < a.len() ==> (#[trigger] a[i]).id == b[i].id && a[i].search_key == b[i].search_key,
    ensures
        matching_ids(a, query, marks, marked_only) == matching_ids(b, query, marks, marked_only),
    decreases a.len(),
{
    if a.len() > 0 {
        lemma_matching_ids_ignore_revision(a.drop_last(), b.drop_last(), query, marks, marked_only);
        assert(a.last() == a[a.len() - 1]);
        assert(b.last() == b[b.len() - 1]);
    }
}

} // verus!

verus! {

/// The number of grid rows that `len` images fill with `columns` per row (division rounding up).
pub open spec fn row_count(len: int, columns: int) -> int {
    len / columns + (if len % columns != 0 { 1int } else { 0int })
}

/// The first visible grid row that keeps `selected` in view and does not scroll past the end.
pub open spec fn scrolled_offset(selected: int, row_offset: int, columns: int, rows: int, len: int) -> int {
    let c = at_least_one(columns);
    let r = at_least_one(rows);
    let selected_row = selected / c;
    let offset = if selected_row < row_offset {
        selected_row
    } else if selected_row >= row_offset + r {
        selected_row - r + 1
    } else {
        row_offset
    };
    min(offset, saturating_sub(row_count(len, c), r))
}

fn at_least_one_exec(n: usize) -> (m: usize)
    ensures
        m == at_least_one(n as int),
        m >= 1,
{
    if n == 0 {
        1
    } else {
        n
    }
}

fn saturating_mul_exec(a: usize, b: usize) -> (m: usize)
    ensures
        m == saturating_mul(a as int, b as int),
{
    match a.checked_mul(b) {
        Some(v) => v,
        None => usize::MAX,
    }
}

impl App {
    /// Only the filtered list, the focus and the scroll position may differ.
    pub open spec fn same_except_focus(&self, other: &App) -> bool {
        &&& self.same_except_view(other)
        &&& self.filtered@ == other.filtered@
    }

    /// Scrolls as little as possible so that the focused row is visible, and never past the
    /// last row.
    pub fn ensure_visible(&mut self, columns: usize, rows: usize)
        requires
            old(self).wf(),
        ensures
            final(self).wf(),
            final(self).same_except_focus(&*old(self)),
            final(self).selected == old(self).selected,
            final(self).row_offset == scrolled_offset(
                old(self).selected as int,
                old(self).row_offset as int,
                columns as int,
                rows as int,
                old(self).filtered@.len() as int,
            ),
    {
        let c = at_least_one_exec(columns);
        let r = at_least_one_exec(rows);
        let selected_row = self.selected / c;
        if selected_row < self.row_offset {
            self.row_offset = selected_row;
        } else if selected_row - self.row_offset >= r {
            self.row_offset = (selected_row - r) + 1;
        }
        let len = self.filtered.len();
        let q = len / c;
        if len % c != 0 {
            assert(c >= 2);
            assert(q < usize::MAX) by (nonlinear_arith)
                requires q == len / c, c >= 2, len <= usize::MAX;
        }
        let total_rows = if len % c != 0 { q + 1 } else { q };
        self.row_offset = min_usize(self.row_offset, total_rows.saturating_sub(r));
    }

    /// Moves the focus one image back, stopping at the first.
    pub fn move_left(&mut self, columns: usize, rows: usize)
        requires
            old(self).wf(),
        ensures
            final(self).wf(),
            final(self).same_except_focus(&*old(self)),
            final(self).selected == (if old(self).selected > 0 { old(self).selected - 1 } else { 0 }),
            final(self).row_offset == scrolled_offset(final(self).selected as int, old(self).row_offset as int,
                columns as int, rows as int, old(self).filtered@.len() as int),
    {
        if self.selected > 0 {
            self.selected = self.selected - 1;
        }
        self.ensure_visible(columns, rows);
    }

    /// Moves the focus one image forward, stopping at the last.
    pub fn move_right(&mut self, columns: usize, rows: usize)
        requires
            old(self).wf(),
        ensures
            final(self).wf(),
            final(self).same_except_focus(&*old(self)),
            final(self).selected == (if old(self).selected + 1 < old(self).filtered@.len() {
                old(self).selected + 1
            } else {
                old(self).selected as int
            }),
            final(self).row_offset == scrolled_offset(final(self).selected as int, old(self).row_offset as int,
                columns as int, rows as int, old(self).filtered@.len() as int),
    {
        if self.filtered.len() > 0 && self.selected < self.filtered.len() - 1 {
            self.selected = self.selected + 1;
        }
        self.ensure_visible(columns, rows);
    }

    /// Moves the focus one row up, stopping at the first image.
    pub fn move_up(&mut self, columns: usize, rows: usize)
        requires
            old(self).wf(),
        ensures
            final(self).wf(),
            final(self).same_except_focus(&*old(self)),
            final(self).selected == saturating_sub(old(self).selected as int, at_least_one(columns as int)),
            final(self).row_offset == scrolled_offset(final(self).selected as int, old(self).row_offset as int,
                columns as int, rows as int, old(self).filtered@.len() as int),
    {
        self.selected = self.selected.saturating_sub(at_least_one_exec(columns));
        self.ensure_visible(columns, rows);
    }

    /// Moves the focus one row down, stopping at the last image.
    pub fn move_down(&mut self, columns: usize, rows: usize)
        requires
            old(self).wf(),
        ensures
            final(self).wf(),
            final(self).same_except_focus(&*old(self)),
            final(self).selected == (if old(self).filtered@.len() > 0 {
                min(old(self).selected + at_least_one(columns as int), old(self).filtered@.len() - 1)
            } else {
                old(self).selected as int
            }),
            final(self).row_offset == scrolled_offset(final(self).selected as int, old(self).row_offset as int,
                columns as int, rows as int, old(self).filtered@.len() as int),
    {
        if self.filtered.len() > 0 {
            self.selected = step_forward(self.selected, at_least_one_exec(columns), self.filtered.len() - 1);
        }
        self.ensure_visible(columns, rows);
    }

    /// Moves the focus one page of visible rows up, stopping at the first image.
    pub fn page_up(&mut self, columns: usize, rows: usize)
        requires
            old(self).wf(),
        ensures
            final(self).wf(),
            final(self).same_except_focus(&*old(self)),
            final(self).selected == saturating_sub(old(self).selected as int,
                saturating_mul(at_least_one(columns as int), at_least_one(rows as int))),
            final(self).row_offset == scrolled_offset(final(self).selected as int, old(self).row_offset as int,
                columns as int, rows as int, old(self).filtered@.len() as int),
    {
        let step = saturating_mul_exec(at_least_one_exec(columns), at_least_one_exec(rows));
        self.selected = self.selected.saturating_sub(step);
        self.ensure_visible(columns, rows);
    }

    /// Moves the focus one page of visible rows down, stopping at the last image.
    pub fn page_down(&mut self, columns: usize, rows: usize)
        requires
            old(self).wf(),
        ensures
            final(self).wf(),
            final(self).same_except_focus(&*old(self)),
            final(self).selected == (if old(self).filtered@.len() > 0 {
                min(old(self).selected + saturating_mul(at_least_one(columns as int), at_least_one(rows as int)),
                    old(self).filtered@.len() - 1)
            } else {
                old(self).selected as int
            }),
            final(self).row_offset == scrolled_offset(final(self).selected as int, old(self).row_offset as int,
                columns as int, rows as int, old(self).filtered@.len() as int),
    {
        if self.filtered.len() > 0 {
            let step = saturating_mul_exec(at_least_one_exec(columns), at_least_one_exec(rows));
            self.selected = step_forward(self.selected, step, self.filtered.len() - 1);
        }
        self.ensure_visible(columns, rows);
    }

    /// Focuses the first image and scrolls to the top.
    pub fn select_first(&mut self)
        requires
            old(self).wf(),
        ensures
            final(self).wf(),
            final(self).same_except_focus(&*old(self)),
            final(self).selected == 0,
            final(self).row_offset == 0,
    {
        self.selected = 0;
        self.row_offset = 0;
    }

    /// Focuses the last image.
    pub fn select_last(&mut self, columns: usize, rows: usize)
        requires
            old(self).wf(),
        ensures
            final(self).wf(),
            final(self).same_except_focus(&*old(self)),
            final(self).selected == saturating_sub(old(self).filtered@.len() as int, 1),
            final(self).row_offset == scrolled_offset(final(self).selected as int, old(self).row_offset as int,
                columns as int, rows as int, old(self).filtered@.len() as int),
    {
        self.selected = self.filtered.len().saturating_sub(1);
        self.ensure_visible(columns, rows);
    }

    /// The ids of the visible rows plus `prefetch_rows` rows above and below, in grid order.
    pub fn viewport_entry_ids(&self, columns: usize, rows: usize, prefetch_rows: usize) -> (ids: Vec<EntryId>)
        ensures
            ids@ == self.filtered@.subrange(
                viewport_start(self.row_offset as int, columns as int, rows as int, prefetch_rows as int, self.filtered@.len() as int),
                viewport_end(self.row_offset as int, columns as int, rows as int, prefetch_rows as int, self.filtered@.len() as int),
            ),
    {
        let c = at_least_one_exec(columns);
        let start_row = self.row_offset.saturating_sub(prefetch_rows);
        let end_row = self.row_offset.saturating_add(at_least_one_exec(rows)).saturating_add(prefetch_rows);
        let start = saturating_mul_exec(start_row, c);
        let end = min_usize(saturating_mul_exec(end_row, c), self.filtered.len());
        let from = min_usize(start, end);
        proof {
            let ghost exact_end = self.row_offset + at_least_one(rows as int) + prefetch_rows;
            if exact_end > usize::MAX {
                assert(exact_end * c >= exact_end) by (nonlinear_arith) requires c >= 1, exact_end >= 0;
                assert(end_row * c >= end_row) by (nonlinear_arith) requires c >= 1, end_row >= 0;
            }
        }
        let mut ids: Vec<EntryId> = Vec::new();
        let mut k = from;
        while k < end
            invariant
                from <= k <= end <= self.filtered@.len(),
                ids@ == self.filtered@.subrange(from as int, k as int),
            decreases end - k,
        {
            ids.push(self.filtered[k]);
            k = k + 1;
        }
        ids
    }
}

/// The first filtered position of the viewport.
pub open spec fn viewport_start(row_offset: int, columns: int, rows: int, prefetch_rows: int, len: int) -> int {
    min(
        saturating_mul(saturating_sub(row_offset, prefetch_rows), at_least_one(columns)),
        viewport_end(row_offset, columns, rows, prefetch_rows, len),
    )
}

/// The filtered position just past the viewport.
pub open spec fn viewport_end(row_offset: int, columns: int, rows: int, prefetch_rows: int, len: int) -> int {
    min(saturating_mul(row_offset + at_least_one(rows) + prefetch_rows, at_least_one(columns)), len)
}

/// `min(from + step, last)` without overflow.
fn step_forward(from: usize, step: usize, last: usize) -> (out: usize)
    ensures
        out == min(from + step, last as int),
{
    if from >= last || step >= last - from {
        last
    } else {
        from + step
    }
}

} // verus!

verus! {

/// With the marked-only filter off, marks do not affect the filter.
pub proof fn lemma_matching_ids_ignore_marks(
    entries: Seq<ImageEntry>,
    query: Seq<char>,
    a: Seq<EntryId>,
    b: Seq<EntryId>,
)
    ensures
        matching_ids(entries, query, a, false) == matching_ids(entries, query, b, false),
    decreases entries.len(),
{
    if entries.len() > 0 {
        lemma_matching_ids_ignore_marks(entries.drop_last(), query, a, b);
    }
}

/// With the marked-only filter on, only marked ids pass.
pub proof fn lemma_matching_ids_marked(entries: Seq<ImageEntry>, query: Seq<char>, marks: Seq<EntryId>)
    ensures
        forall|k: int| 0 <= k < matching_ids(entries, query, marks, true).len()
            ==> marks.contains(#[trigger] matching_ids(entries, query, marks, true)[k]),
    decreases entries.len(),
{
    if entries.len() > 0 {
        lemma_matching_ids_marked(entries.drop_last(), query, marks);
        let m = matching_ids(entries, query, marks, true);
        let r = matching_ids(entries.drop_last(), query, marks, true);
        assert forall|k: int| 0 <= k < m.len() implies marks.contains(#[trigger] m[k]) by {
            if k < r.len() {
                assert(m[k] == r[k]);
            }
        }
    }
}

/// Adding ids that are all marked already leaves the marks as they are.
pub proof fn lemma_marks_with_marked(marks: Seq<EntryId>, ids: Seq<EntryId>)
    requires
        forall|k: int| 0 <= k < ids.len() ==> marks.contains(#[trigger] ids[k]),
    ensures
        marks_with(marks, ids) == marks,
    decreases ids.len(),
{
    if ids.len() > 0 {
        lemma_marks_with_marked(marks, ids.drop_last());
        assert(marks.contains(ids[ids.len() - 1]));
    }
}

/// The marks after toggling `id`: removed where marked, appended otherwise.
pub open spec fn marks_toggled(marks: Seq<EntryId>, id: EntryId) -> Seq<EntryId> {
    match position_of(marks, id) {
        Some(p) => marks.remove(p),
        None => marks.push(id),
    }
}

impl App {
    /// Everything but the marks, the anchor, the filtered list, focus and scrolling is equal.
    pub open spec fn same_except_marks(&self, other: &App) -> bool {
        &&& self.root@ == other.root@
        &&& self.entries@ == other.entries@
        &&& self.query@ == other.query@
        &&& self.mode == other.mode
        &&& self.scan_done == other.scan_done
        &&& self.scan_errors == other.scan_errors
        &&& self.thumbnail_errors == other.thumbnail_errors
        &&& self.only_marked() == other.only_marked()
        &&& self.saved_query() == other.saved_query()
    }

    /// After a change of the marks: re-filtered when only marked images are shown, otherwise the
    /// grid view unchanged.
    pub open spec fn view_after_marks(&self, before: &App) -> bool {
        if before.only_marked() {
            self.refiltered_from(before)
        } else {
            &&& self.filtered@ == before.filtered@
            &&& self.selected == before.selected
            &&& self.row_offset == before.row_offset
        }
    }

    /// `self` is `before` after toggling the mark of `id`, which names an entry.
    pub open spec fn toggled_from(&self, before: &App, id: EntryId) -> bool {
        &&& self.marks() == marks_toggled(before.marks(), id)
        &&& self.anchor() == Some(id)
        &&& self.same_except_marks(before)
        &&& self.view_after_marks(before)
    }

    /// Marks or unmarks an image and makes it the range anchor; unknown ids are ignored.
    /// Unmarking removes the image from the mark order, so marking it again appends it.
    pub fn toggle_mark_id(&mut self, id: EntryId)
        requires
            old(self).wf(),
        ensures
            final(self).wf(),
            id.0 < old(self).entries@.len() ==> final(self).toggled_from(&*old(self), id),
            id.0 >= old(self).entries@.len() ==> *final(self) == *old(self),
    {
        if id.0 >= self.entries.len() as u64 {
            return;
        }
        proof {
            lemma_position_of_found(self.mark_order@, id);
        }
        match position_in(self.mark_order.as_slice(), id) {
            Some(p) => {
                let ghost before = self.mark_order@;
                self.mark_order.remove(p);
                proof {
                    assert forall|a: int, b: int| 0 <= a < b < self.mark_order@.len()
                        implies self.mark_order@[a] != self.mark_order@[b] by {
                        let a2 = if a < p { a } else { a + 1 };
                        let b2 = if b < p { b } else { b + 1 };
                        assert(self.mark_order@[a] == before[a2]);
                        assert(self.mark_order@[b] == before[b2]);
                    }
                    assert forall|k: int| 0 <= k < self.mark_order@.len() implies (#[trigger] self.mark_order@[k]).0 < self.entries@.len() by {
                        let k2 = if k < p { k } else { k + 1 };
                        assert(self.mark_order@[k] == before[k2]);
                    }
                }
            },
            None => {
                self.mark_order.push(id);
            },
        }
        self.mark_anchor = Some(id);
        if self.marked_only {
            self.rebuild_filter();
        } else {
            proof {
                lemma_matching_ids_ignore_marks(self.entries@, self.query@, self.mark_order@, old(self).mark_order@);
            }
        }
    }

    /// Toggles the mark of the focused image, if any.
    pub fn toggle_mark(&mut self)
        requires
            old(self).wf(),
        ensures
            final(self).wf(),
            old(self).selected < old(self).filtered@.len() ==> final(self).toggled_from(
                &*old(self),
                old(self).filtered@[old(self).selected as int],
            ),
            old(self).selected >= old(self).filtered@.len() ==> *final(self) == *old(self),
    {
        if self.selected >= self.filtered.len() {
            return;
        }
        let id = self.filtered[self.selected];
        proof {
            self.lemma_filtered_ids_known();
        }
        self.toggle_mark_id(id);
    }

    /// Marks every image between the range anchor and the focus, inclusive, in grid order.
    /// Images already marked keep their place in the mark order. Without an anchor that is still
    /// shown, the range is the focused image alone; an absent anchor becomes the focused image.
    pub fn mark_range(&mut self)
        requires
            old(self).wf(),
        ensures
            final(self).wf(),
            old(self).selected < old(self).filtered@.len() ==> {
                let (start, end) = range_bounds(old(self).filtered@, old(self).anchor(), old(self).selected as int);
                &&& final(self).marks() == marks_with(old(self).marks(), old(self).filtered@.subrange(start, end + 1))
                &&& final(self).anchor() == (match old(self).anchor() {
                    Some(a) => Some(a),
                    None => Some(old(self).filtered@[old(self).selected as int]),
                })
                &&& final(self).same_except_marks(&*old(self))
                &&& final(self).filtered@ == old(self).filtered@
                &&& final(self).selected == old(self).selected
                &&& final(self).row_offset == old(self).row_offset
            },
            old(self).selected >= old(self).filtered@.len() ==> *final(self) == *old(self),
    {
        if self.selected >= self.filtered.len() {
            return;
        }
        proof {
            self.lemma_filtered_ids_known();
        }
        let current = self.filtered[self.selected];
        let anchor_position = match self.mark_anchor {
            Some(a) => position_in(self.filtered.as_slice(), a),
            None => None,
        };
        let anchor = match anchor_position {
            Some(p) => p,
            None => self.selected,
        };
        proof {
            match self.mark_anchor {
                Some(a) => lemma_position_of_found(self.filtered@, a),
                None => {},
            }
        }
        let (start, end) = if anchor <= self.selected {
            (anchor, self.selected)
        } else {
            (self.selected, anchor)
        };
        let ghost range = self.filtered@.subrange(start as int, end + 1);
        let ghost marks0 = self.mark_order@;
        let mut k = start;
        while k <= end
            invariant
                start <= k <= end + 1,
                end < self.filtered.len(),
                self.same_except_marks(&*old(self)),
                self.filtered@ == old(self).filtered@,
                self.selected == old(self).selected,
                self.row_offset == old(self).row_offset,
                self.mark_anchor == old(self).mark_anchor,
                self.path_ids@ == old(self).path_ids@,
                marks0 == old(self).mark_order@,
                range == self.filtered@.subrange(start as int, end + 1),
                self.mark_order@ == marks_with(marks0, range.take(k - start)),
                self.mark_order@.no_duplicates(),
                forall|m: int| 0 <= m < self.filtered@.len() ==> (#[trigger] self.filtered@[m]).0 < self.entries@.len(),
                forall|m: int| 0 <= m < self.mark_order@.len() ==> (#[trigger] self.mark_order@[m]).0 < self.entries@.len(),
            decreases end + 1 - k,
        {
            let id = self.filtered[k];
            proof {
                assert(range.take(k - start + 1).drop_last() =~= range.take(k - start));
                assert(range.take(k - start + 1).last() == id);
            }
            if !contains_id(self.mark_order.as_slice(), id) {
                self.mark_order.push(id);
            }
            k = k + 1;
        }
        proof {
            assert(range.take(end + 1 - start) =~= range);
        }
        if self.mark_anchor.is_none() {
            self.mark_anchor = Some(current);
        }
        proof {
            if self.marked_only {
                lemma_matching_ids_marked(self.entries@, self.query@, marks0);
                assert forall|m: int| 0 <= m < range.len() implies marks0.contains(#[trigger] range[m]) by {
                    assert(range[m] == self.filtered@[start + m]);
                }
                lemma_marks_with_marked(marks0, range);
            } else {
                lemma_matching_ids_ignore_marks(self.entries@, self.query@, self.mark_order@, marks0);
            }
        }
    }

    /// Removes every mark and the range anchor.
    pub fn clear_marks(&mut self)
        requires
            old(self).wf(),
        ensures
            final(self).wf(),
            final(self).marks().len() == 0,
            final(self).anchor() is None,
            final(self).same_except_marks(&*old(self)),
            final(self).view_after_marks(&*old(self)),
    {
        self.mark_order.clear();
        self.mark_anchor = None;
        if self.marked_only {
            self.rebuild_filter();
        } else {
            proof {
                lemma_matching_ids_ignore_marks(self.entries@, self.query@, self.mark_order@, old(self).mark_order@);
            }
        }
    }

    /// Switches between showing every matching image and only the marked ones.
    pub fn toggle_marked_only(&mut self)
        requires
            old(self).wf(),
        ensures
            final(self).wf(),
            final(self).only_marked() == !old(self).only_marked(),
            final(self).marks() == old(self).marks(),
            final(self).anchor() == old(self).anchor(),
            final(self).root@ == old(self).root@,
            final(self).entries@ == old(self).entries@,
            final(self).query@ == old(self).query@,
            final(self).mode == old(self).mode,
            final(self).saved_query() == old(self).saved_query(),
            final(self).refiltered_from(&*old(self)),
    {
        self.marked_only = !self.marked_only;
        self.rebuild_filter();
    }

    /// Enters search mode, remembering the query to restore on cancel.
    pub fn start_search(&mut self)
        requires
            old(self).wf(),
        ensures
            final(self).wf(),
            final(self).mode == InputMode::Search,
            final(self).saved_query() == old(self).query@,
            final(self).root@ == old(self).root@,
            final(self).entries@ == old(self).entries@,
            final(self).query@ == old(self).query@,
            final(self).marks() == old(self).marks(),
            final(self).anchor() == old(self).anchor(),
            final(self).only_marked() == old(self).only_marked(),
            final(self).filtered@ == old(self).filtered@,
            final(self).selected == old(self).selected,
            final(self).row_offset == old(self).row_offset,
    {
        self.query_before_edit = self.query.clone();
        self.mode = InputMode::Search;
    }

    /// Keeps the edited query and returns to normal mode.
    pub fn commit_search(&mut self)
        requires
            old(self).wf(),
        ensures
            final(self).wf(),
            final(self).mode == InputMode::Normal,
            final(self).saved_query() == old(self).saved_query(),
            final(self).root@ == old(self).root@,
            final(self).entries@ == old(self).entries@,
            final(self).query@ == old(self).query@,
            final(self).marks() == old(self).marks(),
            final(self).anchor() == old(self).anchor(),
            final(self).only_marked() == old(self).only_marked(),
            final(self).filtered@ == old(self).filtered@,
            final(self).selected == old(self).selected,
            final(self).row_offset == old(self).row_offset,
    {
        self.mode = InputMode::Normal;
    }

    /// Restores the query from before the search started and returns to normal mode.
    pub fn cancel_search(&mut self)
        requires
            old(self).wf(),
        ensures
            final(self).wf(),
            final(self).mode == InputMode::Normal,
            final(self).query@ == old(self).saved_query(),
            final(self).saved_query().len() == 0,
            final(self).root@ == old(self).root@,
            final(self).entries@ == old(self).entries@,
            final(self).marks() == old(self).marks(),
            final(self).anchor() == old(self).anchor(),
            final(self).only_marked() == old(self).only_marked(),
            final(self).refiltered_from(&*old(self)),
    {
        let mut saved = String::new();
        std::mem::swap(&mut saved, &mut self.query_before_edit);
        self.query = saved;
        self.mode = InputMode::Normal;
        self.rebuild_filter();
    }

    /// Appends a character to the query and re-filters.
    pub fn push_search(&mut self, character: char)
        requires
            old(self).wf(),
        ensures
            final(self).wf(),
            final(self).query@ == old(self).query@.push(character),
            final(self).mode == old(self).mode,
            final(self).saved_query() == old(self).saved_query(),
            final(self).root@ == old(self).root@,
            final(self).entries@ == old(self).entries@,
            final(self).marks() == old(self).marks(),
            final(self).anchor() == old(self).anchor(),
            final(self).only_marked() == old(self).only_marked(),
            final(self).refiltered_from(&*old(self)),
    {
        let mut chars = chars_of(self.query.as_str());
        chars.push(character);
        self.query = string_of(chars.as_slice());
        self.rebuild_filter();
    }

    /// Removes the last character of the query, if any, and re-filters.
    pub fn pop_search(&mut self)
        requires
            old(self).wf(),
        ensures
            final(self).wf(),
            final(self).query@ == (if old(self).query@.len() > 0 {
                old(self).query@.drop_last()
            } else {
                old(self).query@
            }),
            final(self).mode == old(self).mode,
            final(self).saved_query() == old(self).saved_query(),
            final(self).root@ == old(self).root@,
            final(self).entries@ == old(self).entries@,
            final(self).marks() == old(self).marks(),
            final(self).anchor() == old(self).anchor(),
            final(self).only_marked() == old(self).only_marked(),
            final(self).refiltered_from(&*old(self)),
    {
        let mut chars = chars_of(self.query.as_str());
        if chars.len() > 0 {
            chars.pop();
        }
        self.query = string_of(chars.as_slice());
        self.rebuild_filter();
    }
}

/// The inclusive range of filtered positions that `mark_range` marks: from the anchor's position
/// (or the focus when the anchor is absent or not shown) to the focus, in either order.
pub open spec fn range_bounds(filtered: Seq<EntryId>, anchor: Option<EntryId>, selected: int) -> (int, int) {
    let anchor_position = match anchor {
        Some(a) => match position_of(filtered, a) {
            Some(p) => p,
            None => selected,
        },
        None => selected,
    };
    if anchor_position <= selected {
        (anchor_position, selected)
    } else {
        (selected, anchor_position)
    }
}

} // verus!

verus! {

proof fn lemma_marks_with_contents(marks: Seq<EntryId>, ids: Seq<EntryId>)
    ensures
        forall|x: EntryId| #[trigger] marks_with(marks, ids).contains(x) <==> (marks.contains(x) || ids.contains(x)),
        marks_with(marks, ids).len() >= marks.len(),
        marks_with(marks, ids).take(marks.len() as int) == marks,
    decreases ids.len(),
{
    if ids.len() > 0 {
        let front = ids.drop_last();
        lemma_marks_with_contents(marks, front);
        let before = marks_with(marks, front);
        assert forall|x: EntryId| #[trigger] marks_with(marks, ids).contains(x) <==> (marks.contains(x) || ids.contains(x)) by {
            if ids.contains(x) && !front.contains(x) {
                let i = choose|i: int| 0 <= i < ids.len() && ids[i] == x;
                if i < front.len() {
                    assert(front[i] == x);
                }
                assert(ids.last() == x);
            }
            if front.contains(x) {
                let i = choose|i: int| 0 <= i < front.len() && front[i] == x;
                assert(ids[i] == x);
            }
            if !before.contains(ids.last()) {
                let pushed = before.push(ids.last());
                if pushed.contains(x) {
                    let i = choose|i: int| 0 <= i < pushed.len() && pushed[i] == x;
                    if i < before.len() {
                        assert(before[i] == x);
                    }
                }
                if before.contains(x) {
                    let i = choose|i: int| 0 <= i < before.len() && before[i] == x;
                    assert(pushed[i] == x);
                }
                if x == ids.last() {
                    assert(pushed[before.len() as int] == x);
                }
            }
            if x == ids.last() {
                assert(ids[ids.len() - 1] == x);
            }
        }
        if !before.contains(ids.last()) {
            assert(before.push(ids.last()).take(marks.len() as int) =~= before.take(marks.len() as int));
        }
    } else {
        assert(marks.take(marks.len() as int) =~= marks);
    }
}

/// Marking a range marks every image shown between the range anchor's position and the focus,
/// inclusive and in either order, the focused image always among them; an anchor that is absent
/// or not shown makes the range the focus alone. Marks made before keep their order, and every
/// newly marked image lies in the range.
pub proof fn law_range_marks_from_anchor_to_focus(
    filtered: Seq<EntryId>,
    marks: Seq<EntryId>,
    anchor: Option<EntryId>,
    selected: int,
)
    requires
        0 <= selected < filtered.len(),
    ensures
        ({
            let (start, end) = range_bounds(filtered, anchor, selected);
            let after = marks_with(marks, filtered.subrange(start, end + 1));
            let from = match anchor {
                Some(a) => match position_of(filtered, a) {
                    Some(p) => p,
                    None => selected,
                },
                None => selected,
            };
            &&& after.contains(filtered[selected])
            &&& forall|i: int| (from <= i <= selected || selected <= i <= from) ==> #[trigger] after.contains(
                filtered[i],
            )
            &&& after.take(marks.len() as int) == marks
            &&& forall|x: EntryId| #[trigger] after.contains(x) ==> marks.contains(x) || exists|i: int|
                (from <= i <= selected || selected <= i <= from) && filtered[i] == x
        }),
{
    let (start, end) = range_bounds(filtered, anchor, selected);
    let ids = filtered.subrange(start, end + 1);
    let from = match anchor {
        Some(a) => match position_of(filtered, a) {
            Some(p) => p,
            None => selected,
        },
        None => selected,
    };
    match anchor {
        Some(a) => lemma_position_of_found(filtered, a),
        None => {},
    }
    assert(0 <= from < filtered.len());
    lemma_marks_with_contents(marks, ids);
    assert forall|i: int| (from <= i <= selected || selected <= i <= from) implies #[trigger] marks_with(
        marks,
        ids,
    ).contains(filtered[i]) by {
        assert(ids[i - start] == filtered[i]);
        assert(ids.contains(filtered[i]));
    }
    assert forall|x: EntryId| #[trigger] marks_with(marks, ids).contains(x) implies marks.contains(x) || exists|i: int|
        (from <= i <= selected || selected <= i <= from) && filtered[i] == x by {
        if !marks.contains(x) {
            let k = choose|k: int| 0 <= k < ids.len() && ids[k] == x;
            assert(filtered[start + k] == x);
        }
    }
}

/// The grid shows exactly what the entries, the query and the marks call for: two valid states
/// that agree on those agree on the filtered list.
pub proof fn law_filter_is_determined_by_query_and_marks(a: &App, b: &App)
    requires
        a.wf(),
        b.wf(),
        a.entries@ == b.entries@,
        a.query@ == b.query@,
        a.marks() == b.marks(),
        a.only_marked() == b.only_marked(),
    ensures
        a.filtered@ == b.filtered@,
{
}

/// After scrolling, a focused image that exists lies in a visible row.
pub proof fn law_focus_is_visible_after_scrolling(selected: int, row_offset: int, columns: int, rows: int, len: int)
    requires
        0 <= selected < len,
        0 <= row_offset,
    ensures
        ({
            let offset = scrolled_offset(selected, row_offset, columns, rows, len);
            let c = at_least_one(columns);
            let r = at_least_one(rows);
            0 <= offset <= selected / c < offset + r
        }),
{
    let c = at_least_one(columns);
    let r = at_least_one(rows);
    let selected_row = selected / c;
    assert(selected_row < row_count(len, c)) by (nonlinear_arith)
        requires
            selected_row == selected / c,
            c >= 1,
            0 <= selected < len,
    {
        assert(selected_row * c <= selected);
        if len % c == 0 {
            assert(len == (len / c) * c);
            if selected_row >= len / c {
                assert(selected_row * c >= (len / c) * c);
            }
        } else {
            assert(len == (len / c) * c + len % c);
            if selected_row >= len / c + 1 {
                assert(selected_row * c >= (len / c + 1) * c);
            }
        }
    }
    assert(0 <= selected_row) by (nonlinear_arith) requires selected_row == selected / c, c >= 1, selected >= 0;
}

/// Marking an unmarked image and unmarking it again restores the marks.
pub proof fn law_toggling_twice_restores_unmarked(marks: Seq<EntryId>, id: EntryId)
    requires
        !marks.contains(id),
    ensures
        marks_toggled(marks_toggled(marks, id), id) == marks,
{
    lemma_position_of_found(marks, id);
    let once = marks.push(id);
    assert forall|j: int| 0 <= j < marks.len() implies #[trigger] once[j] != id by {
        assert(once[j] == marks[j]);
    }
    lemma_position_of(once, id, marks.len() as int);
    assert(once.remove(marks.len() as int) =~= marks);
}

/// Unmarking a marked image and marking it again moves it to the end of the mark order.
pub proof fn law_remarking_moves_to_the_end(marks: Seq<EntryId>, id: EntryId)
    requires
        marks.contains(id),
        marks.no_duplicates(),
    ensures
        ({
            let p = position_of(marks, id)->0;
            marks_toggled(marks_toggled(marks, id), id) == marks.remove(p).push(id)
        }),
{
    lemma_position_of_found(marks, id);
    let p = position_of(marks, id)->0;
    let removed = marks.remove(p);
    assert(!removed.contains(id)) by {
        if removed.contains(id) {
            let k = choose|k: int| 0 <= k < removed.len() && removed[k] == id;
            let k2 = if k < p { k } else { k + 1 };
            assert(removed[k] == marks[k2]);
        }
    }
    lemma_position_of_found(removed, id);
}

/// The viewport never holds more than the visible rows plus the prefetch rows on both sides.
pub proof fn law_viewport_is_bounded(row_offset: int, columns: int, rows: int, prefetch_rows: int, len: int)
    requires
        0 <= row_offset,
        0 <= prefetch_rows,
        0 <= len,
    ensures
        viewport_end(row_offset, columns, rows, prefetch_rows, len) - viewport_start(row_offset, columns, rows, prefetch_rows, len)
            <= (at_least_one(rows) + 2 * prefetch_rows) * at_least_one(columns),
{
    let c = at_least_one(columns);
    let r = at_least_one(rows);
    let start_row = saturating_sub(row_offset, prefetch_rows);
    let end_row = row_offset + r + prefetch_rows;
    assert(end_row - start_row <= r + 2 * prefetch_rows);
    let start = saturating_mul(start_row, c);
    let end = viewport_end(row_offset, columns, rows, prefetch_rows, len);
    if start < end {
        assert(start == start_row * c) by (nonlinear_arith)
            requires start == saturating_mul(start_row, c), start < end, end <= usize::MAX,
                start_row >= 0, c >= 1;
        assert(end <= end_row * c);
        assert(end_row * c - start_row * c <= (r + 2 * prefetch_rows) * c) by (nonlinear_arith)
            requires end_row - start_row <= r + 2 * prefetch_rows, c >= 1;
    }
    assert((r + 2 * prefetch_rows) * c >= 0) by (nonlinear_arith) requires r >= 1, prefetch_rows >= 0, c >= 1;
}

} // verus!
