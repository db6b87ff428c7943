//! The bookkeeping of prepared thumbnails: a cache bounded by entries and bytes in
//! least-recently-used order, the failures shown in place of images, the requests in flight, and
//! which thumbnails are visible.

use vstd::prelude::*;

use crate::app::{EntryId, SourceRevision};
use crate::graphics::ProtocolType;
use crate::settings::ThumbnailQuality;
use crate::text::{chars_of, decimal, decimal_chars, owned, position_of, lemma_position_of, lemma_position_of_found, string_of};
use crate::ui::Size;

verus! {

/// What a prepared thumbnail is for.
#[derive(Clone, Copy, Debug, PartialEq, Eq, Hash, Structural)]
pub struct ThumbnailKey {
    pub entry_id: EntryId,
    pub revision: SourceRevision,
    pub size: Size,
    pub quality: ThumbnailQuality,
}

/// The number of source pixels a thumbnail needs: two per cell vertically with half blocks,
/// else the cell count times the font's pixel size.
pub open spec fn source_pixels(protocol: ProtocolType, font: (u16, u16), size: Size) -> (u32, u32) {
    if protocol == ProtocolType::Halfblocks {
        (size.width as u32, (size.height * 2) as u32)
    } else {
        ((size.width * font.0) as u32, (size.height * font.1) as u32)
    }
}

/// The number of source pixels a thumbnail needs.
pub fn required_source_pixels(protocol: ProtocolType, font: (u16, u16), size: Size) -> (out: (u32, u32))
    ensures
        out == source_pixels(protocol, font, size),
{
    if protocol == ProtocolType::Halfblocks {
        (size.width as u32, size.height as u32 * 2)
    } else {
        assert(size.width * font.0 <= u32::MAX) by (nonlinear_arith)
            requires size.width <= u16::MAX, font.0 <= u16::MAX;
        assert(size.height * font.1 <= u32::MAX) by (nonlinear_arith)
            requires size.height <= u16::MAX, font.1 <= u16::MAX;
        (size.width as u32 * font.0 as u32, size.height as u32 * font.1 as u32)
    }
}

/// The largest RGBA data a thumbnail may be scaled to, 64 MiB.
pub const MAX_RAW_THUMBNAIL_BYTES: u64 = 67108864;

/// The RGBA bytes of a thumbnail of `encoded` cells sampled at `font` pixels per cell, stopping
/// at `u64::MAX`.
pub open spec fn raw_thumbnail_bytes(encoded: Size, font: (u16, u16)) -> int {
    let exact = encoded.width * font.0 * encoded.height * font.1 * 4;
    if exact > u64::MAX { u64::MAX as int } else { exact }
}

/// The message of a thumbnail target above the limit.
pub open spec fn raw_limit_message(bytes: int) -> Seq<char> {
    "thumbnail target requires "@ + decimal(((bytes + 1048575) / 1048576) as nat)
        + " MiB of RGBA data, above the 64 MiB limit"@
}

/// Checks the RGBA size of a thumbnail target against the 64 MiB limit, before anything is
/// scaled or allocated.
pub fn check_raw_thumbnail(encoded: Size, font: (u16, u16)) -> (out: Result<(), String>)
    ensures
        raw_thumbnail_bytes(encoded, font) <= MAX_RAW_THUMBNAIL_BYTES ==> out is Ok,
        raw_thumbnail_bytes(encoded, font) > MAX_RAW_THUMBNAIL_BYTES ==> (out matches Err(e)
            && e@ == raw_limit_message(raw_thumbnail_bytes(encoded, font))),
{
    let ew = encoded.width as u128;
    let eh = encoded.height as u128;
    let fw = font.0 as u128;
    let fh = font.1 as u128;
    assert(ew * fw <= 65535 * 65535) by (nonlinear_arith)
        requires ew <= 65535, fw <= 65535;
    assert(eh * fh <= 65535 * 65535) by (nonlinear_arith)
        requires eh <= 65535, fh <= 65535;
    let w = ew * fw;
    let h = eh * fh;
    assert(w * h <= u64::MAX) by (nonlinear_arith)
        requires w <= 65535 * 65535, h <= 65535 * 65535;
    let pixels = w * h;
    let exact = pixels * 4;
    let bytes: u128 = if exact > u64::MAX as u128 { u64::MAX as u128 } else { exact };
    assert(bytes == raw_thumbnail_bytes(encoded, font)) by (nonlinear_arith)
        requires
            w == encoded.width * font.0,
            h == encoded.height * font.1,
            pixels == w * h,
            exact == pixels * 4,
            bytes == (if exact > u64::MAX { u64::MAX as int } else { exact as int }),
    ;
    if bytes <= MAX_RAW_THUMBNAIL_BYTES as u128 {
        return Ok(());
    }
    let mut text = chars_of("thumbnail target requires ");
    let mut digits = decimal_chars((bytes + 1048575) / 1048576);
    text.append(&mut digits);
    let mut tail = chars_of(" MiB of RGBA data, above the 64 MiB limit");
    text.append(&mut tail);
    assert(text@ =~= raw_limit_message(bytes as int));
    Err(string_of(text.as_slice()))
}

/// The message of a prepared thumbnail that needs more memory than the whole cache holds.
pub open spec fn resident_limit_message(bytes: int) -> Seq<char> {
    "prepared thumbnail requires "@ + decimal(((bytes + 1048575) / 1048576) as nat)
        + " MiB, above the 128 MiB memory limit"@
}

/// Checks the memory a prepared thumbnail holds against the cache's 128 MiB limit.
pub fn check_resident_bytes(bytes: u64) -> (out: Result<(), String>)
    ensures
        out is Ok <==> bytes <= MAX_CACHE_BYTES,
        out matches Err(e) ==> e@ == resident_limit_message(bytes as int),
{
    if bytes <= MAX_CACHE_BYTES {
        return Ok(());
    }
    let mut text = chars_of("prepared thumbnail requires ");
    let mut digits = decimal_chars((bytes as u128 + 1048575) / 1048576);
    text.append(&mut digits);
    let mut tail = chars_of(" MiB, above the 128 MiB memory limit");
    text.append(&mut tail);
    assert(text@ =~= resident_limit_message(bytes as int));
    Err(string_of(text.as_slice()))
}

/// A prepared thumbnail in the cache.
pub struct CachedThumbnail<V> {
    pub key: ThumbnailKey,
    pub value: V,
    pub bytes: u64,
}

/// What a grid card shows.
#[derive(Clone, Debug, PartialEq, Eq)]
pub enum DisplayChoice {
    /// The prepared thumbnail of this key.
    Ready(ThumbnailKey),
    Loading,
    Error(String),
}

/// What to do with a thumbnail request.
#[derive(Clone, Copy, Debug, PartialEq, Eq, Structural)]
pub enum RequestStep {
    /// Nothing to do: no room, or already cached, pending or failed.
    Skip,
    /// The workers are gone; the request was recorded as failed.
    Failed,
    /// Send it to the workers.
    Send,
}

/// What a worker answered.
pub enum WorkerAnswer<V> {
    /// The request was outdated and dropped.
    Dropped,
    Prepared { value: V, bytes: u64, disk_hit: bool },
    Failed(String),
}

/// The summed sizes of cached thumbnails.
pub open spec fn cached_bytes<V>(items: Seq<CachedThumbnail<V>>) -> int
    decreases items.len(),
{
    if items.len() == 0 {
        0
    } else {
        cached_bytes(items.drop_last()) + items.last().bytes
    }
}

/// The cached keys in order.
pub open spec fn cached_keys<V>(items: Seq<CachedThumbnail<V>>) -> Seq<ThumbnailKey> {
    items.map_values(|c: CachedThumbnail<V>| c.key)
}

/// The failed keys in order.
pub open spec fn failed_keys(items: Seq<(ThumbnailKey, String)>) -> Seq<ThumbnailKey> {
    items.map_values(|f: (ThumbnailKey, String)| f.0)
}

/// The most prepared thumbnails a session keeps.
pub const MAX_CACHE_ENTRIES: usize = 256;
/// The most bytes of prepared thumbnails a session keeps (128 MiB).
pub const MAX_CACHE_BYTES: u64 = 134217728;

/// The prepared thumbnails and failures of the grid.
pub struct ThumbnailCache<V> {
    /// From the least to the most recently used.
    pub entries: Vec<CachedThumbnail<V>>,
    pub bytes: u64,
    pub entry_limit: usize,
    pub byte_limit: u64,
    /// Failures in the order they were recorded, each key once.
    pub failed: Vec<(ThumbnailKey, String)>,
    /// Requests sent and not yet answered.
    pub pending: Vec<ThumbnailKey>,
    pub visible: Vec<ThumbnailKey>,
    pub persistent_hits: usize,
    pub persistent_misses: usize,
    pub closed: bool,
}

impl<V> ThumbnailCache<V> {
    /// Keys are distinct in each list, and the accounted bytes are the sum of the sizes and
    /// within the limit.
    pub open spec fn wf(&self) -> bool {
        &&& cached_keys(self.entries@).no_duplicates()
        &&& failed_keys(self.failed@).no_duplicates()
        &&& self.pending@.no_duplicates()
        &&& self.bytes == cached_bytes(self.entries@)
        &&& self.bytes <= self.byte_limit
        &&& self.byte_limit < u64::MAX
    }

    /// Whether a key is cached.
    pub open spec fn is_cached(&self, key: ThumbnailKey) -> bool {
        cached_keys(self.entries@).contains(key)
    }

    /// Whether a key failed.
    pub open spec fn has_failed(&self, key: ThumbnailKey) -> bool {
        failed_keys(self.failed@).contains(key)
    }

    /// An empty cache with the session's limits: at most 256 prepared thumbnails and 128 MiB.
    pub fn new() -> (cache: Self)
        ensures
            cache.wf(),
            cache.entries@.len() == 0,
            cache.failed@.len() == 0,
            cache.pending@.len() == 0,
            cache.visible@.len() == 0,
            cache.entry_limit == MAX_CACHE_ENTRIES,
            cache.byte_limit == MAX_CACHE_BYTES,
            cache.persistent_hits == 0,
            cache.persistent_misses == 0,
            !cache.closed,
    {
        Self::with_limits(MAX_CACHE_ENTRIES, MAX_CACHE_BYTES)
    }

    /// An empty cache with the given limits.
    pub fn with_limits(entry_limit: usize, byte_limit: u64) -> (cache: Self)
        requires
            byte_limit < u64::MAX,
        ensures
            cache.wf(),
            cache.entries@.len() == 0,
            cache.failed@.len() == 0,
            cache.pending@.len() == 0,
            cache.visible@.len() == 0,
            cache.entry_limit == entry_limit,
            cache.byte_limit == byte_limit,
            cache.persistent_hits == 0,
            cache.persistent_misses == 0,
            !cache.closed,
    {
        let cache = ThumbnailCache {
            entries: Vec::new(),
            bytes: 0,
            entry_limit,
            byte_limit,
            failed: Vec::new(),
            pending: Vec::new(),
            visible: Vec::new(),
            persistent_hits: 0,
            persistent_misses: 0,
            closed: false,
        };
        assert(cached_keys(cache.entries@) =~= Seq::<ThumbnailKey>::empty());
        assert(failed_keys(cache.failed@) =~= Seq::<ThumbnailKey>::empty());
        cache
    }

    fn cached_position(&self, key: ThumbnailKey) -> (out: Option<usize>)
        ensures
            match out {
                Some(p) => position_of(cached_keys(self.entries@), key) == Some(p as int) && p < self.entries@.len(),
                None => position_of(cached_keys(self.entries@), key) is None,
            },
    {
        let mut i: usize = 0;
        while i < self.entries.len()
            invariant
                i <= self.entries@.len(),
                forall|j: int| 0 <= j < i ==> #[trigger] cached_keys(self.entries@)[j] != key,
            decreases self.entries.len() - i,
        {
            if self.entries[i].key == key {
                proof {
                    lemma_position_of(cached_keys(self.entries@), key, i as int);
                }
                return Some(i);
            }
            i = i + 1;
        }
        proof {
            lemma_position_of(cached_keys(self.entries@), key, i as int);
        }
        None
    }

    fn failed_position(&self, key: ThumbnailKey) -> (out: Option<usize>)
        ensures
            match out {
                Some(p) => position_of(failed_keys(self.failed@), key) == Some(p as int) && p < self.failed@.len(),
                None => position_of(failed_keys(self.failed@), key) is None,
            },
    {
        let mut i: usize = 0;
        while i < self.failed.len()
            invariant
                i <= self.failed@.len(),
                forall|j: int| 0 <= j < i ==> #[trigger] failed_keys(self.failed@)[j] != key,
            decreases self.failed.len() - i,
        {
            if self.failed[i].0 == key {
                proof {
                    lemma_position_of(failed_keys(self.failed@), key, i as int);
                }
                return Some(i);
            }
            i = i + 1;
        }
        proof {
            lemma_position_of(failed_keys(self.failed@), key, i as int);
        }
        None
    }

    fn pending_position(&self, key: ThumbnailKey) -> (out: Option<usize>)
        ensures
            match out {
                Some(p) => position_of(self.pending@, key) == Some(p as int) && p < self.pending@.len(),
                None => position_of(self.pending@, key) is None,
            },
    {
        let mut i: usize = 0;
        while i < self.pending.len()
            invariant
                i <= self.pending@.len(),
                forall|j: int| 0 <= j < i ==> #[trigger] self.pending@[j] != key,
            decreases self.pending.len() - i,
        {
            if self.pending[i] == key {
                proof {
                    lemma_position_of(self.pending@, key, i as int);
                }
                return Some(i);
            }
            i = i + 1;
        }
        proof {
            lemma_position_of(self.pending@, key, i as int);
        }
        None
    }
}

/// The most recently used cached key for the same image, revision and size as `key`, of any
/// quality: what stays shown while a new quality is prepared.
pub open spec fn compatible_in(keys: Seq<ThumbnailKey>, key: ThumbnailKey) -> Option<ThumbnailKey>
    decreases keys.len(),
{
    if keys.len() == 0 {
        None
    } else {
        let last = keys.last();
        if last.entry_id == key.entry_id && last.revision == key.revision && last.size == key.size {
            Some(last)
        } else {
            compatible_in(keys.drop_last(), key)
        }
    }
}

impl<V> ThumbnailCache<V> {
    /// The most recently used cached key for the same image, revision and size as `key`.
    pub fn compatible_key(&self, key: ThumbnailKey) -> (out: Option<ThumbnailKey>)
        ensures
            out == compatible_in(cached_keys(self.entries@), key),
    {
        let mut i: usize = self.entries.len();
        assert(cached_keys(self.entries@).take(i as int) =~= cached_keys(self.entries@));
        while i > 0
            invariant
                i <= self.entries@.len(),
                compatible_in(cached_keys(self.entries@), key) == compatible_in(cached_keys(self.entries@).take(i as int), key),
            decreases i,
        {
            assert(cached_keys(self.entries@).take(i as int).drop_last() =~= cached_keys(self.entries@).take(i - 1));
            let candidate = self.entries[i - 1].key;
            if candidate.entry_id == key.entry_id && candidate.revision == key.revision && candidate.size == key.size {
                return Some(candidate);
            }
            i = i - 1;
        }
        None
    }
}

/// The failures as keys and messages.
pub open spec fn failure_view(items: Seq<(ThumbnailKey, String)>) -> Seq<(ThumbnailKey, Seq<char>)> {
    items.map_values(|f: (ThumbnailKey, String)| (f.0, f.1@))
}

/// How many of the oldest failures make room for one more within `limit`.
pub open spec fn failures_to_drop(len: int, limit: int) -> int {
    if len < limit {
        0
    } else if limit > 0 {
        len - limit + 1
    } else {
        len
    }
}

/// The failures after recording `message` for `key`: an existing failure of the key gets the new
/// message in place; otherwise the oldest make room within the limit and it is appended.
pub open spec fn failures_after(
    failures: Seq<(ThumbnailKey, Seq<char>)>,
    key: ThumbnailKey,
    message: Seq<char>,
    limit: int,
) -> Seq<(ThumbnailKey, Seq<char>)> {
    match position_of(failures.map_values(|f: (ThumbnailKey, Seq<char>)| f.0), key) {
        Some(p) => failures.update(p, (key, message)),
        None => failures.skip(failures_to_drop(failures.len() as int, limit)).push((key, message)),
    }
}

/// The failures after recording `message` for each of `keys` in turn.
pub open spec fn failures_after_all(
    failures: Seq<(ThumbnailKey, Seq<char>)>,
    keys: Seq<ThumbnailKey>,
    message: Seq<char>,
    limit: int,
) -> Seq<(ThumbnailKey, Seq<char>)>
    decreases keys.len(),
{
    if keys.len() == 0 {
        failures
    } else {
        failures_after(failures_after_all(failures, keys.drop_last(), message, limit), keys.last(), message, limit)
    }
}

proof fn lemma_failure_keys(items: Seq<(ThumbnailKey, String)>)
    ensures
        failure_view(items).map_values(|f: (ThumbnailKey, Seq<char>)| f.0) == failed_keys(items),
{
    assert(failure_view(items).map_values(|f: (ThumbnailKey, Seq<char>)| f.0) =~= failed_keys(items));
}

impl<V> ThumbnailCache<V> {
    /// Records a failure for `key`.
    pub fn insert_failure(&mut self, key: ThumbnailKey, message: String)
        requires
            old(self).wf(),
        ensures
            final(self).wf(),
            failure_view(final(self).failed@) == failures_after(
                failure_view(old(self).failed@),
                key,
                message@,
                old(self).entry_limit as int,
            ),
            final(self).entries@ == old(self).entries@,
            final(self).bytes == old(self).bytes,
            final(self).pending@ == old(self).pending@,
            final(self).visible@ == old(self).visible@,
            final(self).entry_limit == old(self).entry_limit,
            final(self).byte_limit == old(self).byte_limit,
            final(self).persistent_hits == old(self).persistent_hits,
            final(self).persistent_misses == old(self).persistent_misses,
            final(self).closed == old(self).closed,
    {
        proof {
            lemma_failure_keys(self.failed@);
        }
        let ghost before = failure_view(self.failed@);
        match self.failed_position(key) {
            Some(p) => {
                let ghost old_keys = failed_keys(self.failed@);
                proof {
                    lemma_position_of_found(old_keys, key);
                }
                self.failed.set(p, (key, message));
                assert(failure_view(self.failed@) =~= before.update(p as int, (key, message@)));
                assert(failed_keys(self.failed@) =~= old_keys);
            },
            None => {
                let ghost old_failed = self.failed@;
                let mut failed: Vec<(ThumbnailKey, String)> = Vec::new();
                std::mem::swap(&mut failed, &mut self.failed);
                let mut dropped: usize = 0;
                let limit = self.entry_limit;
                let initial = failed.len();
                assert(old_failed.skip(0) =~= old_failed);
                assert(before.skip(0) =~= before);
                while failed.len() >= limit && failed.len() > 0
                    invariant
                        dropped as int + failed@.len() == old_failed.len(),
                        old_failed.len() == initial as int,
                        failed@ == old_failed.skip(dropped as int),
                        dropped > 0 ==> failed@.len() + 1 >= limit,
                    decreases failed.len(),
                {
                    let ghost prev = failed@;
                    let ghost prev_view = failure_view(failed@);
                    failed.remove(0);
                    dropped = dropped + 1;
                    assert(failed@ == prev.remove(0));
                    assert(forall|k: int| 0 <= k < failed@.len() ==> #[trigger] failed@[k] == prev[k + 1]);
                    assert(failed@ =~= old_failed.skip(dropped as int));
                }
                assert(failure_view(failed@) =~= before.skip(dropped as int));
                assert(dropped as int == failures_to_drop(old_failed.len() as int, limit as int));
                let ghost kept = failed@;
                proof {
                    lemma_position_of_found(failed_keys(old_failed), key);
                    assert forall|i: int, j: int| 0 <= i < j < failed_keys(kept).len()
                        implies failed_keys(kept)[i] != failed_keys(kept)[j] by {
                        assert(failed_keys(kept)[i] == failed_keys(old_failed)[i + dropped]);
                        assert(failed_keys(kept)[j] == failed_keys(old_failed)[j + dropped]);
                    }
                    assert forall|i: int| 0 <= i < failed_keys(kept).len() implies failed_keys(kept)[i] != key by {
                        assert(failed_keys(kept)[i] == failed_keys(old_failed)[i + dropped]);
                    }
                }
                failed.push((key, message));
                assert(failure_view(failed@) =~= before.skip(dropped as int).push((key, message@)));
                proof {
                    assert(failed_keys(failed@) =~= failed_keys(kept).push(key));
                    assert forall|i: int, j: int| 0 <= i < j < failed_keys(failed@).len()
                        implies failed_keys(failed@)[i] != failed_keys(failed@)[j] by {
                        if j == failed_keys(failed@).len() - 1 {
                            assert(failed_keys(failed@)[i] == failed_keys(kept)[i]);
                        } else {
                            assert(failed_keys(failed@)[i] == failed_keys(kept)[i]);
                            assert(failed_keys(failed@)[j] == failed_keys(kept)[j]);
                        }
                    }
                }
                self.failed = failed;
            },
        }
    }
}

/// The cached thumbnails left after evicting the least recently used until one more of
/// `incoming` bytes fits both limits, or nothing is left.
pub open spec fn thumbnails_after_eviction<V>(
    items: Seq<CachedThumbnail<V>>,
    incoming: int,
    entry_limit: int,
    byte_limit: int,
) -> Seq<CachedThumbnail<V>>
    decreases items.len(),
{
    if items.len() == 0 || (items.len() < entry_limit && cached_bytes(items) + incoming <= byte_limit) {
        items
    } else {
        thumbnails_after_eviction(items.drop_first(), incoming, entry_limit, byte_limit)
    }
}

/// The cached thumbnails without the one of `key`.
pub open spec fn without_key<V>(items: Seq<CachedThumbnail<V>>, key: ThumbnailKey) -> Seq<CachedThumbnail<V>> {
    match position_of(cached_keys(items), key) {
        Some(p) => items.remove(p),
        None => items,
    }
}

/// The failures without the one of `key`.
pub open spec fn without_failure(items: Seq<(ThumbnailKey, Seq<char>)>, key: ThumbnailKey) -> Seq<(ThumbnailKey, Seq<char>)> {
    match position_of(items.map_values(|f: (ThumbnailKey, Seq<char>)| f.0), key) {
        Some(p) => items.remove(p),
        None => items,
    }
}

/// The message for a thumbnail above the memory limit, in whole mebibytes rounded up and down.
pub open spec fn oversize_message(bytes: u64, limit: u64) -> Seq<char> {
    "prepared thumbnail requires "@ + decimal(((bytes + 1048575) / 1048576) as nat) + " MiB, above the "@
        + decimal((limit / 1048576) as nat) + " MiB memory limit"@
}

proof fn lemma_cached_bytes_nonnegative<V>(items: Seq<CachedThumbnail<V>>)
    ensures
        cached_bytes(items) >= 0,
    decreases items.len(),
{
    if items.len() > 0 {
        lemma_cached_bytes_nonnegative(items.drop_last());
    }
}

proof fn lemma_cached_bytes_first<V>(items: Seq<CachedThumbnail<V>>)
    requires
        items.len() > 0,
    ensures
        cached_bytes(items) == items[0].bytes + cached_bytes(items.drop_first()),
    decreases items.len(),
{
    if items.len() > 1 {
        let shorter = items.drop_last();
        lemma_cached_bytes_first(shorter);
        assert(shorter.drop_first() =~= items.drop_first().drop_last());
        assert(items.drop_first().last() == items.last());
        assert(cached_bytes(items.drop_first()) == cached_bytes(items.drop_first().drop_last())
            + items.drop_first().last().bytes);
        assert(cached_bytes(items) == cached_bytes(shorter) + items.last().bytes);
    } else {
        assert(items.drop_first().len() == 0);
        assert(items.drop_last().len() == 0);
        assert(cached_bytes(items.drop_first()) == 0);
        assert(cached_bytes(items.drop_last()) == 0);
    }
}

proof fn lemma_cached_bytes_remove<V>(items: Seq<CachedThumbnail<V>>, p: int)
    requires
        0 <= p < items.len(),
    ensures
        cached_bytes(items.remove(p)) == cached_bytes(items) - items[p].bytes,
    decreases items.len(),
{
    if p == items.len() - 1 {
        assert(items.remove(p) =~= items.drop_last());
    } else {
        lemma_cached_bytes_remove(items.drop_last(), p);
        assert(items.remove(p).drop_last() =~= items.drop_last().remove(p));
        assert(items.remove(p).last() == items.last());
    }
}

proof fn lemma_keys_remove<V>(items: Seq<CachedThumbnail<V>>, p: int)
    requires
        0 <= p < items.len(),
        cached_keys(items).no_duplicates(),
    ensures
        cached_keys(items.remove(p)) == cached_keys(items).remove(p),
        cached_keys(items.remove(p)).no_duplicates(),
        !cached_keys(items.remove(p)).contains(items[p].key),
{
    let old_keys = cached_keys(items);
    assert(cached_keys(items.remove(p)) =~= old_keys.remove(p));
    let new_keys = cached_keys(items.remove(p));
    assert forall|a: int, b: int| 0 <= a < b < new_keys.len() implies new_keys[a] != new_keys[b] by {
        let a2 = if a < p { a } else { a + 1 };
        let b2 = if b < p { b } else { b + 1 };
        assert(new_keys[a] == old_keys[a2]);
        assert(new_keys[b] == old_keys[b2]);
    }
    assert forall|a: int| 0 <= a < new_keys.len() implies new_keys[a] != items[p].key by {
        let a2 = if a < p { a } else { a + 1 };
        assert(new_keys[a] == old_keys[a2]);
        assert(old_keys[p] == items[p].key);
    }
}

impl<V> ThumbnailCache<V> {
    /// Moves a cached thumbnail to the most recently used end.
    pub fn touch(&mut self, key: ThumbnailKey)
        requires
            old(self).wf(),
        ensures
            final(self).wf(),
            match position_of(cached_keys(old(self).entries@), key) {
                Some(p) => final(self).entries@ == old(self).entries@.remove(p).push(old(self).entries@[p]),
                None => final(self).entries@ == old(self).entries@,
            },
            final(self).failed@ == old(self).failed@,
            final(self).pending@ == old(self).pending@,
            final(self).visible@ == old(self).visible@,
            final(self).bytes == old(self).bytes,
            final(self).entry_limit == old(self).entry_limit,
            final(self).byte_limit == old(self).byte_limit,
            final(self).persistent_hits == old(self).persistent_hits,
            final(self).persistent_misses == old(self).persistent_misses,
            final(self).closed == old(self).closed,
    {
        match self.cached_position(key) {
            Some(p) => {
                let ghost before = self.entries@;
                proof {
                    lemma_keys_remove(before, p as int);
                    lemma_cached_bytes_remove(before, p as int);
                }
                let item = self.entries.remove(p);
                self.entries.push(item);
                proof {
                    assert(self.entries@.drop_last() =~= before.remove(p as int));
                    let kept = cached_keys(before.remove(p as int));
                    assert(cached_keys(self.entries@) =~= kept.push(item.key));
                    assert forall|a: int, b: int| 0 <= a < b < cached_keys(self.entries@).len()
                        implies cached_keys(self.entries@)[a] != cached_keys(self.entries@)[b] by {
                        if b == cached_keys(self.entries@).len() - 1 {
                            assert(cached_keys(self.entries@)[a] == kept[a]);
                        } else {
                            assert(cached_keys(self.entries@)[a] == kept[a]);
                            assert(cached_keys(self.entries@)[b] == kept[b]);
                        }
                    }
                }
            },
            None => {},
        }
    }

    /// Stores a prepared thumbnail as the most recently used, replacing an older one of the key
    /// and clearing its failure, after evicting the least recently used until it fits both limits.
    /// A thumbnail above the byte limit is recorded as a failure instead.
    pub fn insert(&mut self, key: ThumbnailKey, value: V, bytes: u64)
        requires
            old(self).wf(),
        ensures
            final(self).wf(),
            final(self).pending@ == old(self).pending@,
            final(self).visible@ == old(self).visible@,
            final(self).entry_limit == old(self).entry_limit,
            final(self).byte_limit == old(self).byte_limit,
            final(self).persistent_hits == old(self).persistent_hits,
            final(self).persistent_misses == old(self).persistent_misses,
            final(self).closed == old(self).closed,
            bytes > old(self).byte_limit ==> {
                &&& final(self).entries@ == old(self).entries@
                &&& failure_view(final(self).failed@) == failures_after(
                    failure_view(old(self).failed@),
                    key,
                    oversize_message(bytes, old(self).byte_limit),
                    old(self).entry_limit as int,
                )
            },
            bytes <= old(self).byte_limit ==> {
                let kept = thumbnails_after_eviction(
                    without_key(old(self).entries@, key),
                    bytes as int,
                    old(self).entry_limit as int,
                    old(self).byte_limit as int,
                );
                &&& final(self).entries@.drop_last() == kept
                &&& final(self).entries@.last().key == key
                &&& final(self).entries@.last().value == value
                &&& final(self).entries@.last().bytes == bytes
                &&& failure_view(final(self).failed@) == without_failure(failure_view(old(self).failed@), key)
            },
    {
        if bytes > self.byte_limit {
            let mut text = chars_of("prepared thumbnail requires ");
            let mut needed = decimal_chars(((bytes as u128 + 1048575) / 1048576) as u128);
            text.append(&mut needed);
            let mut middle = chars_of(" MiB, above the ");
            text.append(&mut middle);
            let mut limit = decimal_chars((self.byte_limit / 1048576) as u128);
            text.append(&mut limit);
            let mut tail = chars_of(" MiB memory limit");
            text.append(&mut tail);
            assert(((bytes as u128 + 1048575) / 1048576) as nat == ((bytes + 1048575) / 1048576) as nat);
            assert(text@ =~= oversize_message(bytes, self.byte_limit));
            self.insert_failure(key, string_of(text.as_slice()));
            return;
        }
        self.remove_failure(key);
        let ghost start = self.entries@;
        match self.cached_position(key) {
            Some(p) => {
                let ghost before = self.entries@;
                proof {
                    lemma_cached_bytes_remove(before, p as int);
                    lemma_cached_bytes_nonnegative(before.remove(p as int));
                    lemma_keys_remove(before, p as int);
                    lemma_position_of_found(cached_keys(before), key);
                }
                let previous = self.entries.remove(p);
                self.bytes = self.bytes - previous.bytes;
            },
            None => {
                proof {
                    lemma_position_of_found(cached_keys(self.entries@), key);
                }
            },
        }
        let ghost base = self.entries@;
        assert(base == without_key(start, key));
        let mut entries: Vec<CachedThumbnail<V>> = Vec::new();
        std::mem::swap(&mut entries, &mut self.entries);
        let mut total = self.bytes;
        let entry_limit = self.entry_limit;
        let byte_limit = self.byte_limit;
        while entries.len() > 0 && (entries.len() >= entry_limit || total.saturating_add(bytes) > byte_limit)
            invariant
                cached_keys(entries@).no_duplicates(),
                !cached_keys(entries@).contains(key),
                total == cached_bytes(entries@),
                total <= byte_limit,
                bytes <= byte_limit,
                byte_limit < u64::MAX,
                thumbnails_after_eviction(base, bytes as int, entry_limit as int, byte_limit as int)
                    == thumbnails_after_eviction(entries@, bytes as int, entry_limit as int, byte_limit as int),
            decreases entries@.len(),
        {
            let ghost before = entries@;
            proof {
                lemma_cached_bytes_first(before);
                lemma_cached_bytes_nonnegative(before.drop_first());
                lemma_keys_remove(before, 0);
                assert(before.remove(0) =~= before.drop_first());
            }
            let oldest = entries.remove(0);
            total = total - oldest.bytes;
        }
        proof {
            if entries@.len() > 0 {
                assert(total + bytes <= byte_limit);
            }
        }
        assert(thumbnails_after_eviction(entries@, bytes as int, entry_limit as int, byte_limit as int) == entries@);
        let ghost kept = entries@;
        entries.push(CachedThumbnail { key, value, bytes });
        proof {
            assert(entries@.drop_last() =~= kept);
            let old_keys = cached_keys(kept);
            assert(cached_keys(entries@) =~= old_keys.push(key));
            assert forall|a: int, b: int| 0 <= a < b < cached_keys(entries@).len()
                implies cached_keys(entries@)[a] != cached_keys(entries@)[b] by {
                assert(cached_keys(entries@)[a] == old_keys[a]);
                if b < cached_keys(entries@).len() - 1 {
                    assert(cached_keys(entries@)[b] == old_keys[b]);
                }
            }
        }
        self.entries = entries;
        self.bytes = total + bytes;
    }

    /// Forgets the failure of a key.
    fn remove_failure(&mut self, key: ThumbnailKey)
        requires
            old(self).wf(),
        ensures
            final(self).wf(),
            failure_view(final(self).failed@) == without_failure(failure_view(old(self).failed@), key),
            final(self).entries@ == old(self).entries@,
            final(self).bytes == old(self).bytes,
            final(self).pending@ == old(self).pending@,
            final(self).visible@ == old(self).visible@,
            final(self).entry_limit == old(self).entry_limit,
            final(self).byte_limit == old(self).byte_limit,
            final(self).persistent_hits == old(self).persistent_hits,
            final(self).persistent_misses == old(self).persistent_misses,
            final(self).closed == old(self).closed,
    {
        proof {
            lemma_failure_keys(self.failed@);
        }
        match self.failed_position(key) {
            Some(p) => {
                let ghost before = self.failed@;
                self.failed.remove(p);
                proof {
                    assert(failure_view(self.failed@) =~= failure_view(before).remove(p as int));
                    let old_keys = failed_keys(before);
                    assert(failed_keys(self.failed@) =~= old_keys.remove(p as int));
                    assert forall|a: int, b: int| 0 <= a < b < failed_keys(self.failed@).len()
                        implies failed_keys(self.failed@)[a] != failed_keys(self.failed@)[b] by {
                        let a2 = if a < p { a } else { a + 1 };
                        let b2 = if b < p { b } else { b + 1 };
                        assert(failed_keys(self.failed@)[a] == old_keys[a2]);
                        assert(failed_keys(self.failed@)[b] == old_keys[b2]);
                    }
                }
            },
            None => {},
        }
    }
}

/// The key whose thumbnail a card shows: its own when cached; for a pending key without a
/// failure, the most recent compatible one; none otherwise.
pub open spec fn ready_key<V>(cache: ThumbnailCache<V>, key: ThumbnailKey) -> Option<ThumbnailKey> {
    if cache.is_cached(key) {
        Some(key)
    } else if cache.has_failed(key) {
        None
    } else if cache.pending@.contains(key) {
        compatible_in(cached_keys(cache.entries@), key)
    } else {
        None
    }
}

/// The message of a key's failure.
pub open spec fn failure_message(failures: Seq<(ThumbnailKey, Seq<char>)>, key: ThumbnailKey) -> Option<Seq<char>> {
    match position_of(failures.map_values(|f: (ThumbnailKey, Seq<char>)| f.0), key) {
        Some(p) => Some(failures[p].1),
        None => None,
    }
}

impl<V> ThumbnailCache<V> {
    /// What a card for `key` shows; a shown thumbnail becomes the most recently used.
    pub fn display(&mut self, key: ThumbnailKey) -> (out: DisplayChoice)
        requires
            old(self).wf(),
        ensures
            final(self).wf(),
            match ready_key(*old(self), key) {
                Some(k) => {
                    &&& out == DisplayChoice::Ready(k)
                    &&& final(self).entries@ == old(self).entries@.remove(
                        position_of(cached_keys(old(self).entries@), k)->Some_0,
                    ).push(old(self).entries@[position_of(cached_keys(old(self).entries@), k)->Some_0])
                },
                None => {
                    &&& final(self).entries@ == old(self).entries@
                    &&& match failure_message(failure_view(old(self).failed@), key) {
                        Some(m) => out matches DisplayChoice::Error(e) && e@ == m,
                        None => out == DisplayChoice::Loading,
                    }
                },
            },
            final(self).failed@ == old(self).failed@,
            final(self).pending@ == old(self).pending@,
            final(self).visible@ == old(self).visible@,
            final(self).bytes == old(self).bytes,
    {
        proof {
            lemma_failure_keys(self.failed@);
            lemma_position_of_found(cached_keys(self.entries@), key);
            lemma_position_of_found(failed_keys(self.failed@), key);
            lemma_position_of_found(self.pending@, key);
        }
        let cached = self.cached_position(key).is_some();
        let failed_at = self.failed_position(key);
        let ready = if cached {
            Some(key)
        } else if failed_at.is_some() {
            None
        } else if self.pending_position(key).is_some() {
            self.compatible_key(key)
        } else {
            None
        };
        match ready {
            Some(k) => {
                proof {
                    lemma_compatible_is_cached(cached_keys(self.entries@), key);
                    lemma_position_of_found(cached_keys(self.entries@), k);
                }
                self.touch(k);
                DisplayChoice::Ready(k)
            },
            None => match failed_at {
                Some(p) => {
                    let message = chars_of(self.failed[p].1.as_str());
                    DisplayChoice::Error(string_of(message.as_slice()))
                },
                None => DisplayChoice::Loading,
            },
        }
    }

    /// What to do with a request for `key`: nothing when it has no room or is already cached,
    /// pending or failed; once the workers are gone it is recorded as failed; otherwise it is
    /// to be sent.
    pub fn begin_request(&mut self, key: ThumbnailKey) -> (step: RequestStep)
        requires
            old(self).wf(),
        ensures
            final(self).wf(),
            final(self).entries@ == old(self).entries@,
            final(self).pending@ == old(self).pending@,
            if key.size.width == 0 || key.size.height == 0 || old(self).is_cached(key) || old(self).pending@.contains(key)
                || old(self).has_failed(key) {
                step == RequestStep::Skip && failure_view(final(self).failed@) == failure_view(old(self).failed@)
            } else if old(self).closed {
                step == RequestStep::Failed && failure_view(final(self).failed@) == failures_after(
                    failure_view(old(self).failed@),
                    key,
                    "thumbnail workers are unavailable"@,
                    old(self).entry_limit as int,
                )
            } else {
                step == RequestStep::Send && failure_view(final(self).failed@) == failure_view(old(self).failed@)
            },
    {
        proof {
            lemma_position_of_found(cached_keys(self.entries@), key);
            lemma_position_of_found(failed_keys(self.failed@), key);
            lemma_position_of_found(self.pending@, key);
        }
        if key.size.width == 0 || key.size.height == 0 || self.cached_position(key).is_some()
            || self.pending_position(key).is_some() || self.failed_position(key).is_some() {
            return RequestStep::Skip;
        }
        if self.closed {
            self.insert_failure(key, owned("thumbnail workers are unavailable"));
            return RequestStep::Failed;
        }
        RequestStep::Send
    }

    /// Records that a request was sent.
    pub fn request_sent(&mut self, key: ThumbnailKey)
        requires
            old(self).wf(),
        ensures
            final(self).wf(),
            final(self).pending@ == (if old(self).pending@.contains(key) {
                old(self).pending@
            } else {
                old(self).pending@.push(key)
            }),
            final(self).entries@ == old(self).entries@,
            final(self).failed@ == old(self).failed@,
    {
        proof {
            lemma_position_of_found(self.pending@, key);
        }
        if self.pending_position(key).is_none() {
            let ghost before = self.pending@;
            self.pending.push(key);
            proof {
                assert forall|a: int, b: int| 0 <= a < b < self.pending@.len() implies self.pending@[a] != self.pending@[b] by {
                    if b == self.pending@.len() - 1 {
                        assert(self.pending@[a] == before[a]);
                    }
                }
            }
        }
    }

    /// Records that the workers are gone while sending: the request fails.
    pub fn request_disconnected(&mut self, key: ThumbnailKey)
        requires
            old(self).wf(),
        ensures
            final(self).wf(),
            final(self).closed,
            failure_view(final(self).failed@) == failures_after(
                failure_view(old(self).failed@),
                key,
                "thumbnail workers are unavailable"@,
                old(self).entry_limit as int,
            ),
            final(self).entries@ == old(self).entries@,
            final(self).pending@ == old(self).pending@,
    {
        self.closed = true;
        self.insert_failure(key, owned("thumbnail workers are unavailable"));
    }

    fn remove_pending(&mut self, key: ThumbnailKey)
        requires
            old(self).wf(),
        ensures
            final(self).wf(),
            !final(self).pending@.contains(key),
            forall|k: ThumbnailKey| k != key ==> (final(self).pending@.contains(k) <==> old(self).pending@.contains(k)),
            final(self).entries@ == old(self).entries@,
            final(self).failed@ == old(self).failed@,
            final(self).bytes == old(self).bytes,
            final(self).visible@ == old(self).visible@,
            final(self).entry_limit == old(self).entry_limit,
            final(self).byte_limit == old(self).byte_limit,
            final(self).persistent_hits == old(self).persistent_hits,
            final(self).persistent_misses == old(self).persistent_misses,
            final(self).closed == old(self).closed,
    {
        proof {
            lemma_position_of_found(self.pending@, key);
        }
        match self.pending_position(key) {
            Some(p) => {
                let ghost before = self.pending@;
                self.pending.remove(p);
                proof {
                    assert forall|a: int, b: int| 0 <= a < b < self.pending@.len() implies self.pending@[a] != self.pending@[b] by {
                        let a2 = if a < p { a } else { a + 1 };
                        let b2 = if b < p { b } else { b + 1 };
                        assert(self.pending@[a] == before[a2]);
                        assert(self.pending@[b] == before[b2]);
                    }
                    assert forall|k: ThumbnailKey| k != key implies (self.pending@.contains(k) <==> before.contains(k)) by {
                        if before.contains(k) {
                            let i = choose|i: int| 0 <= i < before.len() && before[i] == k;
                            assert(i != p);
                            let j = if i < p { i } else { i - 1 };
                            assert(self.pending@[j] == k);
                        }
                        if self.pending@.contains(k) {
                            let j = choose|j: int| 0 <= j < self.pending@.len() && self.pending@[j] == k;
                            let i = if j < p { j } else { j + 1 };
                            assert(before[i] == k);
                        }
                    }
                    assert forall|j: int| 0 <= j < self.pending@.len() implies self.pending@[j] != key by {
                        let i = if j < p { j } else { j + 1 };
                        assert(self.pending@[j] == before[i]);
                    }
                }
            },
            None => {},
        }
    }

    /// Takes a worker's answer for `key`: the request is no longer pending, a prepared thumbnail
    /// is stored and counted as a disk hit or miss, and an error is recorded. Tells whether the
    /// answer is an error.
    pub fn receive(&mut self, key: ThumbnailKey, answer: WorkerAnswer<V>) -> (failed: bool)
        requires
            old(self).wf(),
            old(self).persistent_hits < usize::MAX,
            old(self).persistent_misses < usize::MAX,
        ensures
            final(self).wf(),
            !final(self).pending@.contains(key),
            forall|k: ThumbnailKey| k != key ==> (final(self).pending@.contains(k) <==> old(self).pending@.contains(k)),
            final(self).visible@ == old(self).visible@,
            final(self).closed == old(self).closed,
            match answer {
                WorkerAnswer::Dropped => !failed && final(self).entries@ == old(self).entries@
                    && final(self).failed@ == old(self).failed@,
                WorkerAnswer::Prepared { value, bytes, disk_hit } => {
                    &&& !failed
                    &&& final(self).persistent_hits == old(self).persistent_hits + (if disk_hit { 1int } else { 0int })
                    &&& final(self).persistent_misses == old(self).persistent_misses + (if disk_hit { 0int } else { 1int })
                    &&& bytes > old(self).byte_limit ==> {
                        &&& final(self).entries@ == old(self).entries@
                        &&& failure_view(final(self).failed@) == failures_after(
                            failure_view(old(self).failed@),
                            key,
                            oversize_message(bytes, old(self).byte_limit),
                            old(self).entry_limit as int,
                        )
                    }
                    &&& bytes <= old(self).byte_limit ==> {
                        &&& final(self).entries@.drop_last() == thumbnails_after_eviction(
                            without_key(old(self).entries@, key),
                            bytes as int,
                            old(self).entry_limit as int,
                            old(self).byte_limit as int,
                        )
                        &&& final(self).entries@.last().key == key
                        &&& final(self).entries@.last().value == value
                        &&& final(self).entries@.last().bytes == bytes
                        &&& failure_view(final(self).failed@) == without_failure(failure_view(old(self).failed@), key)
                    }
                },
                WorkerAnswer::Failed(message) => failed && failure_view(final(self).failed@) == failures_after(
                    failure_view(old(self).failed@),
                    key,
                    message@,
                    old(self).entry_limit as int,
                ),
            },
    {
        self.remove_pending(key);
        match answer {
            WorkerAnswer::Dropped => false,
            WorkerAnswer::Prepared { value, bytes, disk_hit } => {
                if disk_hit {
                    self.persistent_hits = self.persistent_hits + 1;
                } else {
                    self.persistent_misses = self.persistent_misses + 1;
                }
                self.insert(key, value, bytes);
                false
            },
            WorkerAnswer::Failed(message) => {
                self.insert_failure(key, message);
                true
            },
        }
    }

    /// Records that the workers stopped: every pending request fails. Tells how many failed.
    pub fn workers_stopped(&mut self) -> (count: usize)
        requires
            old(self).wf(),
        ensures
            final(self).wf(),
            final(self).closed,
            old(self).closed ==> count == 0 && *final(self) == *old(self),
            !old(self).closed ==> count == old(self).pending@.len() && final(self).pending@.len() == 0,
            !old(self).closed ==> failure_view(final(self).failed@) == failures_after_all(
                failure_view(old(self).failed@),
                old(self).pending@,
                "thumbnail workers stopped unexpectedly"@,
                old(self).entry_limit as int,
            ),
            final(self).entries@ == old(self).entries@,
            final(self).visible@ == old(self).visible@,
            final(self).entry_limit == old(self).entry_limit,
    {
        if self.closed {
            return 0;
        }
        self.closed = true;
        let mut pending: Vec<ThumbnailKey> = Vec::new();
        std::mem::swap(&mut pending, &mut self.pending);
        assert(self.pending@.len() == 0);
        assert(pending@ == old(self).pending@);
        let count = pending.len();
        let mut i: usize = 0;
        assert(pending@.take(0) =~= Seq::<ThumbnailKey>::empty());
        while i < pending.len()
            invariant
                self.wf(),
                self.pending@.len() == 0,
                self.closed,
                self.entries@ == old(self).entries@,
                self.visible@ == old(self).visible@,
                self.entry_limit == old(self).entry_limit,
                i <= pending@.len(),
                pending@ == old(self).pending@,
                failure_view(self.failed@) == failures_after_all(
                    failure_view(old(self).failed@),
                    pending@.take(i as int),
                    "thumbnail workers stopped unexpectedly"@,
                    old(self).entry_limit as int,
                ),
            decreases pending.len() - i,
        {
            let message = owned("thumbnail workers stopped unexpectedly");
            self.insert_failure(pending[i], message);
            assert(pending@.take(i as int + 1).drop_last() =~= pending@.take(i as int));
            i = i + 1;
        }
        assert(pending@.take(i as int) =~= pending@);
        count
    }
}

proof fn lemma_compatible_is_cached(keys: Seq<ThumbnailKey>, key: ThumbnailKey)
    ensures
        compatible_in(keys, key) matches Some(k) ==> keys.contains(k),
    decreases keys.len(),
{
    if keys.len() > 0 {
        lemma_compatible_is_cached(keys.drop_last(), key);
        match compatible_in(keys.drop_last(), key) {
            Some(k) => {
                let i = choose|i: int| 0 <= i < keys.drop_last().len() && keys.drop_last()[i] == k;
                assert(keys[i] == k);
            },
            None => {},
        }
        assert(keys[keys.len() - 1] == keys.last());
    }
}

/// The cached thumbnail that a newly visible key shows: its own, or the most recent compatible.
pub open spec fn shown_key(keys: Seq<ThumbnailKey>, key: ThumbnailKey) -> Option<ThumbnailKey> {
    if keys.contains(key) {
        Some(key)
    } else {
        compatible_in(keys, key)
    }
}

/// The thumbnails to re-arm when `visible` becomes visible after `before`: for each key that was
/// not visible, once, the cached thumbnail it shows.
pub open spec fn to_rearm(cached: Seq<ThumbnailKey>, before: Seq<ThumbnailKey>, visible: Seq<ThumbnailKey>) -> Seq<ThumbnailKey>
    decreases visible.len(),
{
    if visible.len() == 0 {
        Seq::empty()
    } else {
        let earlier = to_rearm(cached, before, visible.drop_last());
        let key = visible.last();
        if before.contains(key) || visible.drop_last().contains(key) {
            earlier
        } else {
            match shown_key(cached, key) {
                Some(k) => earlier.push(k),
                None => earlier,
            }
        }
    }
}

fn contains_key_in(keys: &[ThumbnailKey], key: ThumbnailKey) -> (found: bool)
    ensures
        found == keys@.contains(key),
{
    let mut i: usize = 0;
    while i < keys.len()
        invariant
            i <= keys@.len(),
            forall|j: int| 0 <= j < i ==> keys@[j] != key,
        decreases keys.len() - i,
    {
        if keys[i] == key {
            assert(keys@[i as int] == key);
            return true;
        }
        i = i + 1;
    }
    false
}

impl<V> ThumbnailCache<V> {
    /// Makes `visible` the visible keys and tells which cached thumbnails must be re-armed
    /// because their key has just become visible.
    pub fn update_visible(&mut self, visible: &[ThumbnailKey]) -> (rearm: Vec<ThumbnailKey>)
        requires
            old(self).wf(),
        ensures
            final(self).wf(),
            final(self).visible@ == visible@,
            rearm@ == to_rearm(cached_keys(old(self).entries@), old(self).visible@, visible@),
            final(self).entries@ == old(self).entries@,
            final(self).failed@ == old(self).failed@,
            final(self).pending@ == old(self).pending@,
    {
        let mut rearm: Vec<ThumbnailKey> = Vec::new();
        let mut i: usize = 0;
        assert(visible@.take(0) =~= Seq::<ThumbnailKey>::empty());
        while i < visible.len()
            invariant
                i <= visible@.len(),
                self.wf(),
                *self == *old(self),
                rearm@ == to_rearm(cached_keys(self.entries@), self.visible@, visible@.take(i as int)),
            decreases visible.len() - i,
        {
            let key = visible[i];
            let ghost prefix = visible@.take(i as int);
            assert(visible@.take(i as int + 1).drop_last() =~= prefix);
            assert(visible@.take(i as int + 1).last() == key);
            let seen_before = contains_key_in(self.visible.as_slice(), key);
            let earlier = vstd::slice::slice_subrange(visible, 0, i);
            assert(earlier@ == prefix);
            let seen_now = contains_key_in(earlier, key);
            if !seen_before && !seen_now {
                proof {
                    lemma_position_of_found(cached_keys(self.entries@), key);
                }
                let shown = if self.cached_position(key).is_some() {
                    Some(key)
                } else {
                    self.compatible_key(key)
                };
                if let Some(k) = shown {
                    rearm.push(k);
                }
            }
            i = i + 1;
        }
        assert(visible@.take(i as int) =~= visible@);
        let mut next: Vec<ThumbnailKey> = Vec::new();
        let mut j: usize = 0;
        while j < visible.len()
            invariant
                j <= visible@.len(),
                next@ == visible@.take(j as int),
            decreases visible.len() - j,
        {
            next.push(visible[j]);
            j = j + 1;
            assert(next@ =~= visible@.take(j as int));
        }
        assert(visible@.take(j as int) =~= visible@);
        self.visible = next;
        rearm
    }
}

/// Recorded failures stay within the entry limit (one at least): recording another never
/// grows a list that is within the bound past it.
pub proof fn law_failures_are_bounded(
    failures: Seq<(ThumbnailKey, Seq<char>)>,
    key: ThumbnailKey,
    message: Seq<char>,
    limit: int,
)
    requires
        limit >= 0,
        failures.len() <= (if limit > 0 { limit } else { 1 }),
    ensures
        failures_after(failures, key, message, limit).len() <= (if limit > 0 { limit } else { 1 }),
{
    let drop = failures_to_drop(failures.len() as int, limit);
    lemma_position_of_found(failures.map_values(|f: (ThumbnailKey, Seq<char>)| f.0), key);
    match position_of(failures.map_values(|f: (ThumbnailKey, Seq<char>)| f.0), key) {
        Some(p) => {
            assert(failures_after(failures, key, message, limit) == failures.update(p, (key, message)));
        },
        None => {
            assert(0 <= drop <= failures.len());
            assert(failures.skip(drop).len() == failures.len() - drop);
            assert(failures_after(failures, key, message, limit) == failures.skip(drop).push((key, message)));
        },
    }
}

} // verus!
