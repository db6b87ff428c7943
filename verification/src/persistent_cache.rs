//! The shared thumbnail cache of the freedesktop.org specification: size classes, file names
//! derived from the source URI, and the metadata that decides whether a cached file is current.

use vstd::prelude::*;

use std::io::Cursor;

use crate::config::{join_path, joined_path};
use crate::image_source::{image_parts, DecodedImage};
use crate::text::{ascii_bytes, chars_of, decimal, decimal_chars, owned, string_of};

verus! {

/// A standard thumbnail size class.
#[derive(Clone, Copy, Debug, PartialEq, Eq, Hash, Structural)]
pub enum CacheClass {
    Normal,
    Large,
    ExtraLarge,
    ExtraExtraLarge,
}

/// The largest dimension of a class, in pixels.
pub open spec fn class_dimension(class: CacheClass) -> u32 {
    match class {
        CacheClass::Normal => 128,
        CacheClass::Large => 256,
        CacheClass::ExtraLarge => 512,
        CacheClass::ExtraExtraLarge => 1024,
    }
}

/// The directory of a class under the cache root.
pub open spec fn class_directory(class: CacheClass) -> Seq<char> {
    match class {
        CacheClass::Normal => "normal"@,
        CacheClass::Large => "large"@,
        CacheClass::ExtraLarge => "x-large"@,
        CacheClass::ExtraExtraLarge => "xx-large"@,
    }
}

/// The smallest class whose dimension covers the larger required dimension; none above 1024.
pub open spec fn class_for(width: u32, height: u32) -> Option<CacheClass> {
    let m = if width >= height { width } else { height };
    if m <= 128 {
        Some(CacheClass::Normal)
    } else if m <= 256 {
        Some(CacheClass::Large)
    } else if m <= 512 {
        Some(CacheClass::ExtraLarge)
    } else if m <= 1024 {
        Some(CacheClass::ExtraExtraLarge)
    } else {
        None
    }
}

/// The class chosen for a thumbnail covers both required dimensions and is the smallest class
/// that does, so width and height play the same part; no class is chosen only when one
/// dimension exceeds the largest class, 1024 pixels.
pub proof fn law_class_is_the_smallest_that_covers(width: u32, height: u32)
    ensures
        class_for(width, height) == class_for(height, width),
        match class_for(width, height) {
            Some(c) => width <= class_dimension(c) && height <= class_dimension(c) && forall|d: CacheClass|
                width <= #[trigger] class_dimension(d) && height <= class_dimension(d) ==> class_dimension(c)
                    <= class_dimension(d),
            None => width > 1024 || height > 1024,
        },
{
}

impl CacheClass {
    /// The class for thumbnails that must cover `width` by `height` pixels.
    pub fn for_required_pixels(width: u32, height: u32) -> (out: Option<CacheClass>)
        ensures
            out == class_for(width, height),
            match out {
                Some(c) => width <= class_dimension(c) && height <= class_dimension(c) && forall|d: CacheClass|
                    width <= #[trigger] class_dimension(d) && height <= class_dimension(d) ==> class_dimension(c)
                        <= class_dimension(d),
                None => width > 1024 || height > 1024,
            },
    {
        proof {
            law_class_is_the_smallest_that_covers(width, height);
        }
        let m = if width >= height { width } else { height };
        if m <= 128 {
            Some(CacheClass::Normal)
        } else if m <= 256 {
            Some(CacheClass::Large)
        } else if m <= 512 {
            Some(CacheClass::ExtraLarge)
        } else if m <= 1024 {
            Some(CacheClass::ExtraExtraLarge)
        } else {
            None
        }
    }

    /// The directory of the class under the cache root.
    pub fn directory(self) -> (out: &'static str)
        ensures
            out@ == class_directory(self),
    {
        match self {
            CacheClass::Normal => "normal",
            CacheClass::Large => "large",
            CacheClass::ExtraLarge => "x-large",
            CacheClass::ExtraExtraLarge => "xx-large",
        }
    }

    /// The largest dimension of the class, in pixels.
    pub fn dimension(self) -> (out: u32)
        ensures
            out == class_dimension(self),
    {
        match self {
            CacheClass::Normal => 128,
            CacheClass::Large => 256,
            CacheClass::ExtraLarge => 512,
            CacheClass::ExtraExtraLarge => 1024,
        }
    }

    /// Whether an image of this size must be scaled down to fit the class.
    pub fn needs_resize(self, width: u32, height: u32) -> (out: bool)
        ensures
            out == !(width <= class_dimension(self) && height <= class_dimension(self)),
    {
        let d = self.dimension();
        !(width <= d && height <= d)
    }

    /// Whether a cached image of this size can belong to the class: non-empty and within the
    /// class dimension.
    pub fn admits(self, width: u32, height: u32) -> (out: bool)
        ensures
            out == (width > 0 && height > 0 && width <= class_dimension(self) && height
                <= class_dimension(self)),
    {
        let d = self.dimension();
        width > 0 && height > 0 && width <= d && height <= d
    }
}

/// Names the MD5 digest of some bytes, as the md5 crate's `compute` returns it.
pub uninterp spec fn md5_digest(data: Seq<u8>) -> Seq<u8>;

/// The MD5 digest of some bytes (md5's `compute`): sixteen bytes, named by `md5_digest`.
#[verifier::external_body]
fn md5_of(data: &[u8]) -> (digest: Vec<u8>)
    ensures
        digest@ == md5_digest(data@),
        digest@.len() == 16,
{
    md5::compute(data).0.to_vec()
}

/// Names the `file://` URI that the url crate's `Url::from_file_path` makes of a path given as
/// text, or nothing where it refuses the path.
pub uninterp spec fn file_uri_of(path: Seq<char>) -> Option<Seq<char>>;

/// The `file://` URI of a path (url's `Url::from_file_path`); the contract only names it. The
/// crate refuses a path that is not absolute.
#[verifier::external_body]
pub fn file_uri(path: &str) -> (out: Option<String>)
    ensures
        match out {
            Some(uri) => file_uri_of(path@) == Some(uri@),
            None => file_uri_of(path@) is None,
        },
{
    url::Url::from_file_path(path).ok().map(String::from)
}

/// The URI a stamp records for a canonical path: the file URI of the path as UTF-8 text. A path
/// that is not UTF-8 has none here, since std offers no safe way to make such bytes a `Path`
/// outside its platform modules.
pub open spec fn stamp_uri(canonical: Seq<u8>) -> Option<Seq<char>> {
    if vstd::utf8::valid_utf8(canonical) {
        file_uri_of(vstd::utf8::decode_utf8(canonical))
    } else {
        None
    }
}

/// The message for a canonical path that has no file URI.
pub open spec fn uri_error(canonical: Seq<u8>) -> Seq<char> {
    "cannot create file URI for "@ + crate::text::utf8_lossy(canonical)
}

/// The stamp of a source file from its canonical path, size and modification time since the
/// epoch: its URI is the file URI of the path, and it fails exactly when there is none.
pub fn source_stamp(canonical: &[u8], size: u64, seconds: u64, nanos: u128) -> (out: Result<SourceStamp, String>)
    ensures
        match stamp_uri(canonical@) {
            Some(uri) => out matches Ok(stamp) && stamp.uri@ == uri && stamp.size == size
                && stamp.mtime_seconds == seconds && stamp.mtime_nanoseconds == nanos,
            None => out matches Err(e) && e@ == uri_error(canonical@),
        },
{
    let uri = match crate::text::utf8_text(canonical) {
        Some(text) => file_uri(text.as_str()),
        None => None,
    };
    match uri {
        Some(uri) => Ok(SourceStamp { uri, size, mtime_seconds: seconds, mtime_nanoseconds: nanos }),
        None => {
            let mut message = chars_of("cannot create file URI for ");
            let shown = crate::text::lossy_text(canonical);
            let mut rest = chars_of(shown.as_str());
            message.append(&mut rest);
            Err(string_of(message.as_slice()))
        },
    }
}

/// The lowercase hexadecimal digit of a number below 16.
pub open spec fn hex_digit(n: int) -> char {
    if n < 10 {
        (n + 48) as char
    } else {
        (n + 87) as char
    }
}

/// Bytes in lowercase hexadecimal, two digits each.
pub open spec fn lower_hex(bytes: Seq<u8>) -> Seq<char>
    decreases bytes.len(),
{
    if bytes.len() == 0 {
        Seq::empty()
    } else {
        lower_hex(bytes.drop_last()) + seq![hex_digit(bytes.last() as int / 16), hex_digit(bytes.last() as int % 16)]
    }
}

fn hex_char(n: u8) -> (c: char)
    requires
        n < 16,
    ensures
        c == hex_digit(n as int),
{
    if n < 10 {
        ((n + 48) as u32) as u8 as char
    } else {
        ((n + 87) as u32) as u8 as char
    }
}

fn hex_of(bytes: &[u8]) -> (out: Vec<char>)
    ensures
        out@ == lower_hex(bytes@),
{
    let mut out: Vec<char> = Vec::new();
    let mut i: usize = 0;
    while i < bytes.len()
        invariant
            i <= bytes@.len(),
            out@ == lower_hex(bytes@.take(i as int)),
        decreases bytes.len() - i,
    {
        assert(bytes@.take(i as int + 1).drop_last() =~= bytes@.take(i as int));
        out.push(hex_char(bytes[i] / 16));
        out.push(hex_char(bytes[i] % 16));
        i = i + 1;
        assert(out@ =~= lower_hex(bytes@.take(i as int)));
    }
    assert(bytes@.take(i as int) =~= bytes@);
    out
}

/// The cache file name of a source URI: the lowercase hexadecimal MD5 digest of the URI's
/// UTF-8 bytes, then `.png`.
pub open spec fn cache_file_name(uri: Seq<char>) -> Seq<char> {
    lower_hex(md5_digest(vstd::utf8::encode_utf8(uri))) + ".png"@
}

/// Where a thumbnail of a class is cached.
pub struct CacheLocation {
    /// The class directory.
    pub directory: Vec<u8>,
    /// The thumbnail file.
    pub path: Vec<u8>,
    pub class: CacheClass,
}

/// The cache file of a source URI in a class directory under `root`.
pub fn cache_location(root: &Vec<u8>, class: CacheClass, uri: &str) -> (out: CacheLocation)
    ensures
        out.class == class,
        out.directory@ == joined_path(root@, ascii_bytes(class_directory(class))),
        out.path@ == joined_path(out.directory@, ascii_bytes(cache_file_name(uri@))),
{
    let directory = join_path(root, class.directory());
    let digest = md5_of(uri.as_bytes());
    let mut name = hex_of(digest.as_slice());
    let mut suffix = chars_of(".png");
    name.append(&mut suffix);
    let name = string_of(name.as_slice());
    let path = join_path(&directory, name.as_str());
    CacheLocation { directory, path, class }
}

/// What identifies a source file version.
pub struct SourceStamp {
    /// The `file://` URI of the canonical path.
    pub uri: String,
    pub size: u64,
    pub mtime_seconds: u64,
    pub mtime_nanoseconds: u128,
}

/// The text fields of a PNG file, in the order they were read; a later field of the same key
/// replaces an earlier one.
pub struct TextFields {
    pub entries: Vec<(String, String)>,
}

/// The value of a key: the last field with that key.
pub open spec fn field_value(entries: Seq<(String, String)>, key: Seq<char>) -> Option<Seq<char>>
    decreases entries.len(),
{
    if entries.len() == 0 {
        None
    } else if entries.last().0@ == key {
        Some(entries.last().1@)
    } else {
        field_value(entries.drop_last(), key)
    }
}

impl TextFields {
    /// No fields.
    pub fn new() -> (out: TextFields)
        ensures
            out.entries@.len() == 0,
    {
        TextFields { entries: Vec::new() }
    }

    /// The value of a key.
    pub open spec fn value(&self, key: Seq<char>) -> Option<Seq<char>> {
        field_value(self.entries@, key)
    }

    /// Sets a key, replacing its value.
    pub fn insert(&mut self, key: String, value: String)
        ensures
            final(self).value(key@) == Some(value@),
            forall|k: Seq<char>| k != key@ ==> final(self).value(k) == old(self).value(k),
    {
        let ghost before = self.entries@;
        self.entries.push((key, value));
        assert(self.entries@.drop_last() =~= before);
    }

    /// Removes a key.
    pub fn remove(&mut self, key: &str)
        ensures
            final(self).value(key@) is None,
            forall|k: Seq<char>| k != key@ ==> final(self).value(k) == old(self).value(k),
    {
        let mut kept: Vec<(String, String)> = Vec::new();
        let mut entries: Vec<(String, String)> = Vec::new();
        std::mem::swap(&mut entries, &mut self.entries);
        let ghost all = entries@;
        let expected = chars_of(key);
        assert(kept@ + entries@ =~= all);
        while entries.len() > 0
            invariant
                field_value(kept@, key@) is None,
                forall|k: Seq<char>| k != key@ ==> field_value(kept@ + entries@, k) == field_value(all, k),
                expected@ == key@,
            decreases entries.len(),
        {
            let ghost before_kept = kept@;
            let ghost before_rest = entries@;
            let first = entries.remove(0);
            assert(before_rest =~= seq![first] + entries@);
            let name = chars_of(first.0.as_str());
            if !crate::text::chars_equal(name.as_slice(), expected.as_slice()) {
                kept.push(first);
                assert(kept@ + entries@ =~= before_kept + before_rest);
                assert(kept@.drop_last() =~= before_kept);
            } else {
                proof {
                    assert forall|k: Seq<char>| k != key@ implies field_value(kept@ + entries@, k) == field_value(all, k) by {
                        lemma_skip_other_key(before_kept, first, entries@, k);
                    }
                }
            }
        }
        assert(kept@ + entries@ =~= kept@);
        self.entries = kept;
    }
}

proof fn lemma_field_value_concat(a: Seq<(String, String)>, b: Seq<(String, String)>, k: Seq<char>)
    ensures
        field_value(a + b, k) == (match field_value(b, k) {
            Some(v) => Some(v),
            None => field_value(a, k),
        }),
    decreases b.len(),
{
    if b.len() == 0 {
        assert(a + b =~= a);
    } else {
        assert((a + b).drop_last() =~= a + b.drop_last());
        assert((a + b).last() == b.last());
        lemma_field_value_concat(a, b.drop_last(), k);
    }
}

proof fn lemma_skip_other_key(front: Seq<(String, String)>, item: (String, String), back: Seq<(String, String)>, k: Seq<char>)
    requires
        item.0@ != k,
    ensures
        field_value(front + back, k) == field_value(front + (seq![item] + back), k),
{
    lemma_field_value_concat(front, back, k);
    lemma_field_value_concat(front, seq![item] + back, k);
    lemma_field_value_concat(seq![item], back, k);
    assert(seq![item].drop_last() =~= Seq::<(String, String)>::empty());
    assert(field_value(Seq::<(String, String)>::empty(), k) is None);
    assert(field_value(seq![item], k) is None);
}

/// Whether cached metadata matches the source: the standard URI, modification time in seconds
/// and size must match; when the schema field is present it must be `2` and the modification
/// time in nanoseconds must match too.
pub open spec fn metadata_current(fields: TextFields, source: SourceStamp) -> bool {
    &&& fields.value("Thumb::URI"@) == Some(source.uri@)
    &&& fields.value("Thumb::MTime"@) == Some(decimal(source.mtime_seconds as nat))
    &&& fields.value("Thumb::Size"@) == Some(decimal(source.size as nat))
    &&& match fields.value("X-RedTable::Schema"@) {
        Some(schema) => schema == "2"@ && fields.value("X-RedTable::MTimeNsec"@) == Some(
            decimal(source.mtime_nanoseconds as nat),
        ),
        None => true,
    }
}

impl TextFields {
    /// The value of a key.
    pub fn get(&self, key: &str) -> (out: Option<String>)
        ensures
            match out {
                Some(v) => self.value(key@) == Some(v@),
                None => self.value(key@) is None,
            },
    {
        let expected = chars_of(key);
        let mut i: usize = self.entries.len();
        assert(self.entries@.take(i as int) =~= self.entries@);
        while i > 0
            invariant
                i <= self.entries@.len(),
                expected@ == key@,
                field_value(self.entries@, key@) == field_value(self.entries@.take(i as int), key@),
            decreases i,
        {
            let name = chars_of(self.entries[i - 1].0.as_str());
            assert(self.entries@.take(i as int).drop_last() =~= self.entries@.take(i - 1));
            if crate::text::chars_equal(name.as_slice(), expected.as_slice()) {
                let value = chars_of(self.entries[i - 1].1.as_str());
                return Some(string_of(value.as_slice()));
            }
            i = i - 1;
        }
        None
    }
}

fn text_is(value: &Option<String>, expected: &[char]) -> (out: bool)
    ensures
        out == (match value {
            Some(v) => v@ == expected@,
            None => false,
        }),
{
    match value {
        Some(v) => {
            let chars = chars_of(v.as_str());
            crate::text::chars_equal(chars.as_slice(), expected)
        },
        None => false,
    }
}

/// Whether cached metadata matches the source.
pub fn metadata_is_current(fields: &TextFields, source: &SourceStamp) -> (out: bool)
    ensures
        out == metadata_current(*fields, *source),
{
    let uri = chars_of(source.uri.as_str());
    if !text_is(&fields.get("Thumb::URI"), uri.as_slice()) {
        return false;
    }
    let mtime = decimal_chars(source.mtime_seconds as u128);
    if !text_is(&fields.get("Thumb::MTime"), mtime.as_slice()) {
        return false;
    }
    let size = decimal_chars(source.size as u128);
    if !text_is(&fields.get("Thumb::Size"), size.as_slice()) {
        return false;
    }
    match fields.get("X-RedTable::Schema") {
        Some(schema) => {
            let expected = chars_of("2");
            let schema_chars = chars_of(schema.as_str());
            if !crate::text::chars_equal(schema_chars.as_slice(), expected.as_slice()) {
                return false;
            }
            let nanos = decimal_chars(source.mtime_nanoseconds);
            text_is(&fields.get("X-RedTable::MTimeNsec"), nanos.as_slice())
        },
        None => true,
    }
}

/// The text fields written with a cached thumbnail: the standard URI, modification time and
/// size, then the nanosecond modification time and the schema.
pub open spec fn written_fields(source: SourceStamp) -> Seq<(Seq<char>, Seq<char>)> {
    seq![
        ("Thumb::URI"@, source.uri@),
        ("Thumb::MTime"@, decimal(source.mtime_seconds as nat)),
        ("Thumb::Size"@, decimal(source.size as nat)),
        ("X-RedTable::MTimeNsec"@, decimal(source.mtime_nanoseconds as nat)),
        ("X-RedTable::Schema"@, "2"@),
    ]
}

/// The text fields to write with a cached thumbnail of `source`.
pub fn cache_text_fields(source: &SourceStamp) -> (out: Vec<(String, String)>)
    ensures
        out@.map_values(|f: (String, String)| (f.0@, f.1@)) == written_fields(*source),
{
    let uri = chars_of(source.uri.as_str());
    let mtime = decimal_chars(source.mtime_seconds as u128);
    let size = decimal_chars(source.size as u128);
    let nanos = decimal_chars(source.mtime_nanoseconds);
    let mut out: Vec<(String, String)> = Vec::new();
    out.push((owned("Thumb::URI"), string_of(uri.as_slice())));
    out.push((owned("Thumb::MTime"), string_of(mtime.as_slice())));
    out.push((owned("Thumb::Size"), string_of(size.as_slice())));
    out.push((owned("X-RedTable::MTimeNsec"), string_of(nanos.as_slice())));
    out.push((owned("X-RedTable::Schema"), owned("2")));
    assert(out@.map_values(|f: (String, String)| (f.0@, f.1@)) =~= written_fields(*source));
    out
}

/// The thumbnail cache root: `thumbnails` under `XDG_CACHE_HOME` when it is set and non-empty,
/// else under `HOME/.cache` when `HOME` is set; no cache otherwise.
pub open spec fn cache_root_of(xdg_cache_home: Option<Seq<u8>>, home: Option<Seq<u8>>) -> Option<Seq<u8>> {
    match xdg_cache_home {
        Some(root) if root.len() > 0 => Some(joined_path(root, ascii_bytes("thumbnails"@))),
        _ => match home {
            Some(root) => Some(
                joined_path(joined_path(root, ascii_bytes(".cache"@)), ascii_bytes("thumbnails"@)),
            ),
            None => None,
        },
    }
}

/// The thumbnail cache root, given the values of `XDG_CACHE_HOME` and `HOME`.
pub fn cache_root(xdg_cache_home: &Option<Vec<u8>>, home: &Option<Vec<u8>>) -> (out: Option<Vec<u8>>)
    ensures
        match cache_root_of(
            match xdg_cache_home { Some(v) => Some(v@), None => None },
            match home { Some(v) => Some(v@), None => None },
        ) {
            Some(p) => out matches Some(v) && v@ == p,
            None => out is None,
        },
{
    if let Some(root) = xdg_cache_home {
        if root.len() > 0 {
            return Some(join_path(root, "thumbnails"));
        }
    }
    match home {
        Some(root) => {
            let cache = join_path(root, ".cache");
            Some(join_path(&cache, "thumbnails"))
        },
        None => None,
    }
}

/// The name of a temporary file in the class directory: `.red-table-`, the process id, `-`,
/// a sequence number and `.tmp`.
pub fn temporary_name(process_id: u32, sequence: u64) -> (out: String)
    ensures
        out@ == ".red-table-"@ + decimal(process_id as nat) + "-"@ + decimal(sequence as nat) + ".tmp"@,
{
    let mut text = chars_of(".red-table-");
    let mut pid = decimal_chars(process_id as u128);
    text.append(&mut pid);
    text.push('-');
    let mut seq_digits = decimal_chars(sequence as u128);
    text.append(&mut seq_digits);
    let mut tail = chars_of(".tmp");
    text.append(&mut tail);
    proof {
        reveal_strlit("-");
        assert(text@ =~= ".red-table-"@ + decimal(process_id as nat) + "-"@ + decimal(sequence as nat) + ".tmp"@);
    }
    string_of(text.as_slice())
}

/// How many times a source that keeps changing is read before giving up.
pub const MAX_SOURCE_ATTEMPTS: usize = 2;

/// Whether two stamps describe the same version of a source.
pub open spec fn same_stamp(a: SourceStamp, b: SourceStamp) -> bool {
    &&& a.uri@ == b.uri@
    &&& a.size == b.size
    &&& a.mtime_seconds == b.mtime_seconds
    &&& a.mtime_nanoseconds == b.mtime_nanoseconds
}

/// Whether two stamps describe the same version of a source.
pub fn stamps_match(a: &SourceStamp, b: &SourceStamp) -> (out: bool)
    ensures
        out == same_stamp(*a, *b),
{
    let ua = chars_of(a.uri.as_str());
    let ub = chars_of(b.uri.as_str());
    crate::text::chars_equal(ua.as_slice(), ub.as_slice()) && a.size == b.size && a.mtime_seconds
        == b.mtime_seconds && a.mtime_nanoseconds == b.mtime_nanoseconds
}

/// Whether `location` is where a thumbnail of `class` for the source `uri` is cached under `root`.
pub open spec fn is_location(location: CacheLocation, root: Seq<u8>, class: CacheClass, uri: Seq<char>) -> bool {
    &&& location.class == class
    &&& location.directory@ == joined_path(root, ascii_bytes(class_directory(class)))
    &&& location.path@ == joined_path(location.directory@, ascii_bytes(cache_file_name(uri)))
}

/// What the preparation of a cached source waits for.
pub enum PreparePhase {
    /// The stamp at the start of an attempt.
    AwaitStamp,
    /// Whether a valid cached file exists for the stamp.
    AwaitCache(SourceStamp),
    /// The stamp after a cached file was read.
    AwaitHitStamp(SourceStamp),
    /// Whether the original could be decoded.
    AwaitDecode(SourceStamp),
    /// The stamp after the original was decoded.
    AwaitDecodeStamp(SourceStamp),
}

/// A preparation of a source through the shared cache.
pub struct PrepareState {
    /// The source file, as raw bytes.
    pub path: Vec<u8>,
    /// The cache root.
    pub root: Vec<u8>,
    pub class: CacheClass,
    /// The attempt under way, counted from 0.
    pub attempt: usize,
    pub phase: PreparePhase,
}

/// What the outside work reports.
pub enum PrepareEvent {
    /// The stamp of the source, or none when it could not be read.
    Stamp(Option<SourceStamp>),
    /// Whether a valid cached file was read.
    Cache(bool),
    /// Whether the original was decoded, or why not.
    Decoded(Result<(), String>),
}

/// The outside work to do next.
pub enum PrepareAction {
    ReadStamp,
    /// Read the cached file at this location and check it against the stamp.
    ReadCache(CacheLocation),
    DecodeOriginal,
}

/// How a preparation ends.
pub enum PrepareOutcome {
    /// Decode the original and use it without the cache.
    DecodeUncached,
    /// Use the cached file read last, a disk hit.
    UseCached,
    /// Scale the decoded original to the class, store it at the location with the stamp's
    /// metadata (a failed store is ignored) and use it.
    StoreDecoded(CacheLocation, SourceStamp),
    Fail(String),
}

/// The next step of a preparation.
pub enum PrepareNext {
    Continue(PrepareState, PrepareAction),
    Finish(PrepareOutcome),
}

/// The message when the source kept changing.
pub open spec fn changing_source_message(path: Seq<u8>) -> Seq<char> {
    "source changed repeatedly while generating thumbnail: "@ + crate::text::utf8_lossy(path)
}

/// `next` continues with `state` in `phase`, the other fields as in `before`.
pub open spec fn continues_in(next: PrepareNext, before: PrepareState, attempt: int, phase: PreparePhase) -> bool {
    next matches PrepareNext::Continue(state, _) && state.path == before.path && state.root == before.root
        && state.class == before.class && state.attempt == attempt && state.phase == phase
}

/// The action of a continuing step.
pub open spec fn continue_action(next: PrepareNext) -> Option<PrepareAction> {
    match next {
        PrepareNext::Continue(_, action) => Some(action),
        PrepareNext::Finish(_) => None,
    }
}

/// The action that reads the cache for a stamp.
pub open spec fn reads_cache_for(action: Option<PrepareAction>, before: PrepareState, stamp: SourceStamp) -> bool {
    action matches Some(PrepareAction::ReadCache(location)) && is_location(location, before.root@, before.class, stamp.uri@)
}

/// The action a phase waits on.
pub open spec fn awaited(action: Option<PrepareAction>, before: PrepareState) -> bool {
    match before.phase {
        PreparePhase::AwaitStamp => action == Some(PrepareAction::ReadStamp),
        PreparePhase::AwaitCache(s) => reads_cache_for(action, before, s),
        PreparePhase::AwaitHitStamp(_) => action == Some(PrepareAction::ReadStamp),
        PreparePhase::AwaitDecode(_) => action == Some(PrepareAction::DecodeOriginal),
        PreparePhase::AwaitDecodeStamp(_) => action == Some(PrepareAction::ReadStamp),
    }
}

impl PrepareState {
    /// Where a preparation begins: without a cache class for the required pixels or without a
    /// cache root the original is decoded directly; otherwise the source's stamp is read first.
    pub fn start(path: Vec<u8>, root: Option<Vec<u8>>, required_pixels: (u32, u32)) -> (next: PrepareNext)
        ensures
            match (class_for(required_pixels.0, required_pixels.1), root) {
                (Some(class), Some(r)) => next matches PrepareNext::Continue(state, PrepareAction::ReadStamp)
                    && state.path == path && state.root == r && state.class == class && state.attempt == 0
                    && state.phase == PreparePhase::AwaitStamp,
                _ => next matches PrepareNext::Finish(PrepareOutcome::DecodeUncached),
            },
    {
        match (CacheClass::for_required_pixels(required_pixels.0, required_pixels.1), root) {
            (Some(class), Some(r)) => PrepareNext::Continue(
                PrepareState { path, root: r, class, attempt: 0, phase: PreparePhase::AwaitStamp },
                PrepareAction::ReadStamp,
            ),
            _ => PrepareNext::Finish(PrepareOutcome::DecodeUncached),
        }
    }

    /// The preparation is consistent: the attempt is one of the allowed ones.
    pub open spec fn wf(&self) -> bool {
        self.attempt < MAX_SOURCE_ATTEMPTS
    }

    fn read_cache(&self, stamp: &SourceStamp) -> (action: PrepareAction)
        ensures
            reads_cache_for(Some(action), *self, *stamp),
    {
        PrepareAction::ReadCache(cache_location(&self.root, self.class, stamp.uri.as_str()))
    }

    /// Takes what the outside work reported and tells what to do next. A cached file is used only
    /// when the stamps read before and after it agree; a decoded original is stored only when the
    /// stamps read before and after decoding agree, and otherwise the next attempt starts, until
    /// the attempts are used up. An event the phase does not wait for changes nothing.
    pub fn step(self, event: PrepareEvent) -> (next: PrepareNext)
        requires
            self.wf(),
        ensures
            next matches PrepareNext::Continue(state, _) ==> state.wf(),
            next matches PrepareNext::Finish(PrepareOutcome::UseCached) ==> (self.phase
                matches PreparePhase::AwaitHitStamp(s) && event matches PrepareEvent::Stamp(Some(a))
                && same_stamp(a, s)),
            next matches PrepareNext::Finish(PrepareOutcome::StoreDecoded(_, stamp)) ==> (self.phase
                matches PreparePhase::AwaitDecodeStamp(s) && event matches PrepareEvent::Stamp(Some(a))
                && same_stamp(a, s) && same_stamp(stamp, s)),
            match (self.phase, event) {
                (PreparePhase::AwaitStamp, PrepareEvent::Stamp(Some(s))) => continues_in(
                    next,
                    self,
                    self.attempt as int,
                    PreparePhase::AwaitCache(s),
                ) && reads_cache_for(continue_action(next), self, s),
                (PreparePhase::AwaitStamp, PrepareEvent::Stamp(None)) => next
                    matches PrepareNext::Finish(PrepareOutcome::DecodeUncached),
                (PreparePhase::AwaitCache(s), PrepareEvent::Cache(found)) => if found {
                    continues_in(next, self, self.attempt as int, PreparePhase::AwaitHitStamp(s))
                        && continue_action(next) == Some(PrepareAction::ReadStamp)
                } else {
                    continues_in(next, self, self.attempt as int, PreparePhase::AwaitDecode(s))
                        && continue_action(next) == Some(PrepareAction::DecodeOriginal)
                },
                (PreparePhase::AwaitHitStamp(s), PrepareEvent::Stamp(after)) => if after matches Some(a)
                    && same_stamp(a, s) {
                    next matches PrepareNext::Finish(PrepareOutcome::UseCached)
                } else {
                    continues_in(next, self, self.attempt as int, PreparePhase::AwaitDecode(s))
                        && continue_action(next) == Some(PrepareAction::DecodeOriginal)
                },
                (PreparePhase::AwaitDecode(s), PrepareEvent::Decoded(result)) => match result {
                    Ok(()) => continues_in(next, self, self.attempt as int, PreparePhase::AwaitDecodeStamp(s))
                        && continue_action(next) == Some(PrepareAction::ReadStamp),
                    Err(e) => next matches PrepareNext::Finish(PrepareOutcome::Fail(m)) && m@ == e@,
                },
                (PreparePhase::AwaitDecodeStamp(s), PrepareEvent::Stamp(after)) => if after matches Some(a)
                    && same_stamp(a, s) {
                    next matches PrepareNext::Finish(PrepareOutcome::StoreDecoded(location, stamp))
                        && is_location(location, self.root@, self.class, s.uri@) && same_stamp(stamp, s)
                } else if self.attempt + 1 < MAX_SOURCE_ATTEMPTS {
                    continues_in(next, self, self.attempt + 1, PreparePhase::AwaitStamp)
                        && continue_action(next) == Some(PrepareAction::ReadStamp)
                } else {
                    next matches PrepareNext::Finish(PrepareOutcome::Fail(m)) && m@ == changing_source_message(
                        self.path@,
                    )
                },
                _ => continues_in(next, self, self.attempt as int, self.phase) && awaited(
                    continue_action(next),
                    self,
                ),
            },
    {
        let ghost before = self;
        let PrepareState { path, root, class, attempt, phase } = self;
        match phase {
            PreparePhase::AwaitStamp => match event {
                PrepareEvent::Stamp(Some(s)) => {
                    let state = PrepareState { path, root, class, attempt, phase: PreparePhase::AwaitStamp };
                    let action = state.read_cache(&s);
                    PrepareNext::Continue(PrepareState { phase: PreparePhase::AwaitCache(s), ..state }, action)
                },
                PrepareEvent::Stamp(None) => PrepareNext::Finish(PrepareOutcome::DecodeUncached),
                _ => PrepareNext::Continue(
                    PrepareState { path, root, class, attempt, phase: PreparePhase::AwaitStamp },
                    PrepareAction::ReadStamp,
                ),
            },
            PreparePhase::AwaitCache(s) => match event {
                PrepareEvent::Cache(found) => if found {
                    PrepareNext::Continue(
                        PrepareState { path, root, class, attempt, phase: PreparePhase::AwaitHitStamp(s) },
                        PrepareAction::ReadStamp,
                    )
                } else {
                    PrepareNext::Continue(
                        PrepareState { path, root, class, attempt, phase: PreparePhase::AwaitDecode(s) },
                        PrepareAction::DecodeOriginal,
                    )
                },
                _ => {
                    let state = PrepareState { path, root, class, attempt, phase: PreparePhase::AwaitStamp };
                    let action = state.read_cache(&s);
                    PrepareNext::Continue(PrepareState { phase: PreparePhase::AwaitCache(s), ..state }, action)
                },
            },
            PreparePhase::AwaitHitStamp(s) => match event {
                PrepareEvent::Stamp(after) => {
                    let same = match &after {
                        Some(a) => stamps_match(a, &s),
                        None => false,
                    };
                    if same {
                        PrepareNext::Finish(PrepareOutcome::UseCached)
                    } else {
                        PrepareNext::Continue(
                            PrepareState { path, root, class, attempt, phase: PreparePhase::AwaitDecode(s) },
                            PrepareAction::DecodeOriginal,
                        )
                    }
                },
                _ => PrepareNext::Continue(
                    PrepareState { path, root, class, attempt, phase: PreparePhase::AwaitHitStamp(s) },
                    PrepareAction::ReadStamp,
                ),
            },
            PreparePhase::AwaitDecode(s) => match event {
                PrepareEvent::Decoded(Ok(())) => PrepareNext::Continue(
                    PrepareState { path, root, class, attempt, phase: PreparePhase::AwaitDecodeStamp(s) },
                    PrepareAction::ReadStamp,
                ),
                PrepareEvent::Decoded(Err(e)) => PrepareNext::Finish(PrepareOutcome::Fail(e)),
                _ => PrepareNext::Continue(
                    PrepareState { path, root, class, attempt, phase: PreparePhase::AwaitDecode(s) },
                    PrepareAction::DecodeOriginal,
                ),
            },
            PreparePhase::AwaitDecodeStamp(s) => match event {
                PrepareEvent::Stamp(after) => {
                    let same = match &after {
                        Some(a) => stamps_match(a, &s),
                        None => false,
                    };
                    if same {
                        let location = cache_location(&root, class, s.uri.as_str());
                        PrepareNext::Finish(PrepareOutcome::StoreDecoded(location, s))
                    } else if attempt + 1 < MAX_SOURCE_ATTEMPTS {
                        PrepareNext::Continue(
                            PrepareState { path, root, class, attempt: attempt + 1, phase: PreparePhase::AwaitStamp },
                            PrepareAction::ReadStamp,
                        )
                    } else {
                        let shown = crate::text::lossy_text(path.as_slice());
                        let mut text = chars_of("source changed repeatedly while generating thumbnail: ");
                        let mut rest = chars_of(shown.as_str());
                        text.append(&mut rest);
                        PrepareNext::Finish(PrepareOutcome::Fail(string_of(text.as_slice())))
                    }
                },
                _ => PrepareNext::Continue(
                    PrepareState { path, root, class, attempt, phase: PreparePhase::AwaitDecodeStamp(s) },
                    PrepareAction::ReadStamp,
                ),
            },
        }
    }
}

/// The most bytes the PNG decoder may allocate for a cached thumbnail (8 MiB).
pub const MAX_DECODED_CACHE_BYTES: usize = 8388608;

/// Names the PNG file that the png crate encodes from 8-bit RGBA pixels of the given size with
/// the given tEXt fields, in order, or the error text of the encoder.
pub uninterp spec fn png_rgba8(width: u32, height: u32, rgba: Seq<u8>, fields: Seq<(Seq<char>, Seq<char>)>) -> Result<Seq<u8>, Seq<char>>;

/// Encodes 8-bit RGBA pixels as a PNG file with tEXt fields (png's `Encoder`, with the fields
/// set as the info's uncompressed Latin-1 text, as `Encoder::add_text_chunk` sets them); the
/// contract only names the result.
#[verifier::external_body]
fn encode_png_rgba8(width: u32, height: u32, rgba: &[u8], fields: Vec<(String, String)>) -> (out: Result<Vec<u8>, String>)
    ensures
        match out {
            Ok(bytes) => png_rgba8(width, height, rgba@, fields@.map_values(|f: (String, String)| (f.0@, f.1@)))
                == Ok::<Seq<u8>, Seq<char>>(bytes@),
            Err(e) => png_rgba8(width, height, rgba@, fields@.map_values(|f: (String, String)| (f.0@, f.1@)))
                == Err::<Seq<u8>, Seq<char>>(e@),
        },
{
    let mut info = png::Info::with_size(width, height);
    info.color_type = png::ColorType::Rgba;
    info.bit_depth = png::BitDepth::Eight;
    info.uncompressed_latin1_text = fields.into_iter().map(|(k, v)| png::text_metadata::TEXtChunk::new(k, v)).collect();
    let mut out = Vec::new();
    let encoder = png::Encoder::with_info(&mut out, info).map_err(|e| e.to_string())?;
    let mut writer = encoder.write_header().map_err(|e| e.to_string())?;
    writer.write_image_data(rgba).map_err(|e| e.to_string())?;
    writer.finish().map_err(|e| e.to_string())?;
    Ok(out)
}

/// The bytes of the cache file for a thumbnail of 8-bit RGBA pixels: a PNG file carrying the
/// standard `Thumb::URI`, `Thumb::MTime` and `Thumb::Size` fields of the source and the
/// library's nanosecond time and schema fields.
pub fn cache_file_bytes(width: u32, height: u32, rgba: &[u8], source: &SourceStamp) -> (out: Result<Vec<u8>, String>)
    ensures
        match png_rgba8(width, height, rgba@, written_fields(*source)) {
            Ok(bytes) => out matches Ok(v) && v@ == bytes,
            Err(e) => out matches Err(m) && m@ == e,
        },
{
    let fields = cache_text_fields(source);
    encode_png_rgba8(width, height, rgba, fields)
}

/// Names the image size that the png crate reads from a PNG file's header under a decode limit,
/// or its error text.
pub uninterp spec fn png_size_of(bytes: Seq<u8>, limit: usize) -> Result<(u32, u32), Seq<char>>;

/// The image size in a PNG file's header (png's `Decoder::read_info`); the contract only names it.
#[verifier::external_body]
fn png_size(bytes: &[u8], limit: usize) -> (out: Result<(u32, u32), String>)
    ensures
        match out {
            Ok(size) => png_size_of(bytes@, limit) == Ok::<(u32, u32), Seq<char>>(size),
            Err(e) => png_size_of(bytes@, limit) == Err::<(u32, u32), Seq<char>>(e@),
        },
{
    let mut decoder = png::Decoder::new(Cursor::new(bytes));
    decoder.set_limits(png::Limits { bytes: limit });
    let reader = decoder.read_info().map_err(|e| e.to_string())?;
    Ok((reader.info().width, reader.info().height))
}

/// Names the text chunks that the png crate reads before the image data of a PNG file under a
/// decode limit: the tEXt chunks, then the zTXt chunks, then the iTXt chunks, each in file order,
/// as its keyword and its text, or no text where the crate cannot decode it; or the error text.
pub uninterp spec fn png_text_of(bytes: Seq<u8>, limit: usize) -> Result<Seq<(Seq<char>, Option<Seq<char>>)>, Seq<char>>;

/// The view of a text chunk as read.
pub open spec fn chunk_view(chunk: (String, Option<String>)) -> (Seq<char>, Option<Seq<char>>) {
    (chunk.0@, match chunk.1 {
        Some(text) => Some(text@),
        None => None,
    })
}

/// The text chunks of a PNG file (png's `Info` text lists, with `get_text` for the compressed
/// and international ones); the contract only names them.
#[verifier::external_body]
fn png_text(bytes: &[u8], limit: usize) -> (out: Result<Vec<(String, Option<String>)>, String>)
    ensures
        match out {
            Ok(chunks) => png_text_of(bytes@, limit) == Ok::<Seq<(Seq<char>, Option<Seq<char>>)>, Seq<char>>(
                chunks@.map_values(|c: (String, Option<String>)| chunk_view(c)),
            ),
            Err(e) => png_text_of(bytes@, limit) == Err::<Seq<(Seq<char>, Option<Seq<char>>)>, Seq<char>>(e@),
        },
{
    let mut decoder = png::Decoder::new(Cursor::new(bytes));
    decoder.set_limits(png::Limits { bytes: limit });
    let reader = decoder.read_info().map_err(|e| e.to_string())?;
    let info = reader.info();
    let mut chunks: Vec<(String, Option<String>)> = info.uncompressed_latin1_text.iter().map(|c| (c.keyword.clone(), Some(c.text.clone()))).collect();
    chunks.extend(info.compressed_latin1_text.iter().map(|c| (c.keyword.clone(), c.get_text().ok())));
    chunks.extend(info.utf8_text.iter().map(|c| (c.keyword.clone(), c.get_text().ok())));
    Ok(chunks)
}

/// Names the pixels that the png crate decodes from a PNG file under a decode limit, normalized
/// to 8-bit samples with palettes expanded, as plain values (see `image_parts`, with one byte per
/// sample); nothing where the crate cannot size the output buffer within the limit; or the error
/// text.
pub uninterp spec fn png_pixels_of(bytes: Seq<u8>, limit: usize) -> Result<Option<(u32, u32, u8, u8, Seq<u8>)>, Seq<char>>;

/// The pixels of a PNG file (png's `Reader::next_frame` with `normalize_to_color8`); the
/// contract only names them.
#[verifier::external_body]
fn png_pixels(bytes: &[u8], limit: usize) -> (out: Result<Option<DecodedImage>, String>)
    ensures
        match out {
            Ok(Some(image)) => png_pixels_of(bytes@, limit) == Ok::<Option<(u32, u32, u8, u8, Seq<u8>)>, Seq<char>>(Some(image_parts(image))),
            Ok(None) => png_pixels_of(bytes@, limit) == Ok::<Option<(u32, u32, u8, u8, Seq<u8>)>, Seq<char>>(None),
            Err(e) => png_pixels_of(bytes@, limit) == Err::<Option<(u32, u32, u8, u8, Seq<u8>)>, Seq<char>>(e@),
        },
{
    let mut decoder = png::Decoder::new(Cursor::new(bytes));
    decoder.set_limits(png::Limits { bytes: limit });
    decoder.set_transformations(png::Transformations::normalize_to_color8());
    let mut reader = decoder.read_info().map_err(|e| e.to_string())?;
    let Some(size) = reader.output_buffer_size() else { return Ok(None) };
    let mut pixels = vec![0; size];
    let output = reader.next_frame(&mut pixels).map_err(|e| e.to_string())?;
    pixels.truncate(output.buffer_size());
    let samples = output.color_type.samples() as u8;
    Ok(Some(DecodedImage { width: output.width, height: output.height, channels: samples, bytes_per_pixel: samples, pixels }))
}

/// The fields of text chunks, in order, leaving out those whose text could not be read.
pub open spec fn chunk_fields(chunks: Seq<(Seq<char>, Option<Seq<char>>)>) -> Seq<(Seq<char>, Seq<char>)>
    decreases chunks.len(),
{
    if chunks.len() == 0 {
        Seq::empty()
    } else {
        match chunks.last().1 {
            Some(text) => chunk_fields(chunks.drop_last()).push((chunks.last().0, text)),
            None => chunk_fields(chunks.drop_last()),
        }
    }
}

/// The value of a key in fields given as text: the last field with that key.
pub open spec fn text_field_value(fields: Seq<(Seq<char>, Seq<char>)>, key: Seq<char>) -> Option<Seq<char>>
    decreases fields.len(),
{
    if fields.len() == 0 {
        None
    } else if fields.last().0 == key {
        Some(fields.last().1)
    } else {
        text_field_value(fields.drop_last(), key)
    }
}

/// `metadata_current` over fields given as text.
pub open spec fn fields_current(fields: Seq<(Seq<char>, Seq<char>)>, source: SourceStamp) -> bool {
    &&& text_field_value(fields, "Thumb::URI"@) == Some(source.uri@)
    &&& text_field_value(fields, "Thumb::MTime"@) == Some(decimal(source.mtime_seconds as nat))
    &&& text_field_value(fields, "Thumb::Size"@) == Some(decimal(source.size as nat))
    &&& match text_field_value(fields, "X-RedTable::Schema"@) {
        Some(schema) => schema == "2"@ && text_field_value(fields, "X-RedTable::MTimeNsec"@) == Some(
            decimal(source.mtime_nanoseconds as nat),
        ),
        None => true,
    }
}

proof fn lemma_field_value_text(entries: Seq<(String, String)>, key: Seq<char>)
    ensures
        field_value(entries, key) == text_field_value(entries.map_values(|f: (String, String)| (f.0@, f.1@)), key),
    decreases entries.len(),
{
    let view = entries.map_values(|f: (String, String)| (f.0@, f.1@));
    if entries.len() > 0 {
        assert(view.drop_last() =~= entries.drop_last().map_values(|f: (String, String)| (f.0@, f.1@)));
        lemma_field_value_text(entries.drop_last(), key);
    }
}

/// Decoded pixels fit their size: one to four channels of one byte each, and at least as many
/// bytes as width times height pixels hold.
pub open spec fn pixels_fit(parts: (u32, u32, u8, u8, Seq<u8>)) -> bool {
    let (width, height, channels, bytes_per_pixel, pixels) = parts;
    &&& 1 <= channels <= 4
    &&& bytes_per_pixel == channels
    &&& pixels.len() >= width as int * height as int * channels as int
}

/// What reading a cache file gives: the header's error; nothing when the class refuses the
/// image size or the metadata does not match the source; otherwise the decoded pixels, or the
/// error of decoding them.
pub open spec fn cache_file_contents(bytes: Seq<u8>, class: CacheClass, source: SourceStamp)
    -> Result<Option<(u32, u32, u8, u8, Seq<u8>)>, Seq<char>>
{
    match png_size_of(bytes, MAX_DECODED_CACHE_BYTES) {
        Err(e) => Err(e),
        Ok((width, height)) => if !(width > 0 && height > 0 && width <= class_dimension(class) && height
            <= class_dimension(class)) {
            Ok(None)
        } else {
            match png_text_of(bytes, MAX_DECODED_CACHE_BYTES) {
                Err(e) => Err(e),
                Ok(chunks) => if !fields_current(chunk_fields(chunks), source) {
                    Ok(None)
                } else {
                    match png_pixels_of(bytes, MAX_DECODED_CACHE_BYTES) {
                        Err(e) => Err(e),
                        Ok(None) => Err("cached PNG exceeds the decode limit"@),
                        Ok(Some(parts)) => if pixels_fit(parts) {
                            Ok(Some(parts))
                        } else {
                            Err("cached PNG pixel buffer is inconsistent"@)
                        },
                    }
                },
            }
        },
    }
}

/// Reads a cached thumbnail file of a class for a source: its pixels when the file is a PNG of
/// a size the class admits whose metadata matches the source, nothing when it is not current,
/// or the error of reading it.
pub fn read_cache_file(bytes: &[u8], class: CacheClass, source: &SourceStamp) -> (out: Result<Option<DecodedImage>, String>)
    ensures
        match cache_file_contents(bytes@, class, *source) {
            Ok(Some(parts)) => out matches Ok(Some(image)) && image_parts(image) == parts,
            Ok(None) => out matches Ok(None),
            Err(e) => out matches Err(m) && m@ == e,
        },
{
    let (width, height) = match png_size(bytes, MAX_DECODED_CACHE_BYTES) {
        Ok(size) => size,
        Err(e) => {
            return Err(e);
        },
    };
    if !class.admits(width, height) {
        return Ok(None);
    }
    let chunks = match png_text(bytes, MAX_DECODED_CACHE_BYTES) {
        Ok(chunks) => chunks,
        Err(e) => {
            return Err(e);
        },
    };
    let ghost all = chunks@.map_values(|c: (String, Option<String>)| chunk_view(c));
    let mut fields = TextFields::new();
    let mut i: usize = 0;
    while i < chunks.len()
        invariant
            i <= chunks@.len(),
            all == chunks@.map_values(|c: (String, Option<String>)| chunk_view(c)),
            fields.entries@.map_values(|f: (String, String)| (f.0@, f.1@)) == chunk_fields(all.take(i as int)),
        decreases chunks.len() - i,
    {
        assert(all.take(i as int + 1).drop_last() =~= all.take(i as int));
        let ghost before = fields.entries@;
        match &chunks[i].1 {
            Some(text) => {
                fields.entries.push((chunks[i].0.clone(), text.clone()));
                assert(fields.entries@.drop_last() =~= before);
                assert(fields.entries@.map_values(|f: (String, String)| (f.0@, f.1@)) =~= chunk_fields(all.take(i as int)).push(
                    (chunks@[i as int].0@, text@),
                ));
            },
            None => {},
        }
        i = i + 1;
    }
    assert(all.take(i as int) =~= all);
    proof {
        lemma_field_value_text(fields.entries@, "Thumb::URI"@);
        lemma_field_value_text(fields.entries@, "Thumb::MTime"@);
        lemma_field_value_text(fields.entries@, "Thumb::Size"@);
        lemma_field_value_text(fields.entries@, "X-RedTable::Schema"@);
        lemma_field_value_text(fields.entries@, "X-RedTable::MTimeNsec"@);
    }
    if !metadata_is_current(&fields, source) {
        return Ok(None);
    }
    match png_pixels(bytes, MAX_DECODED_CACHE_BYTES) {
        Err(e) => Err(e),
        Ok(None) => Err(owned("cached PNG exceeds the decode limit")),
        Ok(Some(image)) => {
            let w = image.width as u128;
            let h = image.height as u128;
            let c = image.channels as u128;
            assert(w * h <= 0xffff_ffff * 0xffff_ffff) by (nonlinear_arith)
                requires w <= 0xffff_ffff, h <= 0xffff_ffff;
            assert(w * h * c <= 0xffff_ffff * 0xffff_ffff * 255) by (nonlinear_arith)
                requires w * h <= 0xffff_ffff * 0xffff_ffff, c <= 255, w * h >= 0;
            let enough = w * h * c;
            if 1 <= image.channels && image.channels <= 4 && image.bytes_per_pixel == image.channels
                && image.pixels.len() as u128 >= enough {
                Ok(Some(image))
            } else {
                Err(owned("cached PNG pixel buffer is inconsistent"))
            }
        },
    }
}

} // verus!
