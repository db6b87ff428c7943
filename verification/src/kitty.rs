//! The Kitty graphics protocol: image identifiers and their lifecycle, and the escape sequences
//! that transmit and delete images, wrapped for tmux when needed.

use vstd::prelude::*;

use crate::text::{ascii_bytes, chars_of, decimal, decimal_chars, owned, string_of};

verus! {

/// The largest image identifier; identifiers wrap around to 1 after it.
pub const MAX_IMAGE_ID: u32 = 16777215;
/// The most image identifiers tracked at once, shown or waiting for deletion.
pub const MAX_TRACKED_IMAGE_IDS: usize = 512;
/// The most placeholder rows an image can use.
pub const MAX_PLACEHOLDER_ROWS: u16 = 297;
/// The bytes of image data in one transmitted chunk.
pub const BYTES_PER_CHUNK: usize = 3072;

/// Whether the program runs inside tmux: `TMUX` is set and non-empty, `TERM` starts with
/// `tmux`, or `TERM_PROGRAM` is exactly `tmux`.
pub open spec fn tmux_environment(tmux: Option<Seq<u8>>, term: Option<Seq<u8>>, program: Option<Seq<u8>>) -> bool {
    ||| (tmux matches Some(v) && v.len() > 0)
    ||| (term matches Some(v) && v.len() >= 4 && v.take(4) == ascii_bytes("tmux"@))
    ||| (program matches Some(v) && v == ascii_bytes("tmux"@))
}

/// Whether the environment values say the program runs inside tmux.
pub fn is_tmux_environment(tmux: Option<&[u8]>, term: Option<&[u8]>, program: Option<&[u8]>) -> (out: bool)
    ensures
        out == tmux_environment(
            match tmux { Some(v) => Some(v@), None => None },
            match term { Some(v) => Some(v@), None => None },
            match program { Some(v) => Some(v@), None => None },
        ),
{
    let in_tmux = match tmux {
        Some(v) => v.len() > 0,
        None => false,
    };
    let named = match term {
        Some(v) => {
            if v.len() >= 4 {
                let prefix = vstd::slice::slice_subrange(v, 0, 4);
                assert(prefix@ == v@.take(4));
                crate::text::bytes_are(prefix, "tmux")
            } else {
                false
            }
        },
        None => false,
    };
    let program_is = match program {
        Some(v) => crate::text::bytes_are(v, "tmux"),
        None => false,
    };
    in_tmux || named || program_is
}

fn contains_number(values: &[u32], x: u32) -> (found: bool)
    ensures
        found == values@.contains(x),
{
    let mut i: usize = 0;
    while i < values.len()
        invariant
            i <= values@.len(),
            forall|j: int| 0 <= j < i ==> values@[j] != x,
        decreases values.len() - i,
    {
        if values[i] == x {
            assert(values@[i as int] == x);
            return true;
        }
        i = i + 1;
    }
    false
}

/// The identifier after `current`, wrapping to 1 after the largest.
pub open spec fn following_id(current: u32) -> u32 {
    if current >= MAX_IMAGE_ID {
        1
    } else {
        (current + 1) as u32
    }
}

/// The source of image identifiers, shared by every image of the process.
pub struct ImageIdCounter {
    pub next: u32,
}

impl ImageIdCounter {
    /// A counter that hands out 1 first.
    pub fn new() -> (counter: ImageIdCounter)
        ensures
            counter.next == 1,
    {
        ImageIdCounter { next: 1 }
    }

    /// Hands out the next identifier.
    pub fn take(&mut self) -> (id: u32)
        ensures
            id == old(self).next,
            final(self).next == following_id(old(self).next),
    {
        let id = self.next;
        self.next = if id >= MAX_IMAGE_ID {
            1
        } else {
            id + 1
        };
        id
    }
}

/// The first identifier from `start` on, trying at most `tries` in turn, that `taken` does not
/// hold, with the counter state after it.
pub open spec fn first_free(start: u32, tries: nat, taken: Set<u32>) -> Option<(u32, u32)>
    decreases tries,
{
    if tries == 0 {
        None
    } else if !taken.contains(start) {
        Some((start, following_id(start)))
    } else {
        first_free(following_id(start), (tries - 1) as nat, taken)
    }
}

/// The counter state after `tries` identifiers from `start`.
pub open spec fn advanced(start: u32, tries: nat) -> u32
    decreases tries,
{
    if tries == 0 {
        start
    } else {
        advanced(following_id(start), (tries - 1) as nat)
    }
}

/// The message when too many images are tracked.
pub open spec fn bound_message() -> Seq<char> {
    "Kitty image lifecycle reached its 512-image bound"@
}

/// The identifiers of the images shown and of those whose data awaits deletion.
pub struct KittyLifecycle {
    pub active: Vec<u32>,
    pub pending: Vec<u32>,
}

impl KittyLifecycle {
    /// Every identifier in use.
    pub open spec fn taken(&self) -> Set<u32> {
        self.active@.to_set().union(self.pending@.to_set())
    }

    /// Nothing tracked.
    pub fn new() -> (lifecycle: KittyLifecycle)
        ensures
            lifecycle.active@.len() == 0,
            lifecycle.pending@.len() == 0,
    {
        KittyLifecycle { active: Vec::new(), pending: Vec::new() }
    }

    /// The number of deletions not yet sent.
    pub fn pending_cleanup_count(&self) -> (count: usize)
        ensures
            count == self.pending@.len(),
    {
        self.pending.len()
    }

    /// Reserves an identifier for a new image: the first of the next 512 from the counter that
    /// is not in use. Fails when 512 identifiers are tracked already, or when none is free.
    pub fn allocate(&mut self, counter: &mut ImageIdCounter) -> (out: Result<u32, String>)
        ensures
            old(self).active@.len() + old(self).pending@.len() >= MAX_TRACKED_IMAGE_IDS ==> {
                &&& out matches Err(e) && e@ == bound_message()
                &&& *final(self) == *old(self)
                &&& *final(counter) == *old(counter)
            },
            old(self).active@.len() + old(self).pending@.len() < MAX_TRACKED_IMAGE_IDS ==> match first_free(
                old(counter).next,
                MAX_TRACKED_IMAGE_IDS as nat,
                old(self).taken(),
            ) {
                Some((id, next)) => {
                    &&& out == Ok::<u32, String>(id)
                    &&& final(self).active@ == old(self).active@.push(id)
                    &&& final(self).pending@ == old(self).pending@
                    &&& final(counter).next == next
                },
                None => {
                    &&& out matches Err(e) && e@ == "cannot allocate a unique Kitty image identifier"@
                    &&& *final(self) == *old(self)
                    &&& final(counter).next == advanced(old(counter).next, MAX_TRACKED_IMAGE_IDS as nat)
                },
            },
    {
        if self.active.len() >= MAX_TRACKED_IMAGE_IDS || self.pending.len() >= MAX_TRACKED_IMAGE_IDS
            - self.active.len() {
            return Err(owned("Kitty image lifecycle reached its 512-image bound"));
        }
        let ghost taken = self.taken();
        let ghost start = counter.next;
        let mut tries: usize = 0;
        while tries < MAX_TRACKED_IMAGE_IDS
            invariant
                tries <= MAX_TRACKED_IMAGE_IDS,
                taken == self.taken(),
                *self == *old(self),
                first_free(start, MAX_TRACKED_IMAGE_IDS as nat, taken) == first_free(
                    counter.next,
                    (MAX_TRACKED_IMAGE_IDS - tries) as nat,
                    taken,
                ),
                advanced(start, MAX_TRACKED_IMAGE_IDS as nat) == advanced(
                    counter.next,
                    (MAX_TRACKED_IMAGE_IDS - tries) as nat,
                ),
                start == old(counter).next,
                old(self).active@.len() + old(self).pending@.len() < MAX_TRACKED_IMAGE_IDS,
            decreases MAX_TRACKED_IMAGE_IDS - tries,
        {
            let id = counter.take();
            let in_active = contains_number(self.active.as_slice(), id);
            let in_pending = contains_number(self.pending.as_slice(), id);
            proof {
                assert(self.taken().contains(id) <==> (self.active@.contains(id) || self.pending@.contains(id)));
            }
            if !in_active && !in_pending {
                self.active.push(id);
                return Ok(id);
            }
            tries = tries + 1;
        }
        Err(owned("cannot allocate a unique Kitty image identifier"))
    }

    /// Stops tracking an image; the data of a transmitted image awaits deletion.
    pub fn release(&mut self, id: u32, transmitted: bool)
        ensures
            final(self).active@ == without_number(old(self).active@, id),
            final(self).pending@ == (if transmitted {
                old(self).pending@.push(id)
            } else {
                old(self).pending@
            }),
    {
        let mut kept: Vec<u32> = Vec::new();
        let mut i: usize = 0;
        assert(self.active@.take(0) =~= Seq::<u32>::empty());
        while i < self.active.len()
            invariant
                i <= self.active@.len(),
                self.active@ == old(self).active@,
                self.pending@ == old(self).pending@,
                kept@ == without_number(self.active@.take(i as int), id),
            decreases self.active.len() - i,
        {
            let a = self.active[i];
            assert(self.active@.take(i as int + 1).drop_last() =~= self.active@.take(i as int));
            if a != id {
                kept.push(a);
            }
            i = i + 1;
        }
        assert(self.active@.take(i as int) =~= self.active@);
        self.active = kept;
        if transmitted {
            self.pending.push(id);
        }
    }

    /// The deletion commands of the pending identifiers, in order, and those identifiers.
    pub fn cleanup_commands(&self, is_tmux: bool) -> (out: (String, Vec<u32>))
        ensures
            out.1@ == self.pending@,
            out.0@ == deletions(self.pending@, is_tmux),
    {
        let mut text: Vec<char> = Vec::new();
        let mut ids: Vec<u32> = Vec::new();
        let mut i: usize = 0;
        while i < self.pending.len()
            invariant
                i <= self.pending@.len(),
                ids@ == self.pending@.take(i as int),
                text@ == deletions(self.pending@.take(i as int), is_tmux),
            decreases self.pending.len() - i,
        {
            let id = self.pending[i];
            let command = delete_image(id, is_tmux);
            let mut chars = chars_of(command.as_str());
            text.append(&mut chars);
            ids.push(id);
            assert(self.pending@.take(i as int + 1).drop_last() =~= self.pending@.take(i as int));
            i = i + 1;
            assert(ids@ =~= self.pending@.take(i as int));
        }
        assert(self.pending@.take(i as int) =~= self.pending@);
        (string_of(text.as_slice()), ids)
    }

    /// Records that the deletions of `sent` were written: each is dropped from the front of the
    /// queue when it is still there.
    pub fn confirm_cleanup(&mut self, sent: &[u32])
        ensures
            final(self).active@ == old(self).active@,
            final(self).pending@ == confirmed(old(self).pending@, sent@),
    {
        let mut i: usize = 0;
        assert(sent@.take(0) =~= Seq::<u32>::empty());
        while i < sent.len()
            invariant
                i <= sent@.len(),
                self.active@ == old(self).active@,
                self.pending@ == confirmed(old(self).pending@, sent@.take(i as int)),
            decreases sent.len() - i,
        {
            assert(sent@.take(i as int + 1).drop_last() =~= sent@.take(i as int));
            if self.pending.len() > 0 && self.pending[0] == sent[i] {
                self.pending.remove(0);
                assert(self.pending@ =~= confirmed(old(self).pending@, sent@.take(i as int + 1)));
            }
            i = i + 1;
        }
        assert(sent@.take(i as int) =~= sent@);
    }
}

/// A sequence without every occurrence of a value.
pub open spec fn without_number(s: Seq<u32>, x: u32) -> Seq<u32>
    decreases s.len(),
{
    if s.len() == 0 {
        s
    } else if s.last() == x {
        without_number(s.drop_last(), x)
    } else {
        without_number(s.drop_last(), x).push(s.last())
    }
}

/// The queue after confirming that the deletions of `sent` were written, one after another.
pub open spec fn confirmed(pending: Seq<u32>, sent: Seq<u32>) -> Seq<u32>
    decreases sent.len(),
{
    if sent.len() == 0 {
        pending
    } else {
        let before = confirmed(pending, sent.drop_last());
        if before.len() > 0 && before[0] == sent.last() {
            before.drop_first()
        } else {
            before
        }
    }
}

/// The start, escape and end of a command, wrapped for tmux when needed.
pub open spec fn tmux_framing(is_tmux: bool) -> (Seq<char>, Seq<char>, Seq<char>) {
    if is_tmux {
        ("\u{1b}Ptmux;"@, "\u{1b}\u{1b}"@, "\u{1b}\\"@)
    } else {
        (""@, "\u{1b}"@, ""@)
    }
}

/// The start, escape and end of a command (ratatui-image's `Parser::tmux_start_escape_end`):
/// inside tmux the command is wrapped in a DCS passthrough and its escapes doubled.
#[verifier::external_body]
fn framing(is_tmux: bool) -> (out: (String, String, String))
    ensures
        out.0@ == tmux_framing(is_tmux).0,
        out.1@ == tmux_framing(is_tmux).1,
        out.2@ == tmux_framing(is_tmux).2,
{
    let (start, escape, end) = ratatui_image::picker::cap_parser::Parser::tmux_start_escape_end(is_tmux);
    (start.to_owned(), escape.to_owned(), end.to_owned())
}

/// The command that deletes an image and its data.
pub open spec fn deletion(id: u32, is_tmux: bool) -> Seq<char> {
    let (start, escape, end) = tmux_framing(is_tmux);
    start + escape + "_Gq=2,a=d,d=I,i="@ + decimal(id as nat) + escape + "\\"@ + end
}

/// The deletion commands of some identifiers, one after another.
pub open spec fn deletions(ids: Seq<u32>, is_tmux: bool) -> Seq<char>
    decreases ids.len(),
{
    if ids.len() == 0 {
        Seq::empty()
    } else {
        deletions(ids.drop_last(), is_tmux) + deletion(ids.last(), is_tmux)
    }
}

fn push_text(out: &mut Vec<char>, text: &str)
    ensures
        final(out)@ == old(out)@ + text@,
{
    let mut chars = chars_of(text);
    out.append(&mut chars);
}

/// The command that deletes an image and its data.
pub fn delete_image(id: u32, is_tmux: bool) -> (out: String)
    ensures
        out@ == deletion(id, is_tmux),
{
    let (start, escape, end) = framing(is_tmux);
    let mut text: Vec<char> = Vec::new();
    push_text(&mut text, start.as_str());
    push_text(&mut text, escape.as_str());
    push_text(&mut text, "_Gq=2,a=d,d=I,i=");
    let mut digits = decimal_chars(id as u128);
    text.append(&mut digits);
    push_text(&mut text, escape.as_str());
    push_text(&mut text, "\\");
    push_text(&mut text, end.as_str());
    assert(text@ =~= deletion(id, is_tmux));
    string_of(text.as_slice())
}

/// The escape sequence that colours placeholders with an image identifier: the identifier's
/// low three bytes as a 24-bit foreground colour.
pub open spec fn id_color_text(id: u32) -> Seq<char> {
    "\u{1b}[38;2;"@ + decimal(((id / 65536) % 256) as nat) + ";"@ + decimal(((id / 256) % 256) as nat) + ";"@
        + decimal((id % 256) as nat) + "m"@
}

/// The escape sequence that colours placeholders with an image identifier.
pub fn id_color(id: u32) -> (out: String)
    ensures
        out@ == id_color_text(id),
{
    let mut text: Vec<char> = Vec::new();
    push_text(&mut text, "\u{1b}[38;2;");
    let mut red = decimal_chars(((id / 65536) % 256) as u128);
    text.append(&mut red);
    push_text(&mut text, ";");
    let mut green = decimal_chars(((id / 256) % 256) as u128);
    text.append(&mut green);
    push_text(&mut text, ";");
    let mut blue = decimal_chars((id % 256) as u128);
    text.append(&mut blue);
    push_text(&mut text, "m");
    assert(text@ =~= id_color_text(id));
    string_of(text.as_slice())
}

/// Checks that an image fits the placeholder rows.
pub fn check_placeholder_rows(rows: u16) -> (out: Result<(), String>)
    ensures
        rows <= MAX_PLACEHOLDER_ROWS ==> out is Ok,
        rows > MAX_PLACEHOLDER_ROWS ==> (out matches Err(e) && e@ == "Kitty image height "@ + decimal(
            rows as nat,
        ) + " exceeds the 297-row placeholder limit"@),
{
    if rows <= MAX_PLACEHOLDER_ROWS {
        return Ok(());
    }
    let mut text: Vec<char> = Vec::new();
    push_text(&mut text, "Kitty image height ");
    let mut digits = decimal_chars(rows as u128);
    text.append(&mut digits);
    push_text(&mut text, " exceeds the 297-row placeholder limit");
    Err(string_of(text.as_slice()))
}

/// The character of a six-bit value in the standard Base64 alphabet (RFC 4648, table 1).
pub open spec fn base64_digit(n: int) -> char {
    if n < 26 {
        (65 + n) as char
    } else if n < 52 {
        (97 + n - 26) as char
    } else if n < 62 {
        (48 + n - 52) as char
    } else if n == 62 {
        '+'
    } else {
        '/'
    }
}

/// The standard padded Base64 text of some bytes (RFC 4648, section 4): each group of three
/// bytes becomes four characters, and a last group of one or two bytes is padded with `=`.
pub open spec fn base64_standard(data: Seq<u8>) -> Seq<char>
    decreases data.len(),
{
    let a = data[0] as int;
    let b = if data.len() > 1 { data[1] as int } else { 0 };
    let c = if data.len() > 2 { data[2] as int } else { 0 };
    if data.len() == 0 {
        Seq::empty()
    } else if data.len() == 1 {
        seq![base64_digit(a / 4), base64_digit((a % 4) * 16), '=', '=']
    } else if data.len() == 2 {
        seq![base64_digit(a / 4), base64_digit((a % 4) * 16 + b / 16), base64_digit((b % 16) * 4), '=']
    } else {
        seq![
            base64_digit(a / 4),
            base64_digit((a % 4) * 16 + b / 16),
            base64_digit((b % 16) * 4 + c / 64),
            base64_digit(c % 64),
        ] + base64_standard(data.skip(3))
    }
}

/// The standard padded Base64 text of some bytes (base64-simd's `STANDARD.encode_to_string`,
/// the padded RFC 4648 encoding with the standard alphabet).
#[verifier::external_body]
fn base64_of(data: &[u8]) -> (out: String)
    ensures
        out@ == base64_standard(data@),
{
    base64_simd::STANDARD.encode_to_string(data)
}

/// The number of chunks of `len` bytes of image data.
pub open spec fn chunk_count(len: nat) -> nat {
    (len + BYTES_PER_CHUNK - 1) as nat / (BYTES_PER_CHUNK as nat)
}

/// The image data of chunk `index`.
pub open spec fn chunk_of(data: Seq<u8>, index: int) -> Seq<u8> {
    let start = index * BYTES_PER_CHUNK;
    let end = if start + BYTES_PER_CHUNK <= data.len() { start + BYTES_PER_CHUNK } else { data.len() as int };
    data.subrange(start, end)
}

/// The placement fields of the first chunk: identifier, virtual placement of `columns` by `rows`
/// cells, RGBA pixels of `width` by `height`, sent directly.
pub open spec fn placement_fields(id: u32, columns: u16, rows: u16, width: u32, height: u32) -> Seq<char> {
    "i="@ + decimal(id as nat) + ",a=T,U=1,N=1,c="@ + decimal(columns as nat) + ",r="@ + decimal(rows as nat)
        + ",f=32,t=d,s="@ + decimal(width as nat) + ",v="@ + decimal(height as nat) + ","@
}

/// One transmission command: the framed escape, quiet mode, the placement fields on the first
/// chunk, whether more chunks follow, and the chunk in Base64.
pub open spec fn transmission_chunk(
    data: Seq<u8>,
    index: int,
    placement: Seq<char>,
    is_tmux: bool,
) -> Seq<char> {
    let (start, escape, end) = tmux_framing(is_tmux);
    let more = if index + 1 < chunk_count(data.len()) { "1"@ } else { "0"@ };
    start + escape + "_Gq=2,"@ + (if index == 0 { placement } else { Seq::empty() }) + "m="@ + more + ";"@
        + base64_standard(chunk_of(data, index)) + escape + "\\"@ + end
}

/// The transmission commands of the first `count` chunks.
pub open spec fn transmission(data: Seq<u8>, count: nat, placement: Seq<char>, is_tmux: bool) -> Seq<char>
    decreases count,
{
    if count == 0 {
        Seq::empty()
    } else {
        transmission(data, (count - 1) as nat, placement, is_tmux) + transmission_chunk(
            data,
            count - 1,
            placement,
            is_tmux,
        )
    }
}

fn chunk_command(
    rgba: &[u8],
    index: usize,
    count: usize,
    fields: &Vec<char>,
    start: &String,
    escape: &String,
    end: &String,
    is_tmux: bool,
) -> (out: String)
    requires
        index < count,
        count == chunk_count(rgba@.len() as nat),
        start@ == tmux_framing(is_tmux).0,
        escape@ == tmux_framing(is_tmux).1,
        end@ == tmux_framing(is_tmux).2,
    ensures
        out@ == transmission_chunk(rgba@, index as int, fields@, is_tmux),
{
    let len = rgba.len();
    assert(index * BYTES_PER_CHUNK < len) by (nonlinear_arith)
        requires
            index < count,
            count == (len + 3071) / 3072,
    ;
    let begin = index * BYTES_PER_CHUNK;
    let finish = if len - begin >= BYTES_PER_CHUNK { begin + BYTES_PER_CHUNK } else { len };
    let chunk = vstd::slice::slice_subrange(rgba, begin, finish);
    assert(chunk@ == chunk_of(rgba@, index as int));
    let mut out: Vec<char> = Vec::new();
    push_text(&mut out, start.as_str());
    push_text(&mut out, escape.as_str());
    push_text(&mut out, "_Gq=2,");
    if index == 0 {
        let mut k: usize = 0;
        let ghost before = out@;
        while k < fields.len()
            invariant
                k <= fields@.len(),
                out@ == before + fields@.take(k as int),
            decreases fields.len() - k,
        {
            out.push(fields[k]);
            k = k + 1;
            assert(out@ =~= before + fields@.take(k as int));
        }
        assert(fields@.take(k as int) =~= fields@);
    }
    push_text(&mut out, "m=");
    if index + 1 < count {
        push_text(&mut out, "1");
    } else {
        push_text(&mut out, "0");
    }
    push_text(&mut out, ";");
    let encoded = base64_of(chunk);
    push_text(&mut out, encoded.as_str());
    push_text(&mut out, escape.as_str());
    push_text(&mut out, "\\");
    push_text(&mut out, end.as_str());
    assert(out@ =~= transmission_chunk(rgba@, index as int, fields@, is_tmux));
    string_of(out.as_slice())
}

/// The commands that transmit RGBA pixels in chunks of 3072 bytes as a virtual placement of
/// `columns` by `rows` cells.
pub fn transmit_virtual(
    rgba: &[u8],
    width: u32,
    height: u32,
    columns: u16,
    rows: u16,
    id: u32,
    is_tmux: bool,
) -> (out: String)
    ensures
        out@ == transmission(
            rgba@,
            chunk_count(rgba@.len() as nat),
            placement_fields(id, columns, rows, width, height),
            is_tmux,
        ),
{
    let (start, escape, end) = framing(is_tmux);
    let ghost placement = placement_fields(id, columns, rows, width, height);
    let mut fields: Vec<char> = Vec::new();
    push_text(&mut fields, "i=");
    let mut d = decimal_chars(id as u128);
    fields.append(&mut d);
    push_text(&mut fields, ",a=T,U=1,N=1,c=");
    let mut d = decimal_chars(columns as u128);
    fields.append(&mut d);
    push_text(&mut fields, ",r=");
    let mut d = decimal_chars(rows as u128);
    fields.append(&mut d);
    push_text(&mut fields, ",f=32,t=d,s=");
    let mut d = decimal_chars(width as u128);
    fields.append(&mut d);
    push_text(&mut fields, ",v=");
    let mut d = decimal_chars(height as u128);
    fields.append(&mut d);
    push_text(&mut fields, ",");
    assert(fields@ =~= placement);
    let len = rgba.len();
    let count = len / BYTES_PER_CHUNK + if len % BYTES_PER_CHUNK == 0 { 0 } else { 1 };
    assert(count == chunk_count(len as nat)) by (nonlinear_arith)
        requires
            count == len / 3072 + if len % 3072 == 0 { 0int } else { 1int },
    ;
    let mut out: Vec<char> = Vec::new();
    let mut index: usize = 0;
    while index < count
        invariant
            index <= count,
            count == chunk_count(rgba@.len() as nat),
            len == rgba@.len(),
            fields@ == placement,
            start@ == tmux_framing(is_tmux).0,
            escape@ == tmux_framing(is_tmux).1,
            end@ == tmux_framing(is_tmux).2,
            out@ == transmission(rgba@, index as nat, placement, is_tmux),
        decreases count - index,
    {
        let ghost before = out@;
        let chunk = chunk_command(rgba, index, count, &fields, &start, &escape, &end, is_tmux);
        push_text(&mut out, chunk.as_str());
        index = index + 1;
    }
    string_of(out.as_slice())
}

/// The Unicode placeholder character of Kitty's virtual placements.
pub const PLACEHOLDER: char = '\u{10EEEE}';

/// Whether an image's data is to be sent before its placeholders, and whether it ever was.
#[derive(Clone, Copy, Debug, PartialEq, Eq, Structural)]
pub struct KittyTransmission {
    pub needs_transmission: bool,
    pub ever_transmitted: bool,
}

impl KittyTransmission {
    /// A new image: its data is yet to be sent.
    pub fn new() -> (out: KittyTransmission)
        ensures
            out.needs_transmission && !out.ever_transmitted,
    {
        KittyTransmission { needs_transmission: true, ever_transmitted: false }
    }

    /// Called when the placeholders are drawn: tells whether the data goes with them this time.
    pub fn take_for_render(&mut self) -> (send: bool)
        ensures
            send == old(self).needs_transmission,
            !final(self).needs_transmission,
            final(self).ever_transmitted == (old(self).ever_transmitted || send),
    {
        let send = self.needs_transmission;
        self.needs_transmission = false;
        if send {
            self.ever_transmitted = true;
        }
        send
    }

    /// Asks for the data to be sent again with the next drawing, as after the terminal lost it
    /// while the image was hidden; an image never sent is left alone. Tells whether that changed
    /// anything: the data had been sent and was not already due.
    pub fn rearm(&mut self) -> (rearmed: bool)
        ensures
            rearmed == (old(self).ever_transmitted && !old(self).needs_transmission),
            final(self).needs_transmission == (old(self).ever_transmitted || old(self).needs_transmission),
            final(self).ever_transmitted == old(self).ever_transmitted,
    {
        if !self.ever_transmitted {
            return false;
        }
        let was_due = self.needs_transmission;
        self.needs_transmission = true;
        !was_due
    }
}

/// The cells an image's placeholders cover in an area: no more than the image's size, the area
/// and the placeholder rows allow.
pub open spec fn placeholder_extent(area_width: u16, area_height: u16, width: u16, height: u16) -> (u16, u16) {
    (
        if area_width <= width { area_width } else { width },
        if area_height <= height {
            if area_height <= MAX_PLACEHOLDER_ROWS { area_height } else { MAX_PLACEHOLDER_ROWS }
        } else {
            if height <= MAX_PLACEHOLDER_ROWS { height } else { MAX_PLACEHOLDER_ROWS }
        },
    )
}

/// The cells an image's placeholders cover in an area.
pub fn placeholder_cells(area_width: u16, area_height: u16, width: u16, height: u16) -> (out: (u16, u16))
    ensures
        out == placeholder_extent(area_width, area_height, width, height),
{
    let w = if area_width <= width { area_width } else { width };
    let h = if area_height <= height { area_height } else { height };
    let h = if h <= MAX_PLACEHOLDER_ROWS { h } else { MAX_PLACEHOLDER_ROWS };
    (w, h)
}

/// `n` copies of a character.
pub open spec fn repeated(c: char, n: nat) -> Seq<char> {
    Seq::new(n, |i: int| c)
}

/// The text of a row's first cell: the image data when it is sent with this drawing, then the
/// saved cursor, the identifier's colour, a placeholder with the row's and the first column's
/// marks, the placeholders of the rest of the row, and the cursor moved back and to the area's
/// bottom right corner.
pub open spec fn placeholder_row_text(
    transmission: Option<Seq<char>>,
    id_color: Seq<char>,
    row_mark: char,
    column_mark: char,
    width: u16,
    area_width: u16,
    area_height: u16,
) -> Seq<char> {
    (match transmission {
        Some(t) => t,
        None => Seq::empty(),
    }) + "\u{1b}[s"@ + id_color + seq![PLACEHOLDER, row_mark, column_mark] + repeated(
        PLACEHOLDER,
        (if width >= 1 { width - 1 } else { 0 }) as nat,
    ) + "\u{1b}[u\u{1b}["@ + decimal((if area_width >= 1 { area_width - 1 } else { 0 }) as nat) + "C\u{1b}["@
        + decimal((if area_height >= 1 { area_height - 1 } else { 0 }) as nat) + "B"@
}

/// The text of a row's first cell of placeholders.
pub fn placeholder_row(
    transmission: Option<&str>,
    id_color: &str,
    row_mark: char,
    column_mark: char,
    width: u16,
    area_width: u16,
    area_height: u16,
) -> (out: String)
    ensures
        out@ == placeholder_row_text(
            match transmission {
                Some(t) => Some(t@),
                None => None,
            },
            id_color@,
            row_mark,
            column_mark,
            width,
            area_width,
            area_height,
        ),
{
    let mut text: Vec<char> = Vec::new();
    if let Some(t) = transmission {
        push_text(&mut text, t);
    }
    let ghost start = text@;
    push_text(&mut text, "\u{1b}[s");
    push_text(&mut text, id_color);
    text.push(PLACEHOLDER);
    text.push(row_mark);
    text.push(column_mark);
    let ghost before_rest = text@;
    let rest: u16 = if width >= 1 { width - 1 } else { 0 };
    let mut k: u16 = 0;
    while k < rest
        invariant
            k <= rest,
            text@ == before_rest + repeated(PLACEHOLDER, k as nat),
        decreases rest - k,
    {
        text.push(PLACEHOLDER);
        k = k + 1;
        assert(text@ =~= before_rest + repeated(PLACEHOLDER, k as nat));
    }
    push_text(&mut text, "\u{1b}[u\u{1b}[");
    let mut right = decimal_chars((if area_width >= 1 { area_width - 1 } else { 0 }) as u128);
    text.append(&mut right);
    push_text(&mut text, "C\u{1b}[");
    let mut down = decimal_chars((if area_height >= 1 { area_height - 1 } else { 0 }) as u128);
    text.append(&mut down);
    push_text(&mut text, "B");
    assert(start == (match transmission {
        Some(t) => t@,
        None => Seq::<char>::empty(),
    }));
    assert(text@ =~= placeholder_row_text(
        match transmission {
            Some(t) => Some(t@),
            None => None,
        },
        id_color@,
        row_mark,
        column_mark,
        width,
        area_width,
        area_height,
    ));
    string_of(text.as_slice())
}

} // verus!
