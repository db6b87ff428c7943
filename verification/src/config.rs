//! Runtime settings: where the configuration comes from, what the command line overrides, and
//! how a configuration document is applied on top of the defaults.

use vstd::prelude::*;

use crate::actions::{
    action_name, action_named, assign_keys, built_in_list, conflict_message, keys_where, parse_chords,
    unknown_action_message, without_action, Action, ActionContext, Bindings, KeyChord,
};
use crate::browser::{valid_action, valid_table};
use crate::graphics::{parsed_protocol, GraphicsProtocol};
use crate::settings::{
    background_named, parse_size, quality_error, BackgroundMode, ThumbnailQuality, ThumbnailSize,
};
use crate::text::{chars_of, decimal, decimal_chars, owned, string_of};

verus! {

/// Where the configuration file comes from.
#[derive(Clone, Debug, PartialEq, Eq)]
pub enum ConfigSource {
    /// The platform's configuration directory, when a file is there.
    Discover,
    /// A path given on the command line, as raw bytes; the file must exist.
    Explicit(Vec<u8>),
    /// No configuration file.
    Disabled,
}

/// Settings given on the command line, which win over the configuration file.
#[derive(Clone, Copy, Debug, PartialEq, Eq)]
pub struct CliOverrides {
    pub thumbnail_size: Option<ThumbnailSize>,
    pub thumbnail_quality: Option<ThumbnailQuality>,
    pub graphics_protocol: Option<GraphicsProtocol>,
}

impl Default for CliOverrides {
    fn default() -> (out: Self)
        ensures
            out.thumbnail_size is None,
            out.thumbnail_quality is None,
            out.graphics_protocol is None,
    {
        CliOverrides { thumbnail_size: None, thumbnail_quality: None, graphics_protocol: None }
    }
}

/// The `[thumbnail]` table of a configuration document.
pub struct ThumbnailDocument {
    pub size: Option<String>,
    pub quality: Option<u8>,
}

/// The `[graphics]` table.
pub struct GraphicsDocument {
    pub protocol: Option<String>,
}

/// The `[ui]` table.
pub struct UiDocument {
    pub debug_status: Option<bool>,
}

/// The bindings of one context: action names with their key texts, in name order.
pub type KeyTable = Vec<(String, Vec<String>)>;

/// The `[keys.*]` tables.
pub struct KeysDocument {
    pub normal: Option<KeyTable>,
    pub search: Option<KeyTable>,
    pub inspect: Option<KeyTable>,
    pub compare: Option<KeyTable>,
}

/// The `[inspection]` table.
pub struct InspectionDocument {
    pub background: Option<String>,
    pub decoded_cache_mib: Option<u64>,
}

/// A configuration document as read from TOML.
pub struct Document {
    pub version: u16,
    pub thumbnail: Option<ThumbnailDocument>,
    pub graphics: Option<GraphicsDocument>,
    pub ui: Option<UiDocument>,
    pub keys: Option<KeysDocument>,
    pub inspection: Option<InspectionDocument>,
}

/// The configuration version this program reads.
pub const CONFIG_VERSION: u16 = 1;

/// The settings in effect for a session.
#[derive(Debug)]
pub struct RuntimeSettings {
    pub thumbnail_size: ThumbnailSize,
    pub thumbnail_quality: ThumbnailQuality,
    pub graphics_protocol: GraphicsProtocol,
    pub debug_status: bool,
    pub background: BackgroundMode,
    pub decoded_cache_bytes: u64,
    pub bindings: Bindings,
}

/// The settings as values.
pub struct SettingsModel {
    pub size: ThumbnailSize,
    pub quality: u8,
    pub protocol: GraphicsProtocol,
    pub debug_status: bool,
    pub background: BackgroundMode,
    pub decoded_cache_bytes: u64,
    pub table: Map<(ActionContext, KeyChord), Action>,
}

/// The name of a context in configuration keys.
pub open spec fn config_context_name(context: ActionContext) -> Seq<char> {
    match context {
        ActionContext::Normal => "normal"@,
        ActionContext::Search => "search"@,
        ActionContext::Inspect => "inspect"@,
        ActionContext::Compare => "compare"@,
    }
}

/// The key table that the `[keys.*]` tables give a context, if any.
pub open spec fn context_keys(keys: Option<KeysDocument>, context: ActionContext) -> Option<KeyTable> {
    match keys {
        None => None,
        Some(k) => match context {
            ActionContext::Normal => k.normal,
            ActionContext::Search => k.search,
            ActionContext::Inspect => k.inspect,
            ActionContext::Compare => k.compare,
        },
    }
}

/// Whether a configuration leaves the keys of a context as they are: there is no document, or
/// it has no key table for that context.
pub open spec fn leaves_context_keys(document: Option<Document>, context: ActionContext) -> bool {
    match document {
        None => true,
        Some(doc) => context_keys(doc.keys, context) is None,
    }
}

/// The bindings of one context applied to a table, entry by entry; the first unknown action or
/// refused key is the error, prefixed with where it stands.
pub open spec fn apply_key_table(
    table: Map<(ActionContext, KeyChord), Action>,
    context: ActionContext,
    entries: Seq<(String, Vec<String>)>,
) -> Result<Map<(ActionContext, KeyChord), Action>, Seq<char>>
    decreases entries.len(),
{
    if entries.len() == 0 {
        Ok(table)
    } else {
        let name = entries[0].0@;
        let keys = entries[0].1@.map_values(|k: String| k@);
        match action_named(name) {
            None => Err("keys."@ + config_context_name(context) + ": "@ + unknown_action_message(name)),
            Some(action) => match parse_chords(keys) {
                Err(e) => Err("keys."@ + config_context_name(context) + "."@ + name + ": "@ + e),
                Ok(chords) => {
                    let (next, conflict) = assign_keys(without_action(table, context, action), context, action, chords);
                    match conflict {
                        Some((key, existing)) => Err("keys."@ + config_context_name(context) + "."@ + name
                            + ": "@ + conflict_message(key, existing, action, context)),
                        None => apply_key_table(next, context, entries.drop_first()),
                    }
                },
            },
        }
    }
}

/// The bindings of a context, when the document has them.
pub open spec fn apply_optional_keys(
    table: Map<(ActionContext, KeyChord), Action>,
    context: ActionContext,
    entries: Option<KeyTable>,
) -> Result<Map<(ActionContext, KeyChord), Action>, Seq<char>> {
    match entries {
        Some(list) => apply_key_table(table, context, list@),
        None => Ok(table),
    }
}

/// The keys of the four contexts, in the order normal, search, inspect, compare.
pub open spec fn apply_keys_document(table: Map<(ActionContext, KeyChord), Action>, keys: KeysDocument)
    -> Result<Map<(ActionContext, KeyChord), Action>, Seq<char>>
{
    match apply_optional_keys(table, ActionContext::Normal, keys.normal) {
        Err(e) => Err(e),
        Ok(t) => match apply_optional_keys(t, ActionContext::Search, keys.search) {
            Err(e) => Err(e),
            Ok(t) => match apply_optional_keys(t, ActionContext::Inspect, keys.inspect) {
                Err(e) => Err(e),
                Ok(t) => apply_optional_keys(t, ActionContext::Compare, keys.compare),
            },
        },
    }
}

/// The `[thumbnail]` table applied to settings.
pub open spec fn apply_thumbnail(m: SettingsModel, table: Option<ThumbnailDocument>) -> Result<SettingsModel, Seq<char>> {
    match table {
        None => Ok(m),
        Some(t) => {
            let sized = match t.size {
                None => Ok(m),
                Some(text) => match parse_size(text@) {
                    Err(e) => Err("thumbnail.size: "@ + e),
                    Ok((w, h)) => Ok(SettingsModel { size: ThumbnailSize { width: w, height: h }, ..m }),
                },
            };
            match sized {
                Err(e) => Err(e),
                Ok(m) => match t.quality {
                    None => Ok(m),
                    Some(level) => if 1 <= level <= 9 {
                        Ok(SettingsModel { quality: level, ..m })
                    } else {
                        Err("thumbnail.quality: "@ + quality_error())
                    },
                },
            }
        },
    }
}

/// The `[inspection]` table applied to settings.
pub open spec fn apply_inspection(m: SettingsModel, table: Option<InspectionDocument>) -> Result<SettingsModel, Seq<char>> {
    match table {
        None => Ok(m),
        Some(t) => {
            let with_background = match t.background {
                None => Ok(m),
                Some(name) => match background_named(name@) {
                    None => Err("inspection.background: "@ + "background must be checkerboard, dark, or light"@),
                    Some(mode) => Ok(SettingsModel { background: mode, ..m }),
                },
            };
            match with_background {
                Err(e) => Err(e),
                Ok(m) => match t.decoded_cache_mib {
                    None => Ok(m),
                    Some(mib) => if 64 <= mib <= 2048 {
                        Ok(SettingsModel { decoded_cache_bytes: (mib * 1048576) as u64, ..m })
                    } else {
                        Err("inspection.decoded_cache_mib must be from 64 to 2048"@)
                    },
                },
            }
        },
    }
}

/// A configuration document applied to settings: the version is checked, then the thumbnail,
/// graphics, interface, key and inspection tables are applied in that order; the first error
/// stops it.
pub open spec fn apply_document(m: SettingsModel, doc: Document) -> Result<SettingsModel, Seq<char>> {
    if doc.version != CONFIG_VERSION {
        Err("unsupported configuration version "@ + decimal(doc.version as nat) + "; expected 1"@)
    } else {
        match apply_thumbnail(m, doc.thumbnail) {
            Err(e) => Err(e),
            Ok(m) => {
                let with_protocol = match doc.graphics {
                    Some(g) => match g.protocol {
                        Some(name) => match parsed_protocol(name@) {
                            Err(e) => Err("graphics.protocol: "@ + e),
                            Ok(p) => Ok(SettingsModel { protocol: p, ..m }),
                        },
                        None => Ok(m),
                    },
                    None => Ok(m),
                };
                match with_protocol {
                    Err(e) => Err(e),
                    Ok(m) => {
                        let m = match doc.ui {
                            Some(ui) => match ui.debug_status {
                                Some(flag) => SettingsModel { debug_status: flag, ..m },
                                None => m,
                            },
                            None => m,
                        };
                        let with_keys = match doc.keys {
                            Some(keys) => match apply_keys_document(m.table, keys) {
                                Err(e) => Err(e),
                                Ok(table) => Ok(SettingsModel { table, ..m }),
                            },
                            None => Ok(m),
                        };
                        match with_keys {
                            Err(e) => Err(e),
                            Ok(m) => apply_inspection(m, doc.inspection),
                        }
                    },
                }
            },
        }
    }
}

/// The defaults: 32x14 thumbnails at quality 7, the protocol chosen automatically, no debug
/// status, a checkerboard background, 512 MiB of decoded sources and the built-in bindings.
pub open spec fn default_settings() -> SettingsModel {
    SettingsModel {
        size: ThumbnailSize { width: 32, height: 14 },
        quality: 7,
        protocol: GraphicsProtocol::Auto,
        debug_status: false,
        background: BackgroundMode::Checkerboard,
        decoded_cache_bytes: 536870912,
        table: crate::actions::built_in_table(),
    }
}

/// Settings with the command line's overrides.
pub open spec fn overridden(m: SettingsModel, cli: CliOverrides) -> SettingsModel {
    SettingsModel {
        size: match cli.thumbnail_size {
            Some(s) => s,
            None => m.size,
        },
        quality: match cli.thumbnail_quality {
            Some(q) => q.spec_level(),
            None => m.quality,
        },
        protocol: match cli.graphics_protocol {
            Some(p) => p,
            None => m.protocol,
        },
        ..m
    }
}

/// The settings of a session: the defaults, then the document when there is one, then the
/// command line.
pub open spec fn loaded_settings(document: Option<Document>, cli: CliOverrides) -> Result<SettingsModel, Seq<char>> {
    match document {
        None => Ok(overridden(default_settings(), cli)),
        Some(doc) => match apply_document(default_settings(), doc) {
            Err(e) => Err(e),
            Ok(m) => Ok(overridden(m, cli)),
        },
    }
}

fn prefixed(prefix: &str, message: &str) -> (out: String)
    ensures
        out@ == prefix@ + message@,
{
    let mut text = chars_of(prefix);
    let mut rest = chars_of(message);
    text.append(&mut rest);
    string_of(text.as_slice())
}

/// The name of a context in configuration keys: `normal`, `search`, `inspect` or `compare`.
pub fn context_name(context: ActionContext) -> (out: &'static str)
    ensures
        out@ == config_context_name(context),
{
    match context {
        ActionContext::Normal => "normal",
        ActionContext::Search => "search",
        ActionContext::Inspect => "inspect",
        ActionContext::Compare => "compare",
    }
}

proof fn lemma_assign_keeps_valid(
    table: Map<(ActionContext, KeyChord), Action>,
    context: ActionContext,
    action: Action,
    keys: Seq<KeyChord>,
)
    requires
        valid_table(table),
        valid_action(action),
    ensures
        valid_table(assign_keys(table, context, action, keys).0),
    decreases keys.len(),
{
    if keys.len() > 0 {
        let k = keys[0];
        if !(table.contains_key((context, k)) && table[(context, k)] != action) {
            lemma_assign_keeps_valid(table.insert((context, k), action), context, action, keys.drop_first());
        }
    }
}

proof fn lemma_named_action_valid(name: Seq<char>)
    ensures
        action_named(name) matches Some(a) ==> valid_action(a),
{
}

/// Bindings that a document sets keep every bound action valid.
pub proof fn lemma_key_table_keeps_valid(
    table: Map<(ActionContext, KeyChord), Action>,
    context: ActionContext,
    entries: Seq<(String, Vec<String>)>,
)
    requires
        valid_table(table),
    ensures
        apply_key_table(table, context, entries) matches Ok(t) ==> valid_table(t),
    decreases entries.len(),
{
    if entries.len() > 0 {
        let name = entries[0].0@;
        lemma_named_action_valid(name);
        match action_named(name) {
            None => {},
            Some(action) => match parse_chords(entries[0].1@.map_values(|k: String| k@)) {
                Err(_) => {},
                Ok(chords) => {
                    let start = without_action(table, context, action);
                    assert(valid_table(start));
                    lemma_assign_keeps_valid(start, context, action, chords);
                    let (next, conflict) = assign_keys(start, context, action, chords);
                    if conflict is None {
                        lemma_key_table_keeps_valid(next, context, entries.drop_first());
                    }
                },
            },
        }
    }
}

/// Every built-in binding is a valid action.
pub proof fn lemma_built_in_valid()
    ensures
        valid_table(crate::actions::built_in_table()),
{
}

impl RuntimeSettings {
    /// The settings as values.
    pub open spec fn model(&self) -> SettingsModel {
        SettingsModel {
            size: self.thumbnail_size,
            quality: self.thumbnail_quality.spec_level(),
            protocol: self.graphics_protocol,
            debug_status: self.debug_status,
            background: self.background,
            decoded_cache_bytes: self.decoded_cache_bytes,
            table: self.bindings.table(),
        }
    }

    /// The bindings have no duplicate keys and bind only valid actions.
    pub open spec fn wf(&self) -> bool {
        &&& self.bindings.wf()
        &&& valid_table(self.bindings.table())
    }

    /// The default settings.
    pub fn defaults() -> (settings: RuntimeSettings)
        ensures
            settings.wf(),
            settings.model() == default_settings(),
            forall|c: ActionContext, a: Action| #[trigger] settings.bindings.keys_in(c, a)
                == keys_where(built_in_list(), c, a),
    {
        proof {
            lemma_built_in_valid();
        }
        RuntimeSettings {
            thumbnail_size: ThumbnailSize::default_size(),
            thumbnail_quality: ThumbnailQuality::default_quality(),
            graphics_protocol: GraphicsProtocol::Auto,
            debug_status: false,
            background: BackgroundMode::Checkerboard,
            decoded_cache_bytes: 536870912,
            bindings: Bindings::built_in(),
        }
    }

    fn apply_key_list(&mut self, context: ActionContext, entries: &Vec<(String, Vec<String>)>) -> (out: Result<(), String>)
        requires
            old(self).wf(),
        ensures
            final(self).wf(),
            final(self).model() == (SettingsModel { table: final(self).bindings.table(), ..old(self).model() }),
            match apply_key_table(old(self).bindings.table(), context, entries@) {
                Ok(t) => out is Ok && final(self).bindings.table() == t,
                Err(e) => out matches Err(msg) && msg@ == e,
            },
            forall|c: ActionContext, a: Action| c != context ==> #[trigger] final(self).bindings.keys_in(c, a)
                == old(self).bindings.keys_in(c, a),
    {
        let mut i: usize = 0;
        assert(entries@.skip(0) =~= entries@);
        while i < entries.len()
            invariant
                i <= entries@.len(),
                self.wf(),
                self.model() == (SettingsModel { table: self.bindings.table(), ..old(self).model() }),
                apply_key_table(old(self).bindings.table(), context, entries@) == apply_key_table(
                    self.bindings.table(),
                    context,
                    entries@.skip(i as int),
                ),
                forall|c: ActionContext, a: Action| c != context ==> #[trigger] self.bindings.keys_in(c, a)
                    == old(self).bindings.keys_in(c, a),
            decreases entries.len() - i,
        {
            let ghost rest = entries@.skip(i as int);
            assert(rest[0] == entries@[i as int]);
            assert(rest.drop_first() =~= entries@.skip(i as int + 1));
            let name = &entries[i].0;
            let keys = &entries[i].1;
            let action = match Action::from_name(name.as_str()) {
                Ok(a) => a,
                Err(e) => {
                    let mut message = chars_of("keys.");
                    let mut ctx = chars_of(context_name(context));
                    message.append(&mut ctx);
                    let mut sep = chars_of(": ");
                    message.append(&mut sep);
                    let mut rest_text = chars_of(e.as_str());
                    message.append(&mut rest_text);
                    return Err(string_of(message.as_slice()));
                },
            };
            proof {
                lemma_named_action_valid(name@);
            }
            let mut texts: Vec<&str> = Vec::new();
            let mut k: usize = 0;
            while k < keys.len()
                invariant
                    k <= keys@.len(),
                    texts@.len() == k,
                    forall|j: int| 0 <= j < k ==> (#[trigger] texts@[j])@ == keys@[j]@,
                decreases keys.len() - k,
            {
                texts.push(keys[k].as_str());
                k = k + 1;
            }
            assert(texts@.map_values(|t: &str| t@) =~= keys@.map_values(|t: String| t@));
            let ghost before = self.bindings.table();
            proof {
                match parse_chords(keys@.map_values(|t: String| t@)) {
                    Ok(chords) => {
                        let start = without_action(before, context, action);
                        assert(valid_table(start));
                        lemma_assign_keeps_valid(start, context, action, chords);
                    },
                    Err(_) => {},
                }
            }
            match self.bindings.replace_action(context, action, texts.as_slice()) {
                Ok(()) => {},
                Err(e) => {
                    let mut message = chars_of("keys.");
                    let mut ctx = chars_of(context_name(context));
                    message.append(&mut ctx);
                    message.push('.');
                    let mut action_text = chars_of(name.as_str());
                    message.append(&mut action_text);
                    let mut sep = chars_of(": ");
                    message.append(&mut sep);
                    let mut rest_text = chars_of(e.as_str());
                    message.append(&mut rest_text);
                    proof {
                        reveal_strlit(".");
                        assert(message@ =~= "keys."@ + config_context_name(context) + "."@ + name@ + ": "@ + e@);
                    }
                    return Err(string_of(message.as_slice()));
                },
            }
            i = i + 1;
        }
        assert(entries@.skip(i as int) =~= Seq::<(String, Vec<String>)>::empty());
        Ok(())
    }
}

impl RuntimeSettings {
    fn apply_optional_key_list(&mut self, context: ActionContext, entries: &Option<KeyTable>) -> (out: Result<(), String>)
        requires
            old(self).wf(),
        ensures
            final(self).wf(),
            final(self).model() == (SettingsModel { table: final(self).bindings.table(), ..old(self).model() }),
            match apply_optional_keys(old(self).bindings.table(), context, *entries) {
                Ok(t) => out is Ok && final(self).bindings.table() == t,
                Err(e) => out matches Err(msg) && msg@ == e,
            },
            forall|c: ActionContext, a: Action| (c != context || entries is None) ==> #[trigger] final(self).bindings.keys_in(c, a) == old(self).bindings.keys_in(c, a),
    {
        match entries {
            Some(list) => self.apply_key_list(context, list),
            None => Ok(()),
        }
    }

    fn apply_thumbnail_table(&mut self, table: &Option<ThumbnailDocument>) -> (out: Result<(), String>)
        requires
            old(self).wf(),
        ensures
            final(self).wf(),
            match apply_thumbnail(old(self).model(), *table) {
                Ok(m) => out is Ok && final(self).model() == m,
                Err(e) => out matches Err(msg) && msg@ == e,
            },
            final(self).bindings == old(self).bindings,
    {
        if let Some(thumbnail) = table {
            if let Some(size) = &thumbnail.size {
                match ThumbnailSize::parse(size.as_str()) {
                    Ok(parsed) => self.thumbnail_size = parsed,
                    Err(e) => {
                        return Err(prefixed("thumbnail.size: ", e.as_str()));
                    },
                }
            }
            if let Some(level) = thumbnail.quality {
                match ThumbnailQuality::new(level) {
                    Ok(quality) => self.thumbnail_quality = quality,
                    Err(e) => {
                        return Err(prefixed("thumbnail.quality: ", e.as_str()));
                    },
                }
            }
        }
        Ok(())
    }

    fn apply_keys_table(&mut self, table: &Option<KeysDocument>) -> (out: Result<(), String>)
        requires
            old(self).wf(),
        ensures
            final(self).wf(),
            match *table {
                Some(keys) => match apply_keys_document(old(self).model().table, keys) {
                    Ok(t) => out is Ok && final(self).model() == (SettingsModel { table: t, ..old(self).model() }),
                    Err(e) => out matches Err(msg) && msg@ == e,
                },
                None => out is Ok && final(self).model() == old(self).model(),
            },
            forall|c: ActionContext, a: Action| context_keys(*table, c) is None ==> #[trigger] final(self).bindings.keys_in(c, a) == old(self).bindings.keys_in(c, a),
    {
        if let Some(keys) = table {
            match self.apply_optional_key_list(ActionContext::Normal, &keys.normal) {
                Ok(()) => {},
                Err(e) => {
                    return Err(e);
                },
            }
            match self.apply_optional_key_list(ActionContext::Search, &keys.search) {
                Ok(()) => {},
                Err(e) => {
                    return Err(e);
                },
            }
            match self.apply_optional_key_list(ActionContext::Inspect, &keys.inspect) {
                Ok(()) => {},
                Err(e) => {
                    return Err(e);
                },
            }
            match self.apply_optional_key_list(ActionContext::Compare, &keys.compare) {
                Ok(()) => {},
                Err(e) => {
                    return Err(e);
                },
            }
        }
        Ok(())
    }

    fn apply_inspection_table(&mut self, table: &Option<InspectionDocument>) -> (out: Result<(), String>)
        requires
            old(self).wf(),
        ensures
            final(self).wf(),
            match apply_inspection(old(self).model(), *table) {
                Ok(m) => out is Ok && final(self).model() == m,
                Err(e) => out matches Err(msg) && msg@ == e,
            },
            final(self).bindings == old(self).bindings,
    {
        if let Some(inspection) = table {
            if let Some(name) = &inspection.background {
                match BackgroundMode::parse(name.as_str()) {
                    Ok(mode) => self.background = mode,
                    Err(e) => {
                        return Err(prefixed("inspection.background: ", e.as_str()));
                    },
                }
            }
            if let Some(mib) = inspection.decoded_cache_mib {
                if !(64 <= mib && mib <= 2048) {
                    return Err(owned("inspection.decoded_cache_mib must be from 64 to 2048"));
                }
                self.decoded_cache_bytes = mib * 1048576;
            }
        }
        Ok(())
    }

    /// Applies a configuration document. The first error, prefixed with the setting it concerns,
    /// stops it; the settings are then not meant to be used.
    pub fn apply(&mut self, document: &Document) -> (out: Result<(), String>)
        requires
            old(self).wf(),
        ensures
            final(self).wf(),
            match apply_document(old(self).model(), *document) {
                Ok(m) => out is Ok && final(self).model() == m,
                Err(e) => out matches Err(msg) && msg@ == e,
            },
            forall|c: ActionContext, a: Action| context_keys(document.keys, c) is None ==> #[trigger] final(self).bindings.keys_in(c, a) == old(self).bindings.keys_in(c, a),
    {
        if document.version != CONFIG_VERSION {
            let mut message = chars_of("unsupported configuration version ");
            let mut digits = decimal_chars(document.version as u128);
            message.append(&mut digits);
            let mut tail = chars_of("; expected 1");
            message.append(&mut tail);
            return Err(string_of(message.as_slice()));
        }
        match self.apply_thumbnail_table(&document.thumbnail) {
            Ok(()) => {},
            Err(e) => {
                return Err(e);
            },
        }
        if let Some(graphics) = &document.graphics {
            if let Some(protocol) = &graphics.protocol {
                match GraphicsProtocol::parse(protocol.as_str()) {
                    Ok(parsed) => self.graphics_protocol = parsed,
                    Err(e) => {
                        return Err(prefixed("graphics.protocol: ", e.as_str()));
                    },
                }
            }
        }
        if let Some(ui) = &document.ui {
            if let Some(flag) = ui.debug_status {
                self.debug_status = flag;
            }
        }
        match self.apply_keys_table(&document.keys) {
            Ok(()) => {},
            Err(e) => {
                return Err(e);
            },
        }
        self.apply_inspection_table(&document.inspection)
    }

    /// The settings of a session: the defaults, then the document when there is one, then the
    /// command line's overrides.
    pub fn load(document: &Option<Document>, cli: &CliOverrides) -> (out: Result<RuntimeSettings, String>)
        ensures
            match loaded_settings(*document, *cli) {
                Ok(m) => out matches Ok(settings) && settings.wf() && settings.model() == m,
                Err(e) => out matches Err(msg) && msg@ == e,
            },
            out matches Ok(settings) ==> forall|c: ActionContext, a: Action| leaves_context_keys(*document, c)
                ==> #[trigger] settings.bindings.keys_in(c, a) == keys_where(built_in_list(), c, a),
    {
        let mut settings = RuntimeSettings::defaults();
        if let Some(doc) = document {
            match settings.apply(doc) {
                Ok(()) => {},
                Err(e) => {
                    return Err(e);
                },
            }
        }
        if let Some(size) = cli.thumbnail_size {
            settings.thumbnail_size = size;
        }
        if let Some(quality) = cli.thumbnail_quality {
            settings.thumbnail_quality = quality;
        }
        if let Some(protocol) = cli.graphics_protocol {
            settings.graphics_protocol = protocol;
        }
        Ok(settings)
    }
}

/// A relative path joined to a directory: a `/` goes between them unless the directory is empty
/// or already ends with one (std's `PathBuf::push` of a relative path on Unix).
pub open spec fn joined_path(directory: Seq<u8>, relative: Seq<u8>) -> Seq<u8> {
    if directory.len() > 0 && directory.last() != 47u8 {
        directory + seq![47u8] + relative
    } else {
        directory + relative
    }
}

/// A relative path joined to a directory.
pub fn join_path(directory: &Vec<u8>, relative: &str) -> (out: Vec<u8>)
    ensures
        out@ == joined_path(directory@, crate::text::ascii_bytes(relative@)),
{
    let mut out: Vec<u8> = Vec::new();
    let mut i: usize = 0;
    while i < directory.len()
        invariant
            i <= directory@.len(),
            out@ == directory@.take(i as int),
        decreases directory.len() - i,
    {
        out.push(directory[i]);
        i = i + 1;
        assert(out@ =~= directory@.take(i as int));
    }
    assert(directory@.take(i as int) =~= directory@);
    if directory.len() > 0 && directory[directory.len() - 1] != 47u8 {
        out.push(47u8);
    }
    let ghost base = out@;
    let chars = chars_of(relative);
    let mut k: usize = 0;
    while k < chars.len()
        invariant
            k <= chars@.len(),
            chars@ == relative@,
            out@ == base + crate::text::ascii_bytes(relative@).take(k as int),
        decreases chars.len() - k,
    {
        out.push((chars[k] as u32) as u8);
        k = k + 1;
        assert(out@ =~= base + crate::text::ascii_bytes(relative@).take(k as int));
    }
    assert(crate::text::ascii_bytes(relative@).take(k as int) =~= crate::text::ascii_bytes(relative@));
    out
}

/// Where a configuration file is looked for without `--config`: under `XDG_CONFIG_HOME` when it
/// is set and non-empty, else under `HOME/.config` when `HOME` is, else nowhere.
pub open spec fn discovered_location(xdg_config_home: Option<Seq<u8>>, home: Option<Seq<u8>>) -> Option<Seq<u8>> {
    match xdg_config_home {
        Some(root) if root.len() > 0 => Some(joined_path(root, crate::text::ascii_bytes("red-table/config.toml"@))),
        _ => match home {
            Some(root) if root.len() > 0 => Some(
                joined_path(root, crate::text::ascii_bytes(".config/red-table/config.toml"@)),
            ),
            _ => None,
        },
    }
}

/// The configuration file to look for without `--config`, given the values of
/// `XDG_CONFIG_HOME` and `HOME`.
pub fn discovered_path(xdg_config_home: &Option<Vec<u8>>, home: &Option<Vec<u8>>) -> (out: Option<Vec<u8>>)
    ensures
        match discovered_location(
            match xdg_config_home { Some(v) => Some(v@), None => None },
            match home { Some(v) => Some(v@), None => None },
        ) {
            Some(p) => out matches Some(v) && v@ == p,
            None => out is None,
        },
{
    if let Some(root) = xdg_config_home {
        if root.len() > 0 {
            return Some(join_path(root, "red-table/config.toml"));
        }
    }
    if let Some(root) = home {
        if root.len() > 0 {
            return Some(join_path(root, ".config/red-table/config.toml"));
        }
    }
    None
}

/// The file to read for a configuration source and whether it must exist: none when
/// configuration is disabled or nothing was discovered, an explicit path that must exist, or the
/// discovered path, which may be missing.
pub fn document_location(source: &ConfigSource, discovered: Option<Vec<u8>>) -> (out: Option<(Vec<u8>, bool)>)
    ensures
        match *source {
            ConfigSource::Disabled => out is None,
            ConfigSource::Explicit(path) => out matches Some((p, required)) && p@ == path@ && required,
            ConfigSource::Discover => match discovered {
                Some(path) => out matches Some((p, required)) && p@ == path@ && !required,
                None => out is None,
            },
        },
{
    match source {
        ConfigSource::Disabled => None,
        ConfigSource::Explicit(path) => {
            let mut copy: Vec<u8> = Vec::new();
            let mut i: usize = 0;
            while i < path.len()
                invariant
                    i <= path@.len(),
                    copy@ == path@.take(i as int),
                decreases path.len() - i,
            {
                copy.push(path[i]);
                i = i + 1;
                assert(copy@ =~= path@.take(i as int));
            }
            assert(path@.take(i as int) =~= path@);
            Some((copy, true))
        },
        ConfigSource::Discover => match discovered {
            Some(path) => Some((path, false)),
            None => None,
        },
    }
}

/// The command line wins over the configuration document: every override given is in effect.
pub proof fn law_command_line_wins(document: Option<Document>, cli: CliOverrides)
    ensures
        loaded_settings(document, cli) matches Ok(m) ==> {
            &&& (cli.thumbnail_size matches Some(size) ==> m.size == size)
            &&& (cli.thumbnail_quality matches Some(q) ==> m.quality == q.spec_level())
            &&& (cli.graphics_protocol matches Some(p) ==> m.protocol == p)
        },
{
}

} // verus!
