//! The command line: options, their values and the combinations that are refused.

use vstd::prelude::*;

use crate::config::{CliOverrides, ConfigSource};
use crate::graphics::{parsed_protocol, GraphicsProtocol};
use crate::settings::{parse_size, quality_error, ThumbnailQuality, ThumbnailSize};
use crate::text::{
    after_prefix, ascii_bytes, bytes_are, chars_of, lossy_text, owned, parse_unsigned,
    strip_prefix_chars, string_of, utf8_lossy, utf8_text,
};

verus! {

/// The options of a browsing session.
#[derive(Clone, Debug, PartialEq, Eq)]
pub struct BrowseOptions {
    /// The directory to browse, as raw bytes.
    pub path: Vec<u8>,
    pub config_source: ConfigSource,
    pub overrides: CliOverrides,
    pub select: bool,
    pub print0: bool,
    pub files0_from_stdin: bool,
}

/// What the command line asks for.
#[derive(Clone, Debug, PartialEq, Eq)]
pub enum Command {
    Browse(BrowseOptions),
    Help,
    Version,
}

/// Where the configuration comes from, as a value of the model.
pub enum ConfigModel {
    Discover,
    Disabled,
    Explicit(Seq<u8>),
}

/// The options read so far.
pub struct CliModel {
    pub path: Option<Seq<u8>>,
    pub config: ConfigModel,
    pub size: Option<(u16, u16)>,
    pub quality: Option<u8>,
    pub protocol: Option<GraphicsProtocol>,
    pub select: bool,
    pub print0: bool,
    pub files0: bool,
    /// `--` was seen: every later argument is a path.
    pub ended: bool,
}

/// The result of reading a command line.
pub enum CliOutcome {
    Help,
    Version,
    Browse(CliModel),
    Fail(Seq<char>),
}

/// Nothing read yet.
pub open spec fn no_options() -> CliModel {
    CliModel {
        path: None,
        config: ConfigModel::Discover,
        size: None,
        quality: None,
        protocol: None,
        select: false,
        print0: false,
        files0: false,
        ended: false,
    }
}

/// The text of an argument, when it is valid UTF-8.
pub open spec fn argument_text(argument: Seq<u8>) -> Option<Seq<char>> {
    if vstd::utf8::valid_utf8(argument) {
        Some(vstd::utf8::decode_utf8(argument))
    } else {
        None
    }
}

/// The value of an argument of the form `prefix` followed by a value.
pub open spec fn equals_value(argument: Seq<u8>, prefix: Seq<char>) -> Option<Seq<char>> {
    match argument_text(argument) {
        Some(text) => after_prefix(text, prefix),
        None => None,
    }
}

/// Whether an argument is the ASCII text `flag`.
pub open spec fn is_flag(argument: Seq<u8>, flag: Seq<char>) -> bool {
    argument == ascii_bytes(flag)
}

/// A quality level text: a number from 1 to 9.
pub open spec fn quality_text(text: Seq<char>) -> Result<u8, Seq<char>> {
    match parse_unsigned(text, 255) {
        Some(n) => if 1 <= n <= 9 {
            Ok(n as u8)
        } else {
            Err(quality_error())
        },
        None => Err(quality_error()),
    }
}

/// A value given as a separate argument, which must be valid UTF-8.
pub open spec fn separate_value(argument: Seq<u8>, what: Seq<char>) -> Result<Seq<char>, Seq<char>> {
    match argument_text(argument) {
        Some(text) => Ok(text),
        None => Err(what + " must be valid UTF-8"@),
    }
}

/// The message for combining the two configuration options.
pub open spec fn config_conflict() -> Seq<char> {
    "--config and --no-config may not be combined"@
}

/// The message for an input list from anything but standard input.
pub open spec fn files0_only_stdin() -> Seq<char> {
    "--files0-from currently accepts only - for standard input"@
}

/// The options read so far, checked once every argument is read.
pub open spec fn finished(m: CliModel) -> CliOutcome {
    if m.print0 && !m.select {
        CliOutcome::Fail("--print0 requires --select"@)
    } else if m.files0 && m.path is Some {
        CliOutcome::Fail("--files0-from may not be combined with a directory path"@)
    } else {
        CliOutcome::Browse(m)
    }
}

/// Reads the arguments from position `i` on, with the options `m` read before.
pub open spec fn read_arguments(args: Seq<Seq<u8>>, i: int, m: CliModel) -> CliOutcome
    decreases args.len() - i,
{
    if i < 0 || i >= args.len() {
        finished(m)
    } else {
        let a = args[i];
        let has_next = i + 1 < args.len();
        if is_flag(a, "-h"@) || is_flag(a, "--help"@) {
            CliOutcome::Help
        } else if is_flag(a, "-V"@) || is_flag(a, "--version"@) {
            CliOutcome::Version
        } else if m.ended {
            read_path(args, i, m)
        } else if is_flag(a, "--"@) {
            read_arguments(args, i + 1, CliModel { ended: true, ..m })
        } else if is_flag(a, "-s"@) || is_flag(a, "--thumbnail-size"@) {
            if !has_next {
                CliOutcome::Fail("--thumbnail-size requires WIDTHxHEIGHT"@)
            } else {
                match separate_value(args[i + 1], "thumbnail size"@) {
                    Err(e) => CliOutcome::Fail(e),
                    Ok(text) => match parse_size(text) {
                        Err(e) => CliOutcome::Fail(e),
                        Ok(size) => read_arguments(args, i + 2, CliModel { size: Some(size), ..m }),
                    },
                }
            }
        } else if is_flag(a, "--quality"@) {
            if !has_next {
                CliOutcome::Fail("--quality requires a level from 1 to 9"@)
            } else {
                match separate_value(args[i + 1], "thumbnail quality"@) {
                    Err(e) => CliOutcome::Fail(e),
                    Ok(text) => match quality_text(text) {
                        Err(e) => CliOutcome::Fail(e),
                        Ok(level) => read_arguments(args, i + 2, CliModel { quality: Some(level), ..m }),
                    },
                }
            }
        } else if is_flag(a, "--graphics-protocol"@) {
            if !has_next {
                CliOutcome::Fail("--graphics-protocol requires auto, kitty, sixel, iterm2, or halfblocks"@)
            } else {
                match separate_value(args[i + 1], "graphics protocol"@) {
                    Err(e) => CliOutcome::Fail(e),
                    Ok(text) => match parsed_protocol(text) {
                        Err(e) => CliOutcome::Fail(e),
                        Ok(p) => read_arguments(args, i + 2, CliModel { protocol: Some(p), ..m }),
                    },
                }
            }
        } else if is_flag(a, "--config"@) {
            if !(m.config is Discover) {
                CliOutcome::Fail(config_conflict())
            } else if !has_next {
                CliOutcome::Fail("--config requires a path"@)
            } else if args[i + 1].len() == 0 {
                CliOutcome::Fail("--config requires a non-empty path"@)
            } else {
                read_arguments(args, i + 2, CliModel { config: ConfigModel::Explicit(args[i + 1]), ..m })
            }
        } else if is_flag(a, "--no-config"@) {
            if !(m.config is Discover) {
                CliOutcome::Fail(config_conflict())
            } else {
                read_arguments(args, i + 1, CliModel { config: ConfigModel::Disabled, ..m })
            }
        } else if is_flag(a, "--select"@) {
            read_arguments(args, i + 1, CliModel { select: true, ..m })
        } else if is_flag(a, "--print0"@) {
            read_arguments(args, i + 1, CliModel { print0: true, ..m })
        } else if is_flag(a, "--files0-from"@) {
            if !has_next {
                CliOutcome::Fail("--files0-from requires -"@)
            } else if !is_flag(args[i + 1], "-"@) {
                CliOutcome::Fail(files0_only_stdin())
            } else {
                read_arguments(args, i + 2, CliModel { files0: true, ..m })
            }
        } else {
            read_joined(args, i, m)
        }
    }
}

/// Reads an option written with `=` and its value at position `i`, or else a path.
pub open spec fn read_joined(args: Seq<Seq<u8>>, i: int, m: CliModel) -> CliOutcome
    decreases args.len() - i, 1int,
{
    if i < 0 || i >= args.len() {
        finished(m)
    } else {
        let a = args[i];
        match equals_value(a, "--files0-from="@) {
            Some(value) => if value != "-"@ {
                CliOutcome::Fail(files0_only_stdin())
            } else {
                read_arguments(args, i + 1, CliModel { files0: true, ..m })
            },
            None => match equals_value(a, "--thumbnail-size="@) {
                Some(value) => match parse_size(value) {
                    Err(e) => CliOutcome::Fail(e),
                    Ok(size) => read_arguments(args, i + 1, CliModel { size: Some(size), ..m }),
                },
                None => match equals_value(a, "--graphics-protocol="@) {
                    Some(value) => match parsed_protocol(value) {
                        Err(e) => CliOutcome::Fail(e),
                        Ok(p) => read_arguments(args, i + 1, CliModel { protocol: Some(p), ..m }),
                    },
                    None => match equals_value(a, "--quality="@) {
                        Some(value) => match quality_text(value) {
                            Err(e) => CliOutcome::Fail(e),
                            Ok(level) => read_arguments(args, i + 1, CliModel { quality: Some(level), ..m }),
                        },
                        None => match equals_value(a, "--config="@) {
                            Some(value) => if !(m.config is Discover) {
                                CliOutcome::Fail(config_conflict())
                            } else if value.len() == 0 {
                                CliOutcome::Fail("--config requires a non-empty path"@)
                            } else {
                                read_arguments(
                                    args,
                                    i + 1,
                                    CliModel { config: ConfigModel::Explicit(vstd::utf8::encode_utf8(value)), ..m },
                                )
                            },
                            None => {
                                let shown = utf8_lossy(a);
                                if shown.len() > 0 && shown[0] == '-' {
                                    CliOutcome::Fail("unknown option: "@ + shown)
                                } else {
                                    read_path(args, i, m)
                                }
                            },
                        },
                    },
                },
            },
        }
    }
}

/// Takes the argument at position `i` as the directory; a second directory is refused.
pub open spec fn read_path(args: Seq<Seq<u8>>, i: int, m: CliModel) -> CliOutcome
    decreases args.len() - i, 0int,
{
    if i < 0 || i >= args.len() {
        finished(m)
    } else if m.path is Some {
        CliOutcome::Fail("only one directory may be specified"@)
    } else {
        read_arguments(args, i + 1, CliModel { path: Some(args[i]), ..m })
    }
}

/// The outcome of a whole command line.
pub open spec fn parse_command_line(args: Seq<Seq<u8>>) -> CliOutcome {
    read_arguments(args, 0, no_options())
}

/// Whether an executable command is the outcome's.
pub open spec fn command_is(out: Result<Command, String>, outcome: CliOutcome) -> bool {
    match outcome {
        CliOutcome::Help => out matches Ok(Command::Help),
        CliOutcome::Version => out matches Ok(Command::Version),
        CliOutcome::Fail(e) => out matches Err(msg) && msg@ == e,
        CliOutcome::Browse(m) => match out {
            Ok(Command::Browse(options)) => {
                &&& options.path@ == (match m.path {
                    Some(p) => p,
                    None => seq!['.' as u8],
                })
                &&& match m.config {
                    ConfigModel::Discover => options.config_source matches ConfigSource::Discover,
                    ConfigModel::Disabled => options.config_source matches ConfigSource::Disabled,
                    ConfigModel::Explicit(p) => options.config_source matches ConfigSource::Explicit(q) && q@ == p,
                }
                &&& match m.size {
                    Some((w, h)) => options.overrides.thumbnail_size == Some(ThumbnailSize { width: w, height: h }),
                    None => options.overrides.thumbnail_size is None,
                }
                &&& match m.quality {
                    Some(level) => options.overrides.thumbnail_quality matches Some(q) && q.spec_level() == level,
                    None => options.overrides.thumbnail_quality is None,
                }
                &&& options.overrides.graphics_protocol == m.protocol
                &&& options.select == m.select
                &&& options.print0 == m.print0
                &&& options.files0_from_stdin == m.files0
            },
            _ => false,
        },
    }
}

/// The options read so far, as the parser holds them.
struct CliState {
    path: Option<Vec<u8>>,
    config: ConfigSource,
    size: Option<ThumbnailSize>,
    quality: Option<ThumbnailQuality>,
    protocol: Option<GraphicsProtocol>,
    select: bool,
    print0: bool,
    files0: bool,
    ended: bool,
}

impl CliState {
    spec fn model(&self) -> CliModel {
        CliModel {
            path: match self.path {
                Some(p) => Some(p@),
                None => None,
            },
            config: match self.config {
                ConfigSource::Discover => ConfigModel::Discover,
                ConfigSource::Disabled => ConfigModel::Disabled,
                ConfigSource::Explicit(p) => ConfigModel::Explicit(p@),
            },
            size: match self.size {
                Some(s) => Some((s.width, s.height)),
                None => None,
            },
            quality: match self.quality {
                Some(q) => Some(q.spec_level()),
                None => None,
            },
            protocol: self.protocol,
            select: self.select,
            print0: self.print0,
            files0: self.files0,
            ended: self.ended,
        }
    }
}

/// What one step of the parser leaves: the next argument to read, or the outcome.
enum Step {
    Next(usize),
    Done(Result<Command, String>),
}

fn copy_of(bytes: &[u8]) -> (out: Vec<u8>)
    ensures
        out@ == bytes@,
{
    let mut out: Vec<u8> = Vec::new();
    let mut i: usize = 0;
    while i < bytes.len()
        invariant
            i <= bytes@.len(),
            out@ == bytes@.take(i as int),
        decreases bytes.len() - i,
    {
        out.push(bytes[i]);
        i = i + 1;
        assert(out@ =~= bytes@.take(i as int));
    }
    assert(bytes@.take(i as int) =~= bytes@);
    out
}

fn value_text(argument: &[u8], what: &str) -> (out: Result<String, String>)
    ensures
        match (out, separate_value(argument@, what@)) {
            (Ok(t), Ok(u)) => t@ == u,
            (Err(e), Err(f)) => e@ == f,
            _ => false,
        },
{
    match utf8_text(argument) {
        Some(text) => Ok(text),
        None => {
            let mut message = chars_of(what);
            let mut rest = chars_of(" must be valid UTF-8");
            message.append(&mut rest);
            Err(string_of(message.as_slice()))
        },
    }
}

fn size_of_text(text: &str) -> (out: Result<ThumbnailSize, String>)
    ensures
        match (out, parse_size(text@)) {
            (Ok(size), Ok((w, h))) => size == ThumbnailSize { width: w, height: h },
            (Err(e), Err(f)) => e@ == f,
            _ => false,
        },
{
    ThumbnailSize::parse(text)
}

fn quality_of_text(text: &str) -> (out: Result<ThumbnailQuality, String>)
    ensures
        match (out, quality_text(text@)) {
            (Ok(q), Ok(level)) => q.spec_level() == level,
            (Err(e), Err(f)) => e@ == f,
            _ => false,
        },
{
    match ThumbnailQuality::parse(text) {
        Ok(q) => Ok(q),
        Err(e) => Err(e),
    }
}

fn finish(state: CliState) -> (out: Result<Command, String>)
    ensures
        command_is(out, finished(state.model())),
{
    if state.print0 && !state.select {
        return Err(owned("--print0 requires --select"));
    }
    if state.files0 && state.path.is_some() {
        return Err(owned("--files0-from may not be combined with a directory path"));
    }
    let path = match state.path {
        Some(p) => p,
        None => {
            let mut dot: Vec<u8> = Vec::new();
            dot.push(46u8);
            assert(dot@ =~= seq!['.' as u8]);
            dot
        },
    };
    Ok(Command::Browse(BrowseOptions {
        path,
        config_source: state.config,
        overrides: CliOverrides {
            thumbnail_size: state.size,
            thumbnail_quality: state.quality,
            graphics_protocol: state.protocol,
        },
        select: state.select,
        print0: state.print0,
        files0_from_stdin: state.files0,
    }))
}

fn read_path_step(args: &[Vec<u8>], i: usize, state: &mut CliState) -> (out: Step)
    requires
        i < args@.len(),
    ensures
        match out {
            Step::Next(j) => j == i + 1 && read_path(args@.map_values(|a: Vec<u8>| a@), i as int, old(state).model())
                == read_arguments(args@.map_values(|a: Vec<u8>| a@), j as int, final(state).model()),
            Step::Done(r) => command_is(r, read_path(args@.map_values(|a: Vec<u8>| a@), i as int, old(state).model())),
        },
{
    if state.path.is_some() {
        return Step::Done(Err(owned("only one directory may be specified")));
    }
    state.path = Some(copy_of(args[i].as_slice()));
    Step::Next(i + 1)
}

fn equals_step(args: &[Vec<u8>], i: usize, state: &mut CliState) -> (out: Step)
    requires
        i < args@.len(),
    ensures
        match out {
            Step::Next(j) => i < j <= args@.len() && read_joined(args@.map_values(|a: Vec<u8>| a@), i as int, old(state).model())
                == read_arguments(args@.map_values(|a: Vec<u8>| a@), j as int, final(state).model()),
            Step::Done(r) => command_is(r, read_joined(args@.map_values(|a: Vec<u8>| a@), i as int, old(state).model())),
        },
{
    let ghost all = args@.map_values(|a: Vec<u8>| a@);
    assert(all[i as int] == args@[i as int]@);
    let argument = args[i].as_slice();
    let chars: Option<Vec<char>> = match utf8_text(argument) {
        Some(text) => Some(chars_of(text.as_str())),
        None => None,
    };
    if let Some(text) = &chars {
        if let Some(value) = strip_prefix_chars(text.as_slice(), "--files0-from=") {
            let dash = chars_of("-");
            if !crate::text::chars_equal(value.as_slice(), dash.as_slice()) {
                return Step::Done(Err(owned("--files0-from currently accepts only - for standard input")));
            }
            state.files0 = true;
            return Step::Next(i + 1);
        }
        if let Some(value) = strip_prefix_chars(text.as_slice(), "--thumbnail-size=") {
            let value = string_of(value.as_slice());
            match size_of_text(value.as_str()) {
                Err(e) => {
                    return Step::Done(Err(e));
                },
                Ok(size) => {
                    state.size = Some(size);
                    return Step::Next(i + 1);
                },
            }
        }
        if let Some(value) = strip_prefix_chars(text.as_slice(), "--graphics-protocol=") {
            let value = string_of(value.as_slice());
            match GraphicsProtocol::parse(value.as_str()) {
                Err(e) => {
                    return Step::Done(Err(e));
                },
                Ok(p) => {
                    state.protocol = Some(p);
                    return Step::Next(i + 1);
                },
            }
        }
        if let Some(value) = strip_prefix_chars(text.as_slice(), "--quality=") {
            let value = string_of(value.as_slice());
            match quality_of_text(value.as_str()) {
                Err(e) => {
                    return Step::Done(Err(e));
                },
                Ok(q) => {
                    state.quality = Some(q);
                    return Step::Next(i + 1);
                },
            }
        }
        if let Some(value) = strip_prefix_chars(text.as_slice(), "--config=") {
            let discover = match state.config {
                ConfigSource::Discover => true,
                _ => false,
            };
            if !discover {
                return Step::Done(Err(owned("--config and --no-config may not be combined")));
            }
            if value.len() == 0 {
                return Step::Done(Err(owned("--config requires a non-empty path")));
            }
            let value = string_of(value.as_slice());
            let path = copy_of(value.as_str().as_bytes());
            state.config = ConfigSource::Explicit(path);
            return Step::Next(i + 1);
        }
    }
    let shown = lossy_text(argument);
    let shown_chars = chars_of(shown.as_str());
    if shown_chars.len() > 0 && shown_chars[0] == '-' {
        let mut message = chars_of("unknown option: ");
        let mut rest = shown_chars;
        message.append(&mut rest);
        return Step::Done(Err(string_of(message.as_slice())));
    }
    read_path_step(args, i, state)
}

fn is_discover(config: &ConfigSource) -> (out: bool)
    ensures
        out == (*config matches ConfigSource::Discover),
{
    match config {
        ConfigSource::Discover => true,
        _ => false,
    }
}

#[verifier::rlimit(50)]
fn step(args: &[Vec<u8>], i: usize, state: &mut CliState) -> (out: Step)
    requires
        i < args@.len(),
    ensures
        match out {
            Step::Next(j) => i < j <= args@.len() && read_arguments(args@.map_values(|a: Vec<u8>| a@), i as int, old(state).model())
                == read_arguments(args@.map_values(|a: Vec<u8>| a@), j as int, final(state).model()),
            Step::Done(r) => command_is(r, read_arguments(args@.map_values(|a: Vec<u8>| a@), i as int, old(state).model())),
        },
{
    let ghost all = args@.map_values(|a: Vec<u8>| a@);
    assert(all[i as int] == args@[i as int]@);
    let a = args[i].as_slice();
    let has_next = i + 1 < args.len();
    if has_next {
        assert(all[i + 1] == args@[i + 1]@);
    }
    if bytes_are(a, "-h") || bytes_are(a, "--help") {
        return Step::Done(Ok(Command::Help));
    }
    if bytes_are(a, "-V") || bytes_are(a, "--version") {
        return Step::Done(Ok(Command::Version));
    }
    if state.ended {
        return read_path_step(args, i, state);
    }
    if bytes_are(a, "--") {
        state.ended = true;
        return Step::Next(i + 1);
    }
    if bytes_are(a, "-s") || bytes_are(a, "--thumbnail-size") {
        if !has_next {
            return Step::Done(Err(owned("--thumbnail-size requires WIDTHxHEIGHT")));
        }
        match value_text(args[i + 1].as_slice(), "thumbnail size") {
            Err(e) => {
                return Step::Done(Err(e));
            },
            Ok(text) => match size_of_text(text.as_str()) {
                Err(e) => {
                    return Step::Done(Err(e));
                },
                Ok(size) => {
                    state.size = Some(size);
                    return Step::Next(i + 2);
                },
            },
        }
    }
    if bytes_are(a, "--quality") {
        if !has_next {
            return Step::Done(Err(owned("--quality requires a level from 1 to 9")));
        }
        match value_text(args[i + 1].as_slice(), "thumbnail quality") {
            Err(e) => {
                return Step::Done(Err(e));
            },
            Ok(text) => match quality_of_text(text.as_str()) {
                Err(e) => {
                    return Step::Done(Err(e));
                },
                Ok(q) => {
                    state.quality = Some(q);
                    return Step::Next(i + 2);
                },
            },
        }
    }
    if bytes_are(a, "--graphics-protocol") {
        if !has_next {
            return Step::Done(Err(owned("--graphics-protocol requires auto, kitty, sixel, iterm2, or halfblocks")));
        }
        match value_text(args[i + 1].as_slice(), "graphics protocol") {
            Err(e) => {
                return Step::Done(Err(e));
            },
            Ok(text) => match GraphicsProtocol::parse(text.as_str()) {
                Err(e) => {
                    return Step::Done(Err(e));
                },
                Ok(p) => {
                    state.protocol = Some(p);
                    return Step::Next(i + 2);
                },
            },
        }
    }
    if bytes_are(a, "--config") {
        if !is_discover(&state.config) {
            return Step::Done(Err(owned("--config and --no-config may not be combined")));
        }
        if !has_next {
            return Step::Done(Err(owned("--config requires a path")));
        }
        if args[i + 1].len() == 0 {
            return Step::Done(Err(owned("--config requires a non-empty path")));
        }
        state.config = ConfigSource::Explicit(copy_of(args[i + 1].as_slice()));
        return Step::Next(i + 2);
    }
    if bytes_are(a, "--no-config") {
        if !is_discover(&state.config) {
            return Step::Done(Err(owned("--config and --no-config may not be combined")));
        }
        state.config = ConfigSource::Disabled;
        return Step::Next(i + 1);
    }
    if bytes_are(a, "--select") {
        state.select = true;
        return Step::Next(i + 1);
    }
    if bytes_are(a, "--print0") {
        state.print0 = true;
        return Step::Next(i + 1);
    }
    if bytes_are(a, "--files0-from") {
        if !has_next {
            return Step::Done(Err(owned("--files0-from requires -")));
        }
        if !bytes_are(args[i + 1].as_slice(), "-") {
            return Step::Done(Err(owned("--files0-from currently accepts only - for standard input")));
        }
        state.files0 = true;
        return Step::Next(i + 2);
    }
    equals_step(args, i, state)
}

/// Reads a command line, given without the program name, each argument as raw bytes.
/// `-h`/`--help` and `-V`/`--version` win wherever they stand; after `--` every other argument
/// is the directory; the directory defaults to `.`.
pub fn parse(args: &[Vec<u8>]) -> (out: Result<Command, String>)
    ensures
        command_is(out, parse_command_line(args@.map_values(|a: Vec<u8>| a@))),
{
    let mut state = CliState {
        path: None,
        config: ConfigSource::Discover,
        size: None,
        quality: None,
        protocol: None,
        select: false,
        print0: false,
        files0: false,
        ended: false,
    };
    let ghost all = args@.map_values(|a: Vec<u8>| a@);
    let mut i: usize = 0;
    while i < args.len()
        invariant
            i <= args@.len(),
            all == args@.map_values(|a: Vec<u8>| a@),
            parse_command_line(all) == read_arguments(all, i as int, state.model()),
        decreases args.len() - i,
    {
        match step(args, i, &mut state) {
            Step::Next(j) => {
                i = j;
            },
            Step::Done(r) => {
                return r;
            },
        }
    }
    finish(state)
}

} // verus!
