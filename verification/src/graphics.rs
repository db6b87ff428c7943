//! Choosing the terminal graphics protocol from the user's request, the terminal's answer and
//! the environment.

use vstd::prelude::*;

use crate::app::ascii_lowercase;
use crate::text::{chars_of, contains_chars, contains_text, owned, str_is, string_of};

verus! {

/// The graphics protocol the user asks for.
#[derive(Clone, Copy, Debug, PartialEq, Eq, Hash, Structural)]
pub enum GraphicsProtocol {
    Auto,
    Kitty,
    Sixel,
    Iterm2,
    Halfblocks,
}

impl Default for GraphicsProtocol {
    fn default() -> (protocol: Self)
        ensures
            protocol == GraphicsProtocol::Auto,
    {
        GraphicsProtocol::Auto
    }
}

/// The configuration name of a protocol request.
pub open spec fn protocol_name(protocol: GraphicsProtocol) -> Seq<char> {
    match protocol {
        GraphicsProtocol::Auto => "auto"@,
        GraphicsProtocol::Kitty => "kitty"@,
        GraphicsProtocol::Sixel => "sixel"@,
        GraphicsProtocol::Iterm2 => "iterm2"@,
        GraphicsProtocol::Halfblocks => "halfblocks"@,
    }
}

/// The message for a name that no protocol has.
pub open spec fn protocol_error() -> Seq<char> {
    "graphics protocol must be auto, kitty, sixel, iterm2, or halfblocks"@
}

/// The protocol a name requests, or the error for any other text.
pub open spec fn parsed_protocol(text: Seq<char>) -> Result<GraphicsProtocol, Seq<char>> {
    if text == "auto"@ {
        Ok(GraphicsProtocol::Auto)
    } else if text == "kitty"@ {
        Ok(GraphicsProtocol::Kitty)
    } else if text == "sixel"@ {
        Ok(GraphicsProtocol::Sixel)
    } else if text == "iterm2"@ {
        Ok(GraphicsProtocol::Iterm2)
    } else if text == "halfblocks"@ {
        Ok(GraphicsProtocol::Halfblocks)
    } else {
        Err(protocol_error())
    }
}

impl GraphicsProtocol {
    /// Parses one of the five protocol names, exactly as written.
    pub fn parse(value: &str) -> (out: Result<GraphicsProtocol, String>)
        ensures
            match out {
                Ok(protocol) => parsed_protocol(value@) == Ok::<GraphicsProtocol, Seq<char>>(protocol),
                Err(e) => parsed_protocol(value@) == Err::<GraphicsProtocol, Seq<char>>(e@),
            },
            match out {
                Ok(protocol) => protocol_name(protocol) == value@,
                Err(e) => (forall|p: GraphicsProtocol| protocol_name(p) != value@) && e@ == protocol_error(),
            },
    {
        if str_is(value, "auto") {
            Ok(GraphicsProtocol::Auto)
        } else if str_is(value, "kitty") {
            Ok(GraphicsProtocol::Kitty)
        } else if str_is(value, "sixel") {
            Ok(GraphicsProtocol::Sixel)
        } else if str_is(value, "iterm2") {
            Ok(GraphicsProtocol::Iterm2)
        } else if str_is(value, "halfblocks") {
            Ok(GraphicsProtocol::Halfblocks)
        } else {
            proof {
                assert forall|p: GraphicsProtocol| protocol_name(p) != value@ by {
                    match p {
                        GraphicsProtocol::Auto => {},
                        GraphicsProtocol::Kitty => {},
                        GraphicsProtocol::Sixel => {},
                        GraphicsProtocol::Iterm2 => {},
                        GraphicsProtocol::Halfblocks => {},
                    }
                }
            }
            Err(owned("graphics protocol must be auto, kitty, sixel, iterm2, or halfblocks"))
        }
    }
}

impl std::str::FromStr for GraphicsProtocol {
    type Err = String;

    fn from_str(value: &str) -> (out: Result<GraphicsProtocol, String>)
        ensures
            match out {
                Ok(protocol) => parsed_protocol(value@) == Ok::<GraphicsProtocol, Seq<char>>(protocol),
                Err(e) => parsed_protocol(value@) == Err::<GraphicsProtocol, Seq<char>>(e@),
            },
    {
        GraphicsProtocol::parse(value)
    }
}

/// A protocol the image widgets can draw with.
#[derive(Clone, Copy, Debug, PartialEq, Eq, Hash, Structural)]
pub enum ProtocolType {
    Halfblocks,
    Sixel,
    Kitty,
    Iterm2,
}

/// Why a protocol was chosen.
#[derive(Clone, Copy, Debug, PartialEq, Eq, Hash, Structural)]
pub enum SelectionSource {
    Auto,
    Environment,
    Forced,
}

/// What the environment says about the terminal.
#[derive(Clone, Copy, Debug, PartialEq, Eq, Hash, Structural)]
pub struct TerminalEnvironment {
    /// Kitty is drawing directly, not through tmux.
    pub direct_kitty: bool,
}

/// A chosen protocol and why it was chosen.
#[derive(Clone, Copy, Debug, PartialEq, Eq, Hash, Structural)]
pub struct Selection {
    pub protocol: ProtocolType,
    pub source: SelectionSource,
}

/// Kitty draws directly when a Kitty hint is present (a window id, or a terminal name that
/// mentions kitty in any ASCII case) and tmux is not in between.
pub open spec fn kitty_is_direct(in_tmux: bool, has_window_id: bool, term: Option<Seq<char>>) -> bool {
    let named = match term {
        Some(t) => contains_text(ascii_lowercase(t), "kitty"@),
        None => false,
    };
    (has_window_id || named) && !in_tmux
}

impl TerminalEnvironment {
    /// The environment described by the values of `TMUX` and `KITTY_WINDOW_ID` being set and
    /// non-empty, and by the value of `TERM` when it is set.
    pub fn from_values(in_tmux: bool, has_window_id: bool, term: Option<&str>) -> (env: TerminalEnvironment)
        ensures
            env.direct_kitty == kitty_is_direct(
                in_tmux,
                has_window_id,
                match term {
                    Some(t) => Some(t@),
                    None => None,
                },
            ),
    {
        let named = match term {
            Some(t) => {
                let chars = chars_of(t);
                let lower = crate::app::ascii_lowercase_chars(chars.as_slice());
                let needle = chars_of("kitty");
                contains_chars(lower.as_slice(), needle.as_slice())
            },
            None => false,
        };
        TerminalEnvironment { direct_kitty: (has_window_id || named) && !in_tmux }
    }
}

/// The protocol to draw with: a requested protocol is forced; otherwise the terminal's answer,
/// except that a half-block fallback becomes Kitty when Kitty draws directly.
pub open spec fn selected(requested: GraphicsProtocol, queried: ProtocolType, environment: TerminalEnvironment) -> Selection {
    match requested {
        GraphicsProtocol::Kitty => Selection { protocol: ProtocolType::Kitty, source: SelectionSource::Forced },
        GraphicsProtocol::Sixel => Selection { protocol: ProtocolType::Sixel, source: SelectionSource::Forced },
        GraphicsProtocol::Iterm2 => Selection { protocol: ProtocolType::Iterm2, source: SelectionSource::Forced },
        GraphicsProtocol::Halfblocks => Selection { protocol: ProtocolType::Halfblocks, source: SelectionSource::Forced },
        GraphicsProtocol::Auto => if queried == ProtocolType::Halfblocks && environment.direct_kitty {
            Selection { protocol: ProtocolType::Kitty, source: SelectionSource::Environment }
        } else {
            Selection { protocol: queried, source: SelectionSource::Auto }
        },
    }
}

/// The name under which a drawing protocol is requested (`--graphics-protocol` and the
/// configuration's `graphics.protocol`).
pub open spec fn drawing_name(protocol: ProtocolType) -> Seq<char> {
    match protocol {
        ProtocolType::Halfblocks => "halfblocks"@,
        ProtocolType::Sixel => "sixel"@,
        ProtocolType::Kitty => "kitty"@,
        ProtocolType::Iterm2 => "iterm2"@,
    }
}

/// A requested protocol other than `auto` is the one drawn with, whatever the terminal answered
/// and its environment; with `auto` the terminal's answer is used, except that a half-block
/// answer becomes Kitty when Kitty draws directly.
pub proof fn law_a_requested_protocol_is_forced(
    requested: GraphicsProtocol,
    queried: ProtocolType,
    environment: TerminalEnvironment,
)
    ensures
        requested != GraphicsProtocol::Auto ==> drawing_name(selected(requested, queried, environment).protocol)
            == protocol_name(requested) && selected(requested, queried, environment).source == SelectionSource::Forced,
        requested == GraphicsProtocol::Auto ==> selected(requested, queried, environment).source != SelectionSource::Forced
            && selected(requested, queried, environment).protocol == (if queried == ProtocolType::Halfblocks
            && environment.direct_kitty {
            ProtocolType::Kitty
        } else {
            queried
        }),
{
}

/// Chooses the protocol to draw with.
pub fn select(requested: GraphicsProtocol, queried: ProtocolType, environment: TerminalEnvironment) -> (selection: Selection)
    ensures
        selection == selected(requested, queried, environment),
        requested != GraphicsProtocol::Auto ==> drawing_name(selection.protocol) == protocol_name(requested)
            && selection.source == SelectionSource::Forced,
{
    proof {
        law_a_requested_protocol_is_forced(requested, queried, environment);
    }
    let forced = match requested {
        GraphicsProtocol::Auto => None,
        GraphicsProtocol::Kitty => Some(ProtocolType::Kitty),
        GraphicsProtocol::Sixel => Some(ProtocolType::Sixel),
        GraphicsProtocol::Iterm2 => Some(ProtocolType::Iterm2),
        GraphicsProtocol::Halfblocks => Some(ProtocolType::Halfblocks),
    };
    if let Some(protocol) = forced {
        return Selection { protocol, source: SelectionSource::Forced };
    }
    if queried == ProtocolType::Halfblocks && environment.direct_kitty {
        return Selection { protocol: ProtocolType::Kitty, source: SelectionSource::Environment };
    }
    Selection { protocol: queried, source: SelectionSource::Auto }
}

/// The label of a selection in the status line: the protocol, a slash and the reason.
pub open spec fn selection_label(selection: Selection) -> Seq<char> {
    (match selection.protocol {
        ProtocolType::Halfblocks => "Half 1x2"@,
        ProtocolType::Sixel => "Sixel"@,
        ProtocolType::Kitty => "Kitty"@,
        ProtocolType::Iterm2 => "iTerm2"@,
    }) + "/"@ + (match selection.source {
        SelectionSource::Auto => "auto"@,
        SelectionSource::Environment => "env"@,
        SelectionSource::Forced => "forced"@,
    })
}

impl Selection {
    /// The label of the selection in the status line.
    pub fn label(self) -> (out: String)
        ensures
            out@ == selection_label(self),
    {
        let protocol = match self.protocol {
            ProtocolType::Halfblocks => "Half 1x2",
            ProtocolType::Sixel => "Sixel",
            ProtocolType::Kitty => "Kitty",
            ProtocolType::Iterm2 => "iTerm2",
        };
        let source = match self.source {
            SelectionSource::Auto => "auto",
            SelectionSource::Environment => "env",
            SelectionSource::Forced => "forced",
        };
        let mut out = chars_of(protocol);
        out.push('/');
        let mut rest = chars_of(source);
        out.append(&mut rest);
        proof {
            reveal_strlit("/");
            assert(out@ =~= selection_label(self));
        }
        string_of(out.as_slice())
    }
}

/// The size of one character cell in pixels when the terminal is not queried: the window's pixel
/// size divided by its cell count, at least one each, or 10 by 20 when either size is unknown
/// or zero.
pub open spec fn cell_pixels(cells: Option<(u16, u16)>, pixels: Option<(u16, u16)>) -> (u16, u16) {
    match (cells, pixels) {
        (Some((columns, rows)), Some((width, height))) => if columns > 0 && rows > 0 && width > 0 && height > 0 {
            (
                (if width / columns == 0 { 1 } else { width / columns }) as u16,
                (if height / rows == 0 { 1 } else { height / rows }) as u16,
            )
        } else {
            (10, 20)
        },
        _ => (10, 20),
    }
}

/// The size of one character cell in pixels when the terminal is not queried.
pub fn font_size_without_query(cells: Option<(u16, u16)>, pixels: Option<(u16, u16)>) -> (size: (u16, u16))
    ensures
        size == cell_pixels(cells, pixels),
        size.0 > 0 && size.1 > 0,
{
    match (cells, pixels) {
        (Some((columns, rows)), Some((width, height))) => {
            if columns > 0 && rows > 0 && width > 0 && height > 0 {
                let w = width / columns;
                let h = height / rows;
                (if w == 0 { 1 } else { w }, if h == 0 { 1 } else { h })
            } else {
                (10, 20)
            }
        },
        _ => (10, 20),
    }
}

/// The pixels one cell stands for in prepared images: one by two with half blocks, else the
/// font's cell size.
pub fn sample_font_size(protocol: ProtocolType, font: (u16, u16)) -> (size: (u16, u16))
    ensures
        size == (if protocol == ProtocolType::Halfblocks { (1u16, 2u16) } else { font }),
{
    if protocol == ProtocolType::Halfblocks {
        (1, 2)
    } else {
        font
    }
}

} // verus!
