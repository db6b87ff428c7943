//! Verified core of a keyboard-driven terminal image browser.

mod text;
pub mod settings;
pub mod app;
pub mod inspection;
pub mod actions;
pub mod browser;
pub mod ui;
pub mod graphics;
pub mod config;
pub mod cli;
pub mod path_io;
pub mod terminal;
pub mod persistent_cache;
pub mod kitty;
pub mod thumbnails;
pub mod image_source;

use vstd::prelude::*;

verus! {

/// The text printed for `--help`.
pub const HELP: &'static str = "red-table - a performance-first terminal image browser

Usage: red-table [OPTIONS] [PATH]

Arguments:
  [PATH]           Directory to browse (default: current directory)

Options:
  -s, --thumbnail-size WIDTHxHEIGHT
                   Target thumbnail size in terminal cells (default: 32x14)
      --quality LEVEL
                   Thumbnail quality from 1 (fast) to 9 (maximum; default: 7)
      --graphics-protocol PROTOCOL
                   auto, kitty, sixel, iterm2, or halfblocks (default: auto)
      --config PATH Load this TOML configuration instead of XDG discovery
      --no-config   Disable configuration discovery
      --select      Confirm marked paths to stdout; terminal UI uses /dev/tty
      --print0      NUL-delimit selected paths (requires --select)
      --files0-from -
                   Read a NUL-delimited input path list from stdin
  -h, --help       Print help
  -V, --version    Print version

Controls:
  arrows, hjkl     Move selection
  Enter            Inspect focused image fullscreen
  c                Compare focused image against candidates
  +, -, 0          Enlarge, shrink, or reset thumbnails
  1..9             Set thumbnail quality
  /                Search by filename or path
  ?                Show contextual key help
  Space, v, u, m   Toggle mark, mark range, clear, or show marked only
  Ctrl+s           Confirm paths in --select mode
  q                Quit

Inspection:
  Esc              Return to the exact grid position
  p, n             Previous or next filtered image
  z, +, -          Fit/100%, zoom in, or zoom out
  arrows, hjkl     Pan the image crop
  b                Cycle transparency background
  Space            Toggle the current mark

Comparison:
  p, n             Previous or next candidate
  Enter            Promote candidate to reference
  Tab, s           Switch active pane or synchronize views
  z, +, -, hjkl    Fit/100%, zoom, and pan active view
  Space            Toggle mark on active pane
";

/// How a browsing session ended.
#[derive(Clone, Copy, Debug, PartialEq, Eq, Structural)]
pub enum RunOutcome {
    Completed,
    Cancelled,
}

impl RunOutcome {
    /// The process exit status for this outcome: `0` after completion, `2` after cancellation.
    pub fn exit_code(self) -> (code: u8)
        ensures
            code == (match self {
                RunOutcome::Completed => 0u8,
                RunOutcome::Cancelled => 2u8,
            }),
    {
        match self {
            RunOutcome::Completed => 0,
            RunOutcome::Cancelled => 2,
        }
    }
}

} // verus!
