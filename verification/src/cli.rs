//! The run-level options that the rendering core is steered by. Parsing a
//! command line into these lives outside the library.

use vstd::prelude::*;

verus! {

/// The overall output shape of a run.
#[derive(Debug, Clone, Copy, PartialEq, Eq, Structural)]
pub enum Mode {
    /// An HTML file plus an asset tree.
    Dir,
    /// One self-contained HTML file.
    Single,
}

/// How strictly the artifact must avoid the network.
#[derive(Debug, Clone, Copy, PartialEq, Eq, Structural)]
pub enum OfflineMode {
    /// The artifact must trigger no network request at all; the only mode a
    /// run accepts.
    Strict,
    Hybrid,
    Loose,
}

/// Whether a run shows a progress display.
#[derive(Debug, Clone, Copy, PartialEq, Eq, Structural)]
pub enum ProgressMode {
    /// Show progress when standard error is a terminal.
    Auto,
    /// Always show progress.
    Always,
    /// Never show progress.
    Never,
}

} // verus!
