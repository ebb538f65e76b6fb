//! The settings of the desktop side.

use vstd::prelude::*;

verus! {

/// The desktop side's settings.
pub struct Args {
    /// Network port to listen on.
    pub port: u16,
    /// Width the picture is scaled to for the e-reader.
    pub kobo_w: usize,
    /// Height the picture is scaled to for the e-reader.
    pub kobo_h: usize,
    /// Name (`WIDTHxHEIGHT`) of the monitor to mirror.
    pub monitor: String,
    /// Number of colours the picture is reduced to.
    pub number_of_colors: usize,
    /// Tree depth of the colour reduction.
    pub tree_depth: usize,
}

impl Args {
    /// The settings when only the monitor is given: port 24356, a picture of
    /// 1024 x 758, two colours, tree depth 4.
    pub fn with_monitor(monitor: String) -> (args: Args)
        ensures
            args.port == 24356,
            args.kobo_w == 1024,
            args.kobo_h == 758,
            args.monitor == monitor,
            args.number_of_colors == 2,
            args.tree_depth == 4,
    {
        Args { port: 24356, kobo_w: 1024, kobo_h: 758, monitor, number_of_colors: 2, tree_depth: 4 }
    }
}

} // verus!
