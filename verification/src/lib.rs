//! Filters and rewrites the waypoints of a GPX document.
//!
//! A document is loaded from bytes, its waypoints are selected by a textual
//! pattern on their descriptions or by the number of CCS charging points
//! counted in them, optionally renamed and given a fresh display symbol, and
//! the result is serialized back to bytes, whole or split into batches.

use vstd::prelude::*;

pub mod model;
pub mod text;
pub mod filter;
pub mod transform;
pub mod paths;
pub mod codec;
pub mod batch;

pub use batch::write_gpx;
pub use batch::OutputFile;
pub use batch::WriteError;
pub use codec::load_gpx;
pub use codec::LoadError;
pub use filter::filter_wpt_by_ccs_count;
pub use filter::filter_wpt_by_description;
pub use filter::try_filter_wpt_by_description;
pub use model::Document;
pub use model::Wpt;
pub use paths::change_file_name;
pub use paths::file_stem;
pub use text::format_dec;
pub use text::sum_ccs;
pub use transform::set_name_ccs_count;
pub use transform::set_symbol;

verus! {

/// The pattern applied to waypoint descriptions when the caller names none:
/// it selects descriptions that advertise between 2 and 39 CCS charging
/// points.
pub const DEFAULT_FILTER: &'static str = r"\b([2-9]|1[0-9]|2[0-9]|3[0-9])\b x Combo Typ 2 \(CCS\)";

/// The command line of the tool: where to read, where to write, and which of
/// the pipeline stages to run.
pub struct Cli {
    /// The path of the GPX file to read.
    pub input: String,
    /// The path of the resulting GPX file to write.
    pub output: String,
    /// The pattern applied to the waypoints' descriptions.
    pub filter: String,
    /// A new symbol for the resulting waypoints; empty means no change.
    pub symbol: String,
    /// Keep waypoints with at least this many CCS chargers.
    pub ccs_lower: Option<i32>,
    /// Keep waypoints with at most this many CCS chargers.
    pub ccs_upper: Option<i32>,
    /// Split the output into files of at most this many waypoints.
    pub batch: Option<usize>,
}

} // verus!
