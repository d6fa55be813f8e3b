//! Reader for per-frame animation "bake" caches: a directory of JSON frame
//! metadata files plus flat binary blob files, decoded into a frame-ordered,
//! per-domain attribute store for a single mesh topology.

use vstd::prelude::*;

pub mod bake_reader;
pub mod errors;
pub mod math;
pub mod tui;

pub use bake_reader::api;

verus! {

/// Top-level configuration for one viewing session: where the bake lives,
/// which attributes to read, and how wide a rendered row is.
pub struct App {
    pub base_path: String,
    pub attribute_names: Vec<String>,
    pub col_size: usize,
}

} // verus!
