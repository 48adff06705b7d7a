//! An adjacent-line deduplication library in the style of the classic
//! `uniq` filter.
//!
//! The library consumes a sequence of raw lines (each line keeps its
//! original trailing terminator bytes) and emits each maximal run of
//! consecutive lines that share a *comparison key* exactly once,
//! optionally prefixed with the length of the run.  The comparison key
//! of a line is its content with trailing line-terminator bytes
//! stripped; everything else, including interior and trailing spaces,
//! distinguishes lines.

pub mod args;
pub mod engine;
pub mod filter;
pub mod laws;
pub mod lines;
pub mod render;

pub use args::ArgError;
pub use args::Config;
pub use args::get_args;
pub use engine::Engine;
pub use engine::Record;
pub use filter::run;
pub use lines::key;
pub use render::render_record;
