//! Rendering of terminal status tables: single-line label/value rows that
//! share one column width, framed multi-line blocks, and blank spacer lines,
//! with optional translation of Minecraft's inline colour markup into ANSI
//! escape sequences.

pub mod markup;
pub mod output;
pub mod width;

pub use markup::mc_formatted_to_ansi;
pub use markup::remove_formatting;
pub use output::get_table;
