//! A hex/ASCII dump library in the style of classic `hexdump`/`xxd` tools.
//!
//! The crate renders byte windows of a file as fixed-width dump lines
//! (offset column, two groups of eight hex byte cells, printable-character
//! column), computes the page-sized window boundaries used to walk a file
//! of known size, and builds the error values reported when a file cannot
//! be opened, measured or mapped.

pub mod driver;
pub mod errors;
pub mod laws;
pub mod paging;
pub mod render;
