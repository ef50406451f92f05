//! Host-facts collection library.
//!
//! The crate normalizes raw host probe data into structured fact documents:
//! kernel release strings, `/proc/meminfo`-style memory counters, and
//! network device records.  All parsing, aggregation and selection logic is
//! verified; reading pseudo-files, spawning the address-enumeration utility
//! and JSON serialization live outside the library.

pub mod collector;
pub mod kernel;
pub mod memory;
pub mod network;
pub mod text;
