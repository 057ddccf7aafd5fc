//! Model-holder core of a text-to-speech engine: voice packages are decoded,
//! their style tables validated, and a bounded registry of loaded voices is
//! kept with least-recently-used eviction.
//!
//! Style-vector elements and inference sessions are carried as type
//! parameters: the library stores and moves them, and never looks inside.

pub mod error;
pub mod holder;
pub mod laws;
pub mod npy;
pub mod sbv2file;
pub mod style;
pub mod trusted;
