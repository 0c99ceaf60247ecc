//! A top-level module holding a nested module with one public item,
//! mirroring a package layout where each module lives in its own file.

pub mod vegetables;
