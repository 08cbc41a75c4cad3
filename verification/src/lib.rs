//! Organizes per-chapter recordings produced by an action camera into
//! complete per-recording files.
//!
//! The camera splits long recordings into numbered chapter files that share
//! a recording identifier. This library classifies directory entries by
//! their file names, groups chapters that belong to the same recording,
//! orders them, and builds the execution plan that a thin I/O layer carries
//! out: a rename or copy for single-chapter recordings, and a lossless
//! concatenation driven by a demux manifest for multi-chapter recordings.

pub mod cli;
pub mod demux;
pub mod gopro;
pub mod grouping;
pub mod plan;
pub mod printing;
pub mod run;
pub mod text;
