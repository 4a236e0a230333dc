//! Path-safe extraction of downloaded archives into one directory, and the bookkeeping of
//! folding ranges in an editor.
//!
//! The library decides; it does not touch the disk or the network. Whoever uses it says what
//! a look at the disk or a write came to, and is told what to do next.
//!
//! - [`path_text`] says what a Unix path is, and [`path`] computes with paths.
//! - [`walk`] follows a path below a directory without being led out by a symlink.
//! - [`archive_dir`] decides what a directory contains and where an archive entry goes.
//! - [`zip`] and [`zip_extraction`] plan the extraction of a zip archive, [`tar`] that of a
//!   tar archive.
//! - [`digest`] and [`download`] check a download against its SHA-256 digest.
//! - [`folding_ranges`] decides which buffers to ask the language servers about.
//!
//! What holds of them beyond the contracts of single functions stands in the modules whose
//! names end in `_laws`.

pub mod archive_dir;
pub mod archive_laws;
pub mod digest;
pub mod disk_laws;
pub mod download;
pub mod error;
pub mod folding_laws;
pub mod folding_ranges;
pub mod path;
pub mod path_byte_laws;
pub mod path_laws;
pub mod path_text;
pub mod seq_lemmas;
pub mod tar;
pub mod tar_laws;
pub mod view_laws;
pub mod walk;
pub mod walk_laws;
pub mod zip;
pub mod zip_extraction;
pub mod zip_extraction_laws;
pub mod zip_laws;
