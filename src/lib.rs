//! Copies media files from a portable device into a date and album
//! structured directory tree.
//!
//! The library holds the decisions of a copy run: which files take part and
//! in what order, where each one goes, whether an existing copy is kept, and
//! how the run's counts, progress and error policy evolve. The device and the
//! file system are driven by the caller, which hands the library plain values.
pub mod text;
pub mod file_type;
pub mod mtp_file;
pub mod paths;
pub mod transfer;
pub mod run;
pub mod walk;
pub mod device;
pub mod args;
