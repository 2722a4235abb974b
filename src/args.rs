use vstd::prelude::*;
use crate::paths::RefDate;

verus! {

/// What to list: a device, the first one where none is named, and a path on
/// it, the device root where none is given.
#[derive(Debug)]
pub struct ShowContentArgs {
    pub device: Option<String>,
    pub path: Option<String>,
}

/// What to copy, and where.
#[derive(Debug)]
pub struct CopyArgs {
    /// The device to copy from, the first one where none is named.
    pub device: Option<String>,
    /// The path on the device that is copied from, with everything under it;
    /// the device root where none is given.
    pub source_path: Option<String>,
    /// The date of the album, today where none is given.
    pub date: Option<RefDate>,
    /// The directory under which the files are laid out.
    pub target_path: String,
    /// The name added to the date in the album directory.
    pub album_name: Option<String>,
    /// Whether a failed file is tallied and the run goes on, rather than
    /// ending the run.
    pub keep_going: bool,
}

} // verus!
