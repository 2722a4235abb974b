use vstd::prelude::*;

verus! {

/// What to do with one file, given what stands at its destination.
#[derive(Debug, Clone, Copy, PartialEq, Eq, Structural)]
pub enum TransferAction {
    /// A file of the same size is already there: leave it untouched.
    Skip,
    /// Nothing is there, or a file of another size: copy the whole file anew.
    Copy,
}

/// Decides a file's transfer. `existing_size` is the size of the file found
/// at the destination, or `None` where there is none. An equal size is taken
/// as proof of an earlier complete copy.
pub fn decide_transfer(file_size: u64, existing_size: Option<u64>) -> (r: TransferAction)
    ensures
        r == TransferAction::Skip <==> existing_size == Some(file_size),
        r == TransferAction::Copy <==> existing_size != Some(file_size),
{
    match existing_size {
        Some(s) => {
            if s == file_size {
                TransferAction::Skip
            } else {
                TransferAction::Copy
            }
        },
        None => TransferAction::Copy,
    }
}

} // verus!
