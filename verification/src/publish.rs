//! The remote publisher's decision: whether an archive is uploaded, and
//! from where to where.

use crate::paths::{archive_path, archive_path_of, remote_path, remote_path_of};
use vstd::prelude::*;

verus! {

/// One upload: the archive on disk and its place on the remote side.
#[derive(Debug, Clone, PartialEq, Eq)]
pub struct Transfer {
    pub local_path: String,
    pub remote_path: String,
}

/// Decides the publishing step for the archive of a directory key. With
/// publishing disabled there is nothing to do; with it enabled the archive
/// goes from its place in the working directory to the place of the same
/// name below the remote directory.
pub fn plan_publish(enabled: bool, directory_key: &str) -> (step: Option<Transfer>)
    ensures
        step.is_some() == enabled,
        match step {
            Some(transfer) => {
                &&& transfer.local_path@ == archive_path_of(directory_key@)
                &&& transfer.remote_path@ == remote_path_of(directory_key@)
            },
            None => true,
        },
{
    if enabled {
        Some(
            Transfer {
                local_path: archive_path(directory_key),
                remote_path: remote_path(directory_key),
            },
        )
    } else {
        None
    }
}

} // verus!
