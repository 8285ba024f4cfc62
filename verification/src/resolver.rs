//! Resolving a path to the mount point that owns it, from what the operating
//! system answered about the path.

use vstd::prelude::*;
use crate::mount::{normalized, MountPoint};
use crate::wide::{from_wide_buf, terminated, utf16_text};

verus! {

/// What the operating system answered about one path: first asked for the
/// path's absolute form, then for the mount point that owns that form.
#[derive(Debug, Clone, PartialEq, Eq)]
pub struct PathAnswer {
    /// What the first query returned: 0 where it failed, the length of the
    /// absolute path where that fits the buffer, and otherwise the capacity
    /// that it would need.
    pub full_len: u32,
    /// The capacity of the buffer that the first query was given, in code
    /// units.
    pub full_capacity: u32,
    /// Whether the second query succeeded. `false` where it was not made.
    pub mount_found: bool,
    /// The buffer into which the second query wrote the mount point.
    pub mount_point: Vec<u16>,
}

/// Why a path has no mount point.
#[derive(Debug, Clone, Copy, PartialEq, Eq, Structural)]
pub enum ResolveError {
    /// The system could not give the path's absolute form.
    NoAbsolutePath,
    /// The absolute form does not fit the buffer.
    PathTooLong,
    /// The system named no mount point for the path.
    NoMountPoint,
    /// The mount point that the system named is not valid UTF-16.
    InvalidUtf16,
}

/// What a return value `len` of the query for the absolute form means, given a
/// buffer of `capacity` code units.
pub open spec fn full_path_outcome(len: u32, capacity: u32) -> Result<(), ResolveError> {
    if len == 0 {
        Err(ResolveError::NoAbsolutePath)
    } else if len >= capacity {
        Err(ResolveError::PathTooLong)
    } else {
        Ok(())
    }
}

/// The mount point that owns the path of `answer`, in normal form, or why it
/// has none.
pub open spec fn mount_point_of(answer: PathAnswer) -> Result<Seq<char>, ResolveError> {
    match full_path_outcome(answer.full_len, answer.full_capacity) {
        Err(error) => Err(error),
        Ok(_) => if !answer.mount_found {
            Err(ResolveError::NoMountPoint)
        } else {
            match utf16_text(terminated(answer.mount_point@)) {
                Some(text) => Ok(normalized(text)),
                None => Err(ResolveError::InvalidUtf16),
            }
        },
    }
}

/// Judges what the query for a path's absolute form returned. The query for
/// the mount point is worth making only where this is `Ok`.
pub fn check_full_path(len: u32, capacity: u32) -> (outcome: Result<(), ResolveError>)
    ensures
        outcome == full_path_outcome(len, capacity),
{
    if len == 0 {
        Err(ResolveError::NoAbsolutePath)
    } else if len >= capacity {
        Err(ResolveError::PathTooLong)
    } else {
        Ok(())
    }
}

/// The mount point that owns the path of `answer`.
pub fn get_volume_mount_point(answer: &PathAnswer) -> (found: Result<MountPoint, ResolveError>)
    ensures
        match found {
            Ok(mount_point) => mount_point_of(*answer) == Ok::<Seq<char>, ResolveError>(mount_point@),
            Err(error) => mount_point_of(*answer) == Err::<Seq<char>, ResolveError>(error),
        },
{
    match check_full_path(answer.full_len, answer.full_capacity) {
        Err(error) => Err(error),
        Ok(_) => if !answer.mount_found {
            Err(ResolveError::NoMountPoint)
        } else {
            match from_wide_buf(answer.mount_point.as_slice()) {
                Ok(text) => Ok(MountPoint::new(text.as_str())),
                Err(_) => Err(ResolveError::InvalidUtf16),
            }
        },
    }
}

} // verus!
