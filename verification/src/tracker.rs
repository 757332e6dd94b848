//! The tracker: the persistent record of what has been synchronised.
//!
//! The tracker is a key-value store that the caller keeps. Here is what the
//! library knows of it: where it lives, and how the answers of the storage
//! layer are to be read. A key that is not there is an answer, not a
//! failure.

use vstd::prelude::*;
use vstd::string::StringExecFns;

verus! {

/// The storage layer's code for a key that is not there.
pub const NOTFOUND: i32 = -30798;

/// A failure of the storage layer: an error code of its own, or anything
/// else.
#[derive(Clone, Copy, Debug, PartialEq, Eq)]
pub enum StorageError {
    Code(i32),
    Other,
}

/// Whether a failure says no more than that the key is not there.
pub open spec fn is_absence(e: StorageError) -> bool {
    e == StorageError::Code(NOTFOUND)
}

/// The directory of the tracker, given the repository's metadata directory:
/// `ipgrv` within it.
pub fn database_path(git_dir: &str) -> (path: String)
    ensures
        path@ == git_dir@ + "/ipgrv"@,
{
    let mut path = String::from_str(git_dir);
    path.append("/ipgrv");
    path
}

/// Whether the tracker has an entry, given what the look-up of its key
/// gave: `true` where the key was found, `false` where the storage layer
/// says that it is not there, and the failure in every other case.
pub fn has_entry(found: Result<(), StorageError>) -> (r: Result<bool, StorageError>)
    ensures
        r == match found {
            Ok(()) => Ok::<bool, StorageError>(true),
            Err(e) => if is_absence(e) {
                Ok::<bool, StorageError>(false)
            } else {
                Err::<bool, StorageError>(e)
            },
        },
{
    match found {
        Ok(()) => Ok(true),
        Err(StorageError::Code(code)) => {
            if code == NOTFOUND {
                Ok(false)
            } else {
                Err(StorageError::Code(code))
            }
        },
        Err(StorageError::Other) => Err(StorageError::Other),
    }
}

/// The address that a ref name maps to, given what the look-up of the name
/// gave: the value where the name was found, `None` where the storage layer
/// says that it is not there, and the failure in every other case.
pub fn get_ref(found: Result<String, StorageError>) -> (r: Result<Option<String>, StorageError>)
    ensures
        match found {
            Ok(value) => r == Ok::<Option<String>, StorageError>(Some(value)),
            Err(e) => if is_absence(e) {
                r == Ok::<Option<String>, StorageError>(None)
            } else {
                r == Err::<Option<String>, StorageError>(e)
            },
        },
{
    match found {
        Ok(value) => Ok(Some(value)),
        Err(StorageError::Code(code)) => {
            if code == NOTFOUND {
                Ok(None)
            } else {
                Err(StorageError::Code(code))
            }
        },
        Err(StorageError::Other) => Err(StorageError::Other),
    }
}

} // verus!
