//! The errors with which the vault answers a request.

use vstd::prelude::*;

verus! {

/// Why a request fails: one of the vault's own reasons, or an error of the
/// backing filesystem, by its number.
#[derive(Debug, Clone, Copy, PartialEq, Eq, Structural)]
pub enum Errno {
    /// There is no such file.
    ENOENT,
    /// Access is denied.
    EACCES,
    /// The handle is not open.
    EBADF,
    /// The path cannot be handed to the system.
    EINVAL,
    /// What the backing filesystem answered.
    Os(i32),
}

} // verus!
