//! Guards against silently clobbering an existing vault on the target machine
//! when importing a new one.

use vstd::prelude::*;

verus! {

#[derive(Debug, Clone, Copy, PartialEq, Eq, Structural)]
pub enum DestinationStatus {
    /// Absent or empty: safe to write into regardless of `--force`.
    Clear,
    /// Non-empty and `--force` was not given: refuse.
    NonEmptyRefused,
    /// Non-empty but `--force` was given: proceed anyway.
    NonEmptyForced,
}

impl DestinationStatus {
    /// Whether the destination may be written into.
    pub fn is_safe(self) -> (r: bool)
        ensures
            r == (self != DestinationStatus::NonEmptyRefused),
    {
        match self {
            DestinationStatus::NonEmptyRefused => false,
            _ => true,
        }
    }
}

/// The status of a destination that `has_entries`, or of which that cannot be
/// told because it cannot be listed (`None`): such a one is clear.
pub open spec fn destination(has_entries: Option<bool>, force: bool) -> DestinationStatus {
    if has_entries != Some(true) {
        DestinationStatus::Clear
    } else if force {
        DestinationStatus::NonEmptyForced
    } else {
        DestinationStatus::NonEmptyRefused
    }
}

/// Whether a destination may be written into, from whether listing it found
/// anything (`None` where it could not be listed).
pub fn check_destination(has_entries: Option<bool>, force: bool) -> (r: DestinationStatus)
    ensures
        r == destination(has_entries, force),
{
    let occupied = match has_entries {
        Some(occupied) => occupied,
        None => false,
    };
    if !occupied {
        DestinationStatus::Clear
    } else if force {
        DestinationStatus::NonEmptyForced
    } else {
        DestinationStatus::NonEmptyRefused
    }
}

/// A destination is refused exactly where something is known to be there and it is
/// not to be overwritten; it is clear exactly where nothing is known to be there.
pub proof fn law_only_an_occupied_destination_is_refused(has_entries: Option<bool>, force: bool)
    ensures
        destination(has_entries, force) == DestinationStatus::NonEmptyRefused <==> has_entries
            == Some(true) && !force,
        destination(has_entries, force) == DestinationStatus::NonEmptyForced <==> has_entries
            == Some(true) && force,
        destination(has_entries, force) == DestinationStatus::Clear <==> (has_entries is None
            || has_entries == Some(false)),
{
    assert(has_entries is Some ==> has_entries->0 || !has_entries->0);
    assert(has_entries is Some && !has_entries->0 ==> has_entries == Some(false));
    assert(has_entries is Some && has_entries->0 ==> has_entries == Some(true));
}

} // verus!
