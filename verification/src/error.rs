use vstd::prelude::*;

verus! {

/// Why a payload was not taken, or why a collection could not be reconciled
/// with the catalog.
#[derive(Debug, Clone, Copy, PartialEq, Eq, Structural)]
pub enum LogError {
    /// The payload is no record of the kind that was asked for.
    BadPayload,
    /// The arena mapping names a catalog id under which the catalog holds no
    /// card.
    UnknownCatalogId { arena_id: u64 },
    /// The catalog holds no card under the name that the arena mapping
    /// expects.
    UnknownName { arena_id: u64 },
    /// The card found for `arena_id` is bound to the arena id `bound_to`.
    ArenaIdConflict { arena_id: u64, bound_to: u64 },
}

impl LogError {
    /// A few words on the kind of error.
    pub fn description(&self) -> (words: &'static str)
        ensures
            words@ == match *self {
                LogError::BadPayload => "bad payload"@,
                LogError::UnknownCatalogId { .. } => "unknown catalog id"@,
                LogError::UnknownName { .. } => "unknown card name"@,
                LogError::ArenaIdConflict { .. } => "arena id conflict"@,
            },
    {
        match self {
            LogError::BadPayload => "bad payload",
            LogError::UnknownCatalogId { .. } => "unknown catalog id",
            LogError::UnknownName { .. } => "unknown card name",
            LogError::ArenaIdConflict { .. } => "arena id conflict",
        }
    }
}

} // verus!
