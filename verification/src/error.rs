//! The reasons for which an operation is refused.

use vstd::prelude::*;

verus! {

/// Why an operation on a graph or on a tracker was refused. A refused
/// operation leaves the graph or tracker as it was.
#[derive(Debug, Clone, Copy, PartialEq, Eq, Structural)]
pub enum TrackerError {
    /// A state was given for a version that the tracker was not built with.
    UnknownVersion,
    /// The entity has been added before.
    DuplicateEntity,
    /// A node or edge with this key exists already, with other members.
    ConflictingAttributes,
    /// An edge was to be added between keys of which one has no node.
    MissingNode,
}

} // verus!
