//! A connection between two visual nodes and its link-related state.

use vstd::prelude::*;

use crate::ids::InputPinId;
use crate::ids::LinkId;
use crate::ids::NodeId;
use crate::ids::OutputPinId;

verus! {

/// The endpoint tuple of a rendered connection.
///
/// Two links are the same link exactly when these fields compare equal;
/// the tuple is the deduplication key of the link index.
#[derive(Clone, Copy, Debug, PartialEq, Eq, Hash, Structural)]
pub struct Link {
    /// Node the connection starts from.
    pub start_node: NodeId,
    /// Node the connection ends at.
    pub end_node: NodeId,
    /// Output pin of the start node.
    pub start_pin: OutputPinId,
    /// Input pin of the end node.
    pub end_pin: InputPinId,
    /// Whether the connection was created by snapping a dragged pin.
    pub created_from_snap: bool,
}

/// A connection and all link-related state.
#[derive(Clone, Copy, Debug, PartialEq, Eq, Structural)]
pub struct LinkContext {
    /// The endpoint tuple of the connection.
    pub link: Link,
    /// The visual identifier memoized for the endpoint tuple.
    pub link_id: LinkId,
}

impl LinkContext {
    /// Returns the endpoint tuple of the connection.
    pub fn link(&self) -> (r: Link)
        ensures
            r == self.link,
    {
        self.link
    }

    /// Returns the visual identifier of the connection.
    pub fn link_id(&self) -> (r: LinkId)
        ensures
            r == self.link_id,
    {
        self.link_id
    }
}

} // verus!
