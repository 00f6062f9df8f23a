//! Plain-value snapshot of the external pipeline store.
//!
//! The store itself stays outside the engine; each refresh cycle hands the
//! scanner one `DomainNode` per pipeline node, in the store's enumeration
//! order.  That order defines the layout column of newly discovered nodes.

use vstd::prelude::*;

use crate::ids::Entity;

verus! {

/// Execution phase of a pipeline node's event, as far as the diagram
/// distinguishes it.  The phase decides which control buttons a node
/// offers.
#[derive(Clone, Copy, Debug, PartialEq, Eq, Structural)]
pub enum EventPhase {
    /// The event has not started.
    Inactive,
    /// The event is running.
    InProgress,
    /// The event has finished.
    Completed,
    /// The event was paused.
    Paused,
    /// Any other phase; such a node offers no controls.
    Other,
}

/// Status of a pipeline node.  Only nodes with an event status are
/// candidates for visual representation.
#[derive(Clone, Copy, Debug, PartialEq, Eq, Structural)]
pub enum NodeStatus {
    /// The node carries an event in the given phase.
    Event(EventPhase),
    /// The node carries no event and is never represented.
    Other,
}

/// One pipeline node as the external store reports it for a scan cycle.
#[derive(Debug)]
pub struct DomainNode {
    /// Handle of the node's entity in the store.
    pub entity: Entity,
    /// The node's status.
    pub status: NodeStatus,
    /// Whether the node is ad-hoc (transient, never represented).
    pub is_adhoc: bool,
    /// Whether the node was spawned at run time (never represented).
    pub is_spawned: bool,
    /// The (from, to) entity pairs this node's connection data fans out
    /// to, in the connection's own order.  Empty when the node carries no
    /// connection data.
    pub connections: Vec<(Entity, Entity)>,
}

/// Spec-level image of a [`DomainNode`].
pub ghost struct DomainNodeView {
    /// Handle of the node's entity in the store.
    pub entity: Entity,
    /// The node's status.
    pub status: NodeStatus,
    /// Whether the node is ad-hoc.
    pub is_adhoc: bool,
    /// Whether the node was spawned at run time.
    pub is_spawned: bool,
    /// The (from, to) entity pairs of the node's connection data.
    pub connections: Seq<(Entity, Entity)>,
}

impl View for DomainNode {
    type V = DomainNodeView;

    open spec fn view(&self) -> DomainNodeView {
        DomainNodeView {
            entity: self.entity,
            status: self.status,
            is_adhoc: self.is_adhoc,
            is_spawned: self.is_spawned,
            connections: self.connections@,
        }
    }
}

impl DomainNodeView {
    /// True when the node is eligible for visual representation: it has an
    /// event status and is neither ad-hoc nor spawned.
    pub open spec fn eligible(self) -> bool {
        &&& self.status is Event
        &&& !self.is_adhoc
        &&& !self.is_spawned
    }
}

impl DomainNode {
    /// Returns whether this node is eligible for visual representation.
    pub fn eligible(&self) -> (r: bool)
        ensures
            r == self@.eligible(),
    {
        match self.status {
            NodeStatus::Event(_) => !self.is_adhoc && !self.is_spawned,
            NodeStatus::Other => false,
        }
    }
}

} // verus!
