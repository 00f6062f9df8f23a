//! Per-entity record of visual identifiers and layout coordinates.

use vstd::prelude::*;

use crate::ids::AttributeId;
use crate::ids::Entity;
use crate::ids::IdentifierGenerator;
use crate::ids::InputPinId;
use crate::ids::NodeId;
use crate::ids::OutputPinId;
use crate::link_context::Link;

verus! {

/// The node state of one visually represented entity.
///
/// The identifiers are allocated once, when the entity is first shown, and
/// never change afterwards; only the layout coordinates `row` and `col`
/// are recomputed by later scans.
#[derive(Clone, Copy, Debug, PartialEq, Eq, Structural)]
pub struct NodeContext {
    /// The entity this record belongs to.
    pub entity: Entity,
    /// Visual identifier of the node.
    pub node_id: NodeId,
    /// Visual identifier of the node's input pin.
    pub input_pin_id: InputPinId,
    /// Visual identifier of the node's output pin.
    pub output_pin_id: OutputPinId,
    /// Visual identifier of the node's attribute widget.
    pub attribute_id: AttributeId,
    /// Layout row: ordinal of the connection that leaves this node.
    pub row: usize,
    /// Layout column: position of the entity in the enumeration order.
    pub col: usize,
}

impl NodeContext {
    /// Returns a new node context for `entity`, with identifiers freshly
    /// allocated from `idgen` and layout coordinates at the origin.
    pub fn new(entity: Entity, idgen: &mut IdentifierGenerator) -> (r: Self)
        requires
            old(idgen)@.can_create_nodes(1),
        ensures
            r == NodeContext::fresh(entity, old(idgen)@),
            final(idgen)@ == old(idgen)@.after_node(),
    {
        NodeContext {
            entity,
            node_id: idgen.next_node(),
            input_pin_id: idgen.next_input_pin(),
            output_pin_id: idgen.next_output_pin(),
            attribute_id: idgen.next_attribute(),
            row: 0,
            col: 0,
        }
    }

    /// Returns the node id for this context.
    pub fn node_id(&self) -> (r: NodeId)
        ensures
            r == self.node_id,
    {
        self.node_id
    }

    /// Returns the input pin id for this context.
    pub fn input_pin_id(&self) -> (r: InputPinId)
        ensures
            r == self.input_pin_id,
    {
        self.input_pin_id
    }

    /// Returns the output pin id for this context.
    pub fn output_pin_id(&self) -> (r: OutputPinId)
        ensures
            r == self.output_pin_id,
    {
        self.output_pin_id
    }

    /// Returns the attribute id for this context.
    pub fn attribute_id(&self) -> (r: AttributeId)
        ensures
            r == self.attribute_id,
    {
        self.attribute_id
    }

    /// Returns the endpoint tuple of a connection from this node's output
    /// pin to `other`'s input pin.
    pub fn link(&self, other: &NodeContext, created_from_snap: bool) -> (r: Link)
        ensures
            r == self.spec_link(*other, created_from_snap),
    {
        Link {
            start_node: self.node_id,
            end_node: other.node_id,
            start_pin: self.output_pin_id,
            end_pin: other.input_pin_id,
            created_from_snap,
        }
    }

    /// The context a generator in state `gen` allocates for `entity`: the
    /// next identifier of each space, and layout coordinates at the
    /// origin.
    pub open spec fn fresh(entity: Entity, gen: crate::ids::GenView) -> NodeContext {
        NodeContext {
            entity,
            node_id: NodeId(gen.next_node as u64),
            input_pin_id: InputPinId(gen.next_input_pin as u64),
            output_pin_id: OutputPinId(gen.next_output_pin as u64),
            attribute_id: AttributeId(gen.next_attribute as u64),
            row: 0,
            col: 0,
        }
    }

    /// The endpoint tuple of a connection from `self` to `other`.
    pub open spec fn spec_link(self, other: NodeContext, created_from_snap: bool) -> Link {
        Link {
            start_node: self.node_id,
            end_node: other.node_id,
            start_pin: self.output_pin_id,
            end_pin: other.input_pin_id,
            created_from_snap,
        }
    }
}

} // verus!
