//! Identifier spaces of the diagram and the generator that issues them.
//!
//! Every visually represented thing carries an identifier from one of five
//! spaces: node, input pin, output pin, attribute, link.  The generator
//! issues identifiers monotonically, so within one generator no identifier
//! of a space is ever issued twice.

use vstd::prelude::*;

verus! {

/// Opaque handle to a unit of work in the external pipeline store.
///
/// The engine only compares entities for equality and uses them as keys.
#[derive(Clone, Copy, Debug, PartialEq, Eq, Hash, Structural)]
pub struct Entity(pub u64);

/// Visual identifier of a node.
#[derive(Clone, Copy, Debug, PartialEq, Eq, Hash, Structural)]
pub struct NodeId(pub u64);

/// Visual identifier of a node's input pin.
#[derive(Clone, Copy, Debug, PartialEq, Eq, Hash, Structural)]
pub struct InputPinId(pub u64);

/// Visual identifier of a node's output pin.
#[derive(Clone, Copy, Debug, PartialEq, Eq, Hash, Structural)]
pub struct OutputPinId(pub u64);

/// Visual identifier of a node's attribute widget.
#[derive(Clone, Copy, Debug, PartialEq, Eq, Hash, Structural)]
pub struct AttributeId(pub u64);

/// Visual identifier of a link between two pins.
#[derive(Clone, Copy, Debug, PartialEq, Eq, Hash, Structural)]
pub struct LinkId(pub u64);

/// Spec-level image of an [`IdentifierGenerator`]: the next value of each
/// identifier space.  Every identifier issued so far lies strictly below
/// its space's counter.
pub ghost struct GenView {
    /// The next node identifier.
    pub next_node: nat,
    /// The next input-pin identifier.
    pub next_input_pin: nat,
    /// The next output-pin identifier.
    pub next_output_pin: nat,
    /// The next attribute identifier.
    pub next_attribute: nat,
    /// The next link identifier.
    pub next_link: nat,
}

impl GenView {
    /// True when `n` more node contexts (a node id, both pins, an
    /// attribute) can be allocated without exhausting an identifier space.
    pub open spec fn can_create_nodes(self, n: nat) -> bool {
        &&& self.next_node + n <= u64::MAX
        &&& self.next_input_pin + n <= u64::MAX
        &&& self.next_output_pin + n <= u64::MAX
        &&& self.next_attribute + n <= u64::MAX
    }

    /// True when `n` more link identifiers can be allocated.
    pub open spec fn can_create_links(self, n: nat) -> bool {
        self.next_link + n <= u64::MAX
    }

    /// The generator after one node context was allocated.
    pub open spec fn after_node(self) -> GenView {
        GenView {
            next_node: self.next_node + 1,
            next_input_pin: self.next_input_pin + 1,
            next_output_pin: self.next_output_pin + 1,
            next_attribute: self.next_attribute + 1,
            next_link: self.next_link,
        }
    }

    /// The generator after one link identifier was allocated.
    pub open spec fn after_link(self) -> GenView {
        GenView { next_link: self.next_link + 1, ..self }
    }
}

/// Issues visual identifiers, monotonically per identifier space.
#[derive(Clone, Copy, Debug, PartialEq, Eq, Structural)]
pub struct IdentifierGenerator {
    node_counter: u64,
    input_pin_counter: u64,
    output_pin_counter: u64,
    attribute_counter: u64,
    link_counter: u64,
}

impl View for IdentifierGenerator {
    type V = GenView;

    closed spec fn view(&self) -> GenView {
        GenView {
            next_node: self.node_counter as nat,
            next_input_pin: self.input_pin_counter as nat,
            next_output_pin: self.output_pin_counter as nat,
            next_attribute: self.attribute_counter as nat,
            next_link: self.link_counter as nat,
        }
    }
}

impl IdentifierGenerator {
    /// A fresh generator; no identifier of any space has been issued yet.
    pub fn new() -> (r: Self)
        ensures
            r@ == (GenView {
                next_node: 0,
                next_input_pin: 0,
                next_output_pin: 0,
                next_attribute: 0,
                next_link: 0,
            }),
    {
        IdentifierGenerator {
            node_counter: 0,
            input_pin_counter: 0,
            output_pin_counter: 0,
            attribute_counter: 0,
            link_counter: 0,
        }
    }

    /// Issues the next node identifier.
    pub fn next_node(&mut self) -> (r: NodeId)
        requires
            old(self)@.next_node < u64::MAX,
        ensures
            r.0 == old(self)@.next_node,
            final(self)@ == (GenView { next_node: old(self)@.next_node + 1, ..old(self)@ }),
    {
        let r = NodeId(self.node_counter);
        self.node_counter = self.node_counter + 1;
        r
    }

    /// Issues the next input-pin identifier.
    pub fn next_input_pin(&mut self) -> (r: InputPinId)
        requires
            old(self)@.next_input_pin < u64::MAX,
        ensures
            r.0 == old(self)@.next_input_pin,
            final(self)@ == (GenView {
                next_input_pin: old(self)@.next_input_pin + 1,
                ..old(self)@
            }),
    {
        let r = InputPinId(self.input_pin_counter);
        self.input_pin_counter = self.input_pin_counter + 1;
        r
    }

    /// Issues the next output-pin identifier.
    pub fn next_output_pin(&mut self) -> (r: OutputPinId)
        requires
            old(self)@.next_output_pin < u64::MAX,
        ensures
            r.0 == old(self)@.next_output_pin,
            final(self)@ == (GenView {
                next_output_pin: old(self)@.next_output_pin + 1,
                ..old(self)@
            }),
    {
        let r = OutputPinId(self.output_pin_counter);
        self.output_pin_counter = self.output_pin_counter + 1;
        r
    }

    /// Issues the next attribute identifier.
    pub fn next_attribute(&mut self) -> (r: AttributeId)
        requires
            old(self)@.next_attribute < u64::MAX,
        ensures
            r.0 == old(self)@.next_attribute,
            final(self)@ == (GenView {
                next_attribute: old(self)@.next_attribute + 1,
                ..old(self)@
            }),
    {
        let r = AttributeId(self.attribute_counter);
        self.attribute_counter = self.attribute_counter + 1;
        r
    }

    /// Issues the next link identifier.
    pub fn next_link(&mut self) -> (r: LinkId)
        requires
            old(self)@.next_link < u64::MAX,
        ensures
            r.0 == old(self)@.next_link,
            final(self)@ == (GenView { next_link: old(self)@.next_link + 1, ..old(self)@ }),
    {
        let r = LinkId(self.link_counter);
        self.link_counter = self.link_counter + 1;
        r
    }
}

} // verus!
