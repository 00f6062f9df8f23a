//! Node interaction: events a rendered node can emit and the commands
//! they dispatch.
//!
//! Drawing itself happens in the rendering adapter outside this crate;
//! the decisions — which control buttons a node offers in which phase,
//! and which domain command a button press dispatches — live here.

use vstd::prelude::*;

use crate::domain::EventPhase;
use crate::ids::Entity;

verus! {

/// Label of a control button on a node.
#[derive(Clone, Copy, Debug, PartialEq, Eq, Structural)]
pub enum ButtonLabel {
    /// Activate the node's event.
    Start,
    /// Pause the node's event.
    Pause,
    /// Resume the node's event.
    Resume,
    /// Cancel the node's event.
    Cancel,
    /// Reset the node's event.
    Reset,
}

/// An event returned by rendering a node.
#[derive(Clone, Copy, Debug, PartialEq, Eq, Structural)]
pub enum NodeEvent {
    /// A button on the node was pressed.  Carries the button's label and
    /// the entity of the node's context.
    ButtonPress {
        /// Label of the pressed button.
        name: ButtonLabel,
        /// Entity the node represents.
        entity: Entity,
    },
}

impl NodeEvent {
    /// Returns a new button press.
    pub fn button_press(name: ButtonLabel, entity: Entity) -> (r: Self)
        ensures
            r == (NodeEvent::ButtonPress { name, entity }),
    {
        NodeEvent::ButtonPress { name, entity }
    }
}

/// A command dispatched to the pipeline store for an entity.
#[derive(Clone, Copy, Debug, PartialEq, Eq, Structural)]
pub enum NodeCommand {
    /// Activate the entity's event.
    Activate(Entity),
    /// Pause the entity's event.
    Pause(Entity),
    /// Resume the entity's event.
    Resume(Entity),
    /// Cancel the entity's event.
    Cancel(Entity),
    /// Reset the entity's event.
    Reset(Entity),
}

/// Node device with a single input and a single output pin, used for
/// setting a cursor on sequences.
///
/// The device is stateless.  Its rendering is done by the adapter
/// outside; the functions here decide what the adapter shows and
/// dispatches.
#[derive(Clone, Copy, Debug, PartialEq, Eq, Structural)]
pub struct SingleIO;

impl SingleIO {
    /// The control buttons a node in `phase` offers, in display order.
    pub open spec fn spec_buttons_for(phase: EventPhase) -> Seq<ButtonLabel> {
        match phase {
            EventPhase::Inactive => seq![ButtonLabel::Start, ButtonLabel::Pause],
            EventPhase::InProgress => seq![ButtonLabel::Cancel, ButtonLabel::Pause],
            EventPhase::Completed => seq![ButtonLabel::Reset],
            EventPhase::Paused => seq![ButtonLabel::Resume, ButtonLabel::Cancel],
            EventPhase::Other => Seq::empty(),
        }
    }

    /// Returns the control buttons a node in `phase` offers.
    pub fn buttons_for(phase: EventPhase) -> (r: Vec<ButtonLabel>)
        ensures
            r@ == Self::spec_buttons_for(phase),
    {
        let mut r: Vec<ButtonLabel> = Vec::new();
        match phase {
            EventPhase::Inactive => {
                r.push(ButtonLabel::Start);
                r.push(ButtonLabel::Pause);
            },
            EventPhase::InProgress => {
                r.push(ButtonLabel::Cancel);
                r.push(ButtonLabel::Pause);
            },
            EventPhase::Completed => {
                r.push(ButtonLabel::Reset);
            },
            EventPhase::Paused => {
                r.push(ButtonLabel::Resume);
                r.push(ButtonLabel::Cancel);
            },
            EventPhase::Other => {},
        }
        proof {
            assert(r@ =~= Self::spec_buttons_for(phase));
        }
        r
    }

    /// The command a node event dispatches.
    pub open spec fn spec_command_for(event: NodeEvent) -> NodeCommand {
        match event {
            NodeEvent::ButtonPress { name, entity } => match name {
                ButtonLabel::Start => NodeCommand::Activate(entity),
                ButtonLabel::Pause => NodeCommand::Pause(entity),
                ButtonLabel::Resume => NodeCommand::Resume(entity),
                ButtonLabel::Cancel => NodeCommand::Cancel(entity),
                ButtonLabel::Reset => NodeCommand::Reset(entity),
            },
        }
    }

    /// Returns the command to dispatch for a node event.
    pub fn command_for(event: &NodeEvent) -> (c: NodeCommand)
        ensures
            c == Self::spec_command_for(*event),
    {
        match *event {
            NodeEvent::ButtonPress { name: ButtonLabel::Start, entity } => NodeCommand::Activate(
                entity,
            ),
            NodeEvent::ButtonPress { name: ButtonLabel::Pause, entity } => NodeCommand::Pause(
                entity,
            ),
            NodeEvent::ButtonPress { name: ButtonLabel::Resume, entity } => NodeCommand::Resume(
                entity,
            ),
            NodeEvent::ButtonPress { name: ButtonLabel::Cancel, entity } => NodeCommand::Cancel(
                entity,
            ),
            NodeEvent::ButtonPress { name: ButtonLabel::Reset, entity } => NodeCommand::Reset(
                entity,
            ),
        }
    }
}

} // verus!
