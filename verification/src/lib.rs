//! A node-diagram synchronization and layout engine.
//!
//! Entities of an external pipeline store are mirrored as visual nodes.
//! The engine assigns each entity a stable set of visual identifiers
//! (node, pins, attribute), discovers connections between already-known
//! entities and memoizes a link identifier per endpoint tuple, and computes
//! a deterministic grid layout from enumeration order and connection order.
//! The rendering toolkit and the entity store themselves stay outside; they
//! exchange plain values with this crate.

pub mod domain;
pub mod ids;
pub mod laws;
pub mod link_context;
pub mod node_context;
pub mod node_device;
pub mod node_editor;
pub mod nodes;

pub use domain::DomainNode;
pub use domain::EventPhase;
pub use domain::NodeStatus;
pub use ids::AttributeId;
pub use ids::Entity;
pub use ids::IdentifierGenerator;
pub use ids::InputPinId;
pub use ids::LinkId;
pub use ids::NodeId;
pub use ids::OutputPinId;
pub use link_context::Link;
pub use link_context::LinkContext;
pub use node_context::NodeContext;
pub use node_device::ButtonLabel;
pub use node_device::NodeCommand;
pub use node_device::NodeEvent;
pub use node_device::SingleIO;
pub use node_editor::NodeEditor;
pub use nodes::Nodes;
