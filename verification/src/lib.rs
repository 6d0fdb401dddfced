//! A single node of a simulated cluster: it answers echo, unique-id, read and
//! topology requests, and gossips broadcast values to its neighbours with
//! acknowledged, retried delivery.
//!
//! - [`message`]: the messages, and what each of them says;
//! - [`model`]: the node as a state machine, from state and event to next
//!   state and messages to send;
//! - [`node`]: the node itself, which carries that state machine out;
//! - [`ledger`]: the deliveries that await an acknowledgment;
//! - [`sequence`], [`unique_id`], [`topology`], [`omit`]: what the node is
//!   built from;
//! - [`laws`]: what holds of every run of a node.
//!
//! The node does no input or output. Its caller hands it one message or one
//! timer tick at a time and sends what it returns.

pub mod laws;
pub mod ledger;
pub mod message;
pub mod model;
pub mod node;
pub mod omit;
pub mod sequence;
pub mod topology;
pub mod unique_id;

pub use ledger::{LedgerView, PendingMessages};
pub use message::{
    Broadcast, BroadcastOk, Echo, EchoOk, Generate, GenerateOk, Init, InitOk, Message,
    MessageView, Payload, PayloadView, Read, ReadOk, Topology, TopologyOk,
};
pub use model::{Event, NodeView, Outcome};
pub use node::Node;
pub use sequence::MessageIdCounter;
