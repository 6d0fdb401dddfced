//! The messages that a node exchanges with clients and with its peers, and
//! their mathematical views.

use std::collections::HashSet;
use vstd::prelude::*;

use crate::topology::adjacency;

verus! {

/// A routed message.
#[derive(Debug, PartialEq, Eq)]
pub struct Message {
    /// The node this message came from.
    pub src: String,
    /// The node this message is for.
    pub dest: String,
    /// The payload of the message.
    pub body: Payload,
}

/// What a message carries: one variant per kind of message.
#[derive(Debug, PartialEq, Eq)]
pub enum Payload {
    Init(Init),
    InitOk(InitOk),
    Echo(Echo),
    EchoOk(EchoOk),
    Generate(Generate),
    GenerateOk(GenerateOk),
    Broadcast(Broadcast),
    BroadcastOk(BroadcastOk),
    Read(Read),
    ReadOk(ReadOk),
    Topology(Topology),
    TopologyOk(TopologyOk),
}

/// Tells a node its own id and the ids of all nodes of the cluster.
#[derive(Debug, PartialEq, Eq)]
pub struct Init {
    pub msg_id: usize,
    pub node_id: String,
    pub node_ids: Vec<String>,
}

/// Answers an [`Init`].
#[derive(Debug, PartialEq, Eq)]
pub struct InitOk {
    pub in_reply_to: usize,
}

/// Asks for `echo` to be sent back.
#[derive(Debug, PartialEq, Eq)]
pub struct Echo {
    pub msg_id: usize,
    pub echo: String,
}

/// Answers an [`Echo`] with the text it carried.
#[derive(Debug, PartialEq, Eq)]
pub struct EchoOk {
    pub msg_id: usize,
    pub in_reply_to: usize,
    pub echo: String,
}

/// Asks for an identifier that is unique in the whole cluster.
#[derive(Debug, PartialEq, Eq)]
pub struct Generate {
    pub msg_id: usize,
}

/// Answers a [`Generate`] with a fresh identifier.
#[derive(Debug, PartialEq, Eq)]
pub struct GenerateOk {
    pub msg_id: usize,
    pub in_reply_to: usize,
    pub id: String,
}

/// Hands the value `message` to a node, to be passed on to its neighbours.
#[derive(Debug, PartialEq, Eq)]
pub struct Broadcast {
    pub msg_id: usize,
    pub message: i64,
}

/// Acknowledges a [`Broadcast`].
#[derive(Debug, PartialEq, Eq)]
pub struct BroadcastOk {
    pub msg_id: usize,
    pub in_reply_to: usize,
}

/// Asks for the values that a node has seen.
#[derive(Debug, PartialEq, Eq)]
pub struct Read {
    pub msg_id: usize,
}

/// Answers a [`Read`] with the set of values seen so far.
#[derive(Debug, PartialEq, Eq)]
pub struct ReadOk {
    pub msg_id: usize,
    pub in_reply_to: usize,
    pub messages: HashSet<i64>,
}

/// Tells a node who the neighbours of each node are.
///
/// `topology` lists `(node, peers)` entries and stands for the map that
/// [`adjacency`] gives: of two entries for one node the later one counts.
#[derive(Debug, PartialEq, Eq)]
pub struct Topology {
    pub msg_id: usize,
    pub topology: Vec<(String, Vec<String>)>,
}

/// Answers a [`Topology`].
#[derive(Debug, PartialEq, Eq)]
pub struct TopologyOk {
    pub msg_id: usize,
    pub in_reply_to: usize,
}

/// The mathematical content of a [`Payload`], and of each kind of message
/// by itself.
pub enum PayloadView {
    Init { msg_id: nat, node_id: Seq<char>, node_ids: Seq<Seq<char>> },
    InitOk { in_reply_to: nat },
    Echo { msg_id: nat, echo: Seq<char> },
    EchoOk { msg_id: nat, in_reply_to: nat, echo: Seq<char> },
    Generate { msg_id: nat },
    GenerateOk { msg_id: nat, in_reply_to: nat, id: Seq<char> },
    Broadcast { msg_id: nat, message: i64 },
    BroadcastOk { msg_id: nat, in_reply_to: nat },
    Read { msg_id: nat },
    ReadOk { msg_id: nat, in_reply_to: nat, messages: Set<i64> },
    Topology { msg_id: nat, topology: Map<Seq<char>, Seq<Seq<char>>> },
    TopologyOk { msg_id: nat, in_reply_to: nat },
}

/// The mathematical content of a [`Message`].
pub struct MessageView {
    pub src: Seq<char>,
    pub dest: Seq<char>,
    pub body: PayloadView,
}

impl PayloadView {
    /// The id that the sender gave this message, if its kind carries one.
    pub open spec fn msg_id(self) -> Option<nat> {
        match self {
            PayloadView::Init { msg_id, .. } => Some(msg_id),
            PayloadView::InitOk { .. } => None,
            PayloadView::Echo { msg_id, .. } => Some(msg_id),
            PayloadView::EchoOk { msg_id, .. } => Some(msg_id),
            PayloadView::Generate { msg_id } => Some(msg_id),
            PayloadView::GenerateOk { msg_id, .. } => Some(msg_id),
            PayloadView::Broadcast { msg_id, .. } => Some(msg_id),
            PayloadView::BroadcastOk { msg_id, .. } => Some(msg_id),
            PayloadView::Read { msg_id } => Some(msg_id),
            PayloadView::ReadOk { msg_id, .. } => Some(msg_id),
            PayloadView::Topology { msg_id, .. } => Some(msg_id),
            PayloadView::TopologyOk { msg_id, .. } => Some(msg_id),
        }
    }
}

impl View for Init {
    type V = PayloadView;

    open spec fn view(&self) -> PayloadView {
        PayloadView::Init {
            msg_id: self.msg_id as nat,
            node_id: self.node_id@,
            node_ids: self.node_ids.deep_view(),
        }
    }
}

impl View for InitOk {
    type V = PayloadView;

    open spec fn view(&self) -> PayloadView {
        PayloadView::InitOk { in_reply_to: self.in_reply_to as nat }
    }
}

impl View for Echo {
    type V = PayloadView;

    open spec fn view(&self) -> PayloadView {
        PayloadView::Echo { msg_id: self.msg_id as nat, echo: self.echo@ }
    }
}

impl View for EchoOk {
    type V = PayloadView;

    open spec fn view(&self) -> PayloadView {
        PayloadView::EchoOk {
            msg_id: self.msg_id as nat,
            in_reply_to: self.in_reply_to as nat,
            echo: self.echo@,
        }
    }
}

impl View for Generate {
    type V = PayloadView;

    open spec fn view(&self) -> PayloadView {
        PayloadView::Generate { msg_id: self.msg_id as nat }
    }
}

impl View for GenerateOk {
    type V = PayloadView;

    open spec fn view(&self) -> PayloadView {
        PayloadView::GenerateOk {
            msg_id: self.msg_id as nat,
            in_reply_to: self.in_reply_to as nat,
            id: self.id@,
        }
    }
}

impl View for Broadcast {
    type V = PayloadView;

    open spec fn view(&self) -> PayloadView {
        PayloadView::Broadcast { msg_id: self.msg_id as nat, message: self.message }
    }
}

impl View for BroadcastOk {
    type V = PayloadView;

    open spec fn view(&self) -> PayloadView {
        PayloadView::BroadcastOk {
            msg_id: self.msg_id as nat,
            in_reply_to: self.in_reply_to as nat,
        }
    }
}

impl View for Read {
    type V = PayloadView;

    open spec fn view(&self) -> PayloadView {
        PayloadView::Read { msg_id: self.msg_id as nat }
    }
}

impl View for ReadOk {
    type V = PayloadView;

    open spec fn view(&self) -> PayloadView {
        PayloadView::ReadOk {
            msg_id: self.msg_id as nat,
            in_reply_to: self.in_reply_to as nat,
            messages: self.messages@,
        }
    }
}

impl View for Topology {
    type V = PayloadView;

    open spec fn view(&self) -> PayloadView {
        PayloadView::Topology {
            msg_id: self.msg_id as nat,
            topology: adjacency(self.topology.deep_view()),
        }
    }
}

impl View for TopologyOk {
    type V = PayloadView;

    open spec fn view(&self) -> PayloadView {
        PayloadView::TopologyOk {
            msg_id: self.msg_id as nat,
            in_reply_to: self.in_reply_to as nat,
        }
    }
}

impl View for Payload {
    type V = PayloadView;

    open spec fn view(&self) -> PayloadView {
        match *self {
            Payload::Init(init) => init@,
            Payload::InitOk(ok) => ok@,
            Payload::Echo(echo) => echo@,
            Payload::EchoOk(ok) => ok@,
            Payload::Generate(generate) => generate@,
            Payload::GenerateOk(ok) => ok@,
            Payload::Broadcast(broadcast) => broadcast@,
            Payload::BroadcastOk(ok) => ok@,
            Payload::Read(read) => read@,
            Payload::ReadOk(ok) => ok@,
            Payload::Topology(topology) => topology@,
            Payload::TopologyOk(ok) => ok@,
        }
    }
}

impl View for Message {
    type V = MessageView;

    open spec fn view(&self) -> MessageView {
        MessageView { src: self.src@, dest: self.dest@, body: self.body@ }
    }
}

impl DeepView for Message {
    type V = MessageView;

    open spec fn deep_view(&self) -> MessageView {
        self@
    }
}

} // verus!
