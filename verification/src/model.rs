//! The node as a state machine: its state, the events it reacts to, and its
//! reaction to each.

use vstd::prelude::*;

use crate::ledger::{broadcast_view, retries, LedgerView};
use crate::message::{MessageView, PayloadView};
use crate::omit::omit;
use crate::unique_id::unique_id;

verus! {

/// The mathematical content of a node's state.
pub struct NodeView {
    /// The node's own id.
    pub node_id: Seq<char>,
    /// The message id that the node issued last, `0` before the first.
    pub sequence: nat,
    /// The broadcast values that the node has seen.
    pub seen: Set<i64>,
    /// The peers of each node.
    pub topology: Map<Seq<char>, Seq<Seq<char>>>,
    /// The deliveries that are not acknowledged yet.
    pub ledger: LedgerView,
}

/// What a node does in reaction to one event: the state it moves to, and the
/// messages it sends, in the order in which it sends them.
pub struct Outcome {
    /// The state of the node after the event.
    pub state: NodeView,
    /// The messages that the node sends in reaction to the event.
    pub replies: Seq<MessageView>,
}

/// What a node reacts to.
pub enum Event {
    /// A message has arrived.
    Message(MessageView),
    /// The retry timer has fired.
    Tick,
}

/// The peers that a value which came from `sender` is passed on to: all of
/// `peers` but `sender`, in their order.
pub open spec fn recipients(peers: Seq<Seq<char>>, sender: Seq<char>) -> Seq<Seq<char>> {
    omit(peers, sender)
}

/// The messages that hand `value` from `src` to each of `targets`, in order,
/// under the ids that follow `after`.
pub open spec fn fan_out(src: Seq<char>, targets: Seq<Seq<char>>, value: i64, after: nat) -> Seq<
    MessageView,
> {
    Seq::new(
        targets.len(),
        |i: int| broadcast_view(src, targets[i], value, (after + 1 + i) as nat),
    )
}

impl NodeView {
    /// The state of a node that has processed nothing yet.
    pub open spec fn initial() -> Self {
        NodeView {
            node_id: "UNKNOWN_NODE"@,
            sequence: 0,
            seen: Set::empty(),
            topology: Map::empty(),
            ledger: LedgerView::empty(),
        }
    }

    /// The invariant of every state that a node reaches: the ledger is well
    /// formed, every awaited id was issued by this node, and only values
    /// that the node has seen await delivery.
    pub open spec fn wf(self) -> bool {
        &&& self.ledger.wf()
        &&& self.ledger.issued_by(self.sequence)
        &&& forall|i: int|
            0 <= i < self.ledger.pending.len() ==> self.seen.contains(
                (#[trigger] self.ledger.pending[i]).1,
            )
    }

    /// A message from this node to `dest`.
    pub open spec fn reply(self, dest: Seq<char>, body: PayloadView) -> MessageView {
        MessageView { src: self.node_id, dest, body }
    }

    /// The peers to which this node passes on `value` when `sender` hands it
    /// over: none if the node has seen the value before or knows no peers of
    /// its own, else its peers other than `sender`.
    pub open spec fn targets(self, sender: Seq<char>, value: i64) -> Seq<Seq<char>> {
        if self.seen.contains(value) || !self.topology.contains_key(self.node_id) {
            Seq::empty()
        } else {
            recipients(self.topology[self.node_id], sender)
        }
    }

    /// The node's reaction to `message`.
    ///
    /// Answers that the node never asked for are taken in without effect. An
    /// `InitOk` among them violates the protocol, since a node sends no
    /// `Init`: the executable node does not admit it.
    ///
    /// An `Init` names the node, a second one renames it.
    pub open spec fn step(self, message: MessageView) -> Outcome {
        let fresh: nat = self.sequence + 1;
        match message.body {
            PayloadView::Init { msg_id, node_id, node_ids } => {
                let state = NodeView { node_id, ..self };
                Outcome {
                    state,
                    replies: seq![
                        state.reply(message.src, PayloadView::InitOk { in_reply_to: msg_id }),
                    ],
                }
            },
            PayloadView::Echo { msg_id, echo } => Outcome {
                state: NodeView { sequence: fresh, ..self },
                replies: seq![
                    self.reply(
                        message.src,
                        PayloadView::EchoOk { msg_id: fresh, in_reply_to: msg_id, echo },
                    ),
                ],
            },
            PayloadView::Generate { msg_id } => Outcome {
                state: NodeView { sequence: fresh, ..self },
                replies: seq![
                    self.reply(
                        message.src,
                        PayloadView::GenerateOk {
                            msg_id: fresh,
                            in_reply_to: msg_id,
                            id: unique_id(self.node_id, fresh),
                        },
                    ),
                ],
            },
            PayloadView::Broadcast { msg_id, message: value } => {
                let targets = self.targets(message.src, value);
                Outcome {
                    state: NodeView {
                        sequence: fresh + targets.len(),
                        seen: self.seen.insert(value),
                        ledger: self.ledger.register_all(targets, value, fresh),
                        ..self
                    },
                    replies: seq![
                        self.reply(
                            message.src,
                            PayloadView::BroadcastOk { msg_id: fresh, in_reply_to: msg_id },
                        ),
                    ] + fan_out(self.node_id, targets, value, fresh),
                }
            },
            PayloadView::BroadcastOk { msg_id, in_reply_to } => Outcome {
                state: NodeView { ledger: self.ledger.acknowledge(in_reply_to), ..self },
                replies: Seq::empty(),
            },
            PayloadView::Read { msg_id } => Outcome {
                state: NodeView { sequence: fresh, ..self },
                replies: seq![
                    self.reply(
                        message.src,
                        PayloadView::ReadOk {
                            msg_id: fresh,
                            in_reply_to: msg_id,
                            messages: self.seen,
                        },
                    ),
                ],
            },
            PayloadView::Topology { msg_id, topology } => Outcome {
                state: NodeView { sequence: fresh, topology, ..self },
                replies: seq![
                    self.reply(
                        message.src,
                        PayloadView::TopologyOk { msg_id: fresh, in_reply_to: msg_id },
                    ),
                ],
            },
            PayloadView::InitOk { .. }
            | PayloadView::EchoOk { .. }
            | PayloadView::GenerateOk { .. }
            | PayloadView::ReadOk { .. }
            | PayloadView::TopologyOk { .. } => Outcome { state: self, replies: Seq::empty() },
        }
    }

    /// The node's reaction to a timer tick: every delivery that is not
    /// acknowledged yet is sent again.
    pub open spec fn tick(self) -> Outcome {
        Outcome {
            state: NodeView {
                sequence: self.sequence + self.ledger.pending.len(),
                ledger: self.ledger.flush(self.sequence),
                ..self
            },
            replies: retries(self.ledger.pending, self.node_id, self.sequence),
        }
    }

    /// The node's reaction to `event`.
    pub open spec fn react(self, event: Event) -> Outcome {
        match event {
            Event::Message(message) => self.step(message),
            Event::Tick => self.tick(),
        }
    }

    /// The state that the node reaches from this one by reacting to `events`
    /// in turn.
    pub open spec fn run(self, events: Seq<Event>) -> NodeView
        decreases events.len(),
    {
        if events.len() == 0 {
            self
        } else {
            self.run(events.drop_last()).react(events.last()).state
        }
    }

    /// All messages that the node sends while it reacts to `events` in turn,
    /// in the order in which it sends them.
    pub open spec fn transcript(self, events: Seq<Event>) -> Seq<MessageView>
        decreases events.len(),
    {
        if events.len() == 0 {
            Seq::empty()
        } else {
            self.transcript(events.drop_last()) + self.run(events.drop_last()).react(
                events.last(),
            ).replies
        }
    }
}

} // verus!
