//! The node itself: the state machine of [`NodeView`], carried out on real
//! data.

use std::collections::HashSet;
use vstd::prelude::*;
use vstd::std_specs::hash::spec_hash_keys_iter;
use vstd::std_specs::iter::IteratorSpec;
use vstd::string::StringExecFns;

use crate::laws::lemma_step_preserves_wf;
use crate::ledger::PendingMessages;
use crate::message::{
    BroadcastOk, EchoOk, GenerateOk, InitOk, Message, Payload, ReadOk, TopologyOk,
};
use crate::model::{fan_out, recipients, NodeView};
use crate::omit::{lemma_omit_prefix, lemma_omit_push};
use crate::sequence::MessageIdCounter;
use crate::topology::{adjacency, copy_entries, neighbours};
use crate::unique_id::generated_id;

verus! {

broadcast use vstd::std_specs::hash::group_hash_axioms;

/// One participant of the cluster.
#[derive(Debug)]
pub struct Node {
    node_id: String,
    msg_id: MessageIdCounter,
    seen_messages: HashSet<i64>,
    /// The peers of each node: see [`adjacency`].
    topology: Vec<(String, Vec<String>)>,
    pending_messages: PendingMessages,
}

impl View for Node {
    type V = NodeView;

    closed spec fn view(&self) -> NodeView {
        NodeView {
            node_id: self.node_id@,
            sequence: self.msg_id@,
            seen: self.seen_messages@,
            topology: adjacency(self.topology.deep_view()),
            ledger: self.pending_messages@,
        }
    }
}

/// Copies a set of values.
fn copy_values(values: &HashSet<i64>) -> (copy: HashSet<i64>)
    ensures
        copy@ == values@,
{
    let mut copy: HashSet<i64> = HashSet::new();
    for value in remaining: values.iter()
        invariant
            remaining.seq() == spec_hash_keys_iter(values).remaining(),
            forall|v: i64|
                copy@.contains(v) <==> exists|j: int|
                    0 <= j < remaining.index() && *(#[trigger] remaining.seq()[j]) == v,
    {
        copy.insert(*value);
    }
    assert(copy@ =~= values@) by {
        let all = spec_hash_keys_iter(values).remaining();
        assert forall|v: i64| copy@.contains(v) <==> values@.contains(v) by {
            if copy@.contains(v) {
                let j: int = choose|j: int| 0 <= j < all.len() && *(#[trigger] all[j]) == v;
                assert(all.unref()[j] == v);
            }
        }
    }
    copy
}

/// Counts the peers that a value which came from `sender` is passed on to.
fn count_recipients(peers: &Vec<String>, sender: &String) -> (count: usize)
    ensures
        count == recipients(peers.deep_view(), sender@).len(),
{
    let ghost all = peers.deep_view();
    let mut count: usize = 0;
    let mut i: usize = 0;
    while i < peers.len()
        invariant
            i <= peers.len(),
            all == peers.deep_view(),
            count <= i,
            count == recipients(all.take(i as int), sender@).len(),
        decreases peers.len() - i,
    {
        proof {
            lemma_omit_push(all.take(i as int), all[i as int], sender@);
            assert(all.take(i as int).push(all[i as int]) =~= all.take(i + 1));
        }
        if !(peers[i] == *sender) {
            count = count + 1;
        }
        i = i + 1;
    }
    assert(all.take(i as int) =~= all);
    count
}

impl Node {
    /// A node that has processed nothing yet.
    pub fn new() -> (node: Self)
        ensures
            node@ == NodeView::initial(),
            node@.wf(),
    {
        Node {
            node_id: String::from_str("UNKNOWN_NODE"),
            msg_id: MessageIdCounter::new(),
            seen_messages: HashSet::new(),
            topology: Vec::new(),
            pending_messages: PendingMessages::new(),
        }
    }

    /// Whether the ids that the reaction to `message` takes can still be
    /// issued.
    pub fn has_ids_for(&self, message: &Message) -> (enough: bool)
        ensures
            enough == (self@.step(message@).state.sequence <= usize::MAX),
    {
        proof {
            self.msg_id.lemma_last_fits();
        }
        match &message.body {
            Payload::Echo(_) | Payload::Generate(_) | Payload::Read(_) | Payload::Topology(_) => {
                self.msg_id.has_room(1)
            },
            Payload::Broadcast(broadcast) => {
                if self.seen_messages.contains(&broadcast.message) {
                    self.msg_id.has_room(1)
                } else {
                    match neighbours(&self.topology, &self.node_id) {
                        Some(peers) => {
                            let count: usize = count_recipients(peers, &message.src);
                            count < usize::MAX && self.msg_id.has_room(count + 1)
                        },
                        None => self.msg_id.has_room(1),
                    }
                }
            },
            _ => true,
        }
    }

    /// Whether the node awaits a `BroadcastOk` in reply to the message `id`.
    /// One that it does not await it takes in without effect.
    pub fn awaits(&self, id: usize) -> (awaited: bool)
        ensures
            awaited == self@.ledger.correlation.contains_key(id as nat),
    {
        self.pending_messages.awaits_id(id)
    }

    /// Whether the ids that the reaction to a timer tick takes can still be
    /// issued.
    pub fn has_ids_for_retries(&self) -> (enough: bool)
        ensures
            enough == (self@.tick().state.sequence <= usize::MAX),
    {
        self.msg_id.has_room(self.pending_messages.len())
    }

    /// Reacts to `message`: updates the node and returns the messages to
    /// send, in order.
    ///
    /// An `InitOk` violates the protocol, since a node sends no `Init`: there
    /// is no reaction to it, and it must not be passed in.
    pub fn process_message(&mut self, message: &Message) -> (replies: Vec<Message>)
        requires
            message@.body !is InitOk,
            old(self)@.step(message@).state.sequence <= usize::MAX,
        ensures
            final(self)@ == old(self)@.step(message@).state,
            replies.deep_view() == old(self)@.step(message@).replies,
            old(self)@.wf() ==> final(self)@.wf(),
    {
        let ghost before = self@;
        let ghost fresh: nat = before.sequence + 1;
        let mut replies: Vec<Message> = Vec::new();
        match &message.body {
            Payload::Init(init) => {
                self.node_id = init.node_id.clone();
                replies.push(
                    Message {
                        src: self.node_id.clone(),
                        dest: message.src.clone(),
                        body: Payload::InitOk(InitOk { in_reply_to: init.msg_id }),
                    },
                );
            },
            Payload::InitOk(_) => unreached(),
            Payload::Echo(echo) => {
                replies.push(
                    Message {
                        src: self.node_id.clone(),
                        dest: message.src.clone(),
                        body: Payload::EchoOk(
                            EchoOk {
                                msg_id: self.msg_id.next_msg_id(),
                                in_reply_to: echo.msg_id,
                                echo: echo.echo.clone(),
                            },
                        ),
                    },
                );
            },
            Payload::Generate(generate) => {
                let msg_id: usize = self.msg_id.next_msg_id();
                let id = generated_id(&self.node_id, msg_id);
                replies.push(
                    Message {
                        src: self.node_id.clone(),
                        dest: message.src.clone(),
                        body: Payload::GenerateOk(
                            GenerateOk { msg_id, in_reply_to: generate.msg_id, id },
                        ),
                    },
                );
            },
            Payload::Broadcast(broadcast) => {
                let value: i64 = broadcast.message;
                let is_new = self.seen_messages.insert(value);
                replies.push(
                    Message {
                        src: self.node_id.clone(),
                        dest: message.src.clone(),
                        body: Payload::BroadcastOk(
                            BroadcastOk {
                                msg_id: self.msg_id.next_msg_id(),
                                in_reply_to: broadcast.msg_id,
                            },
                        ),
                    },
                );
                let ghost ack = replies.deep_view();
                if is_new {
                    match neighbours(&self.topology, &self.node_id) {
                        Some(peers) => {
                            let ghost all = peers.deep_view();
                            let mut i: usize = 0;
                            while i < peers.len()
                                invariant
                                    i <= peers.len(),
                                    all == peers.deep_view(),
                                    all == before.topology[before.node_id],
                                    fresh + recipients(all, message.src@).len() <= usize::MAX,
                                    self@ == (NodeView {
                                        sequence: fresh + recipients(
                                            all.take(i as int),
                                            message.src@,
                                        ).len(),
                                        seen: before.seen.insert(value),
                                        ledger: before.ledger.register_all(
                                            recipients(all.take(i as int), message.src@),
                                            value,
                                            fresh,
                                        ),
                                        ..before
                                    }),
                                    replies.deep_view() == ack + fan_out(
                                        before.node_id,
                                        recipients(all.take(i as int), message.src@),
                                        value,
                                        fresh,
                                    ),
                                decreases peers.len() - i,
                            {
                                let ghost sent = replies.deep_view();
                                let ghost so_far = recipients(all.take(i as int), message.src@);
                                proof {
                                    lemma_omit_push(
                                        all.take(i as int),
                                        all[i as int],
                                        message.src@,
                                    );
                                    lemma_omit_prefix(all, message.src@, i + 1);
                                    assert(all.take(i as int).push(all[i as int]) =~= all.take(
                                        i + 1,
                                    ));
                                }
                                if !(peers[i] == message.src) {
                                    let envelope = self.pending_messages.broadcast_to_node(
                                        self.node_id.as_str(),
                                        &mut self.msg_id,
                                        peers[i].as_str(),
                                        value,
                                    );
                                    replies.push(envelope);
                                    proof {
                                        let more = so_far.push(all[i as int]);
                                        assert(more.drop_last() =~= so_far);
                                        assert(sent.push(envelope@) =~= ack + fan_out(
                                            before.node_id,
                                            more,
                                            value,
                                            fresh,
                                        ));
                                    }
                                }
                                i = i + 1;
                            }
                            assert(all.take(i as int) =~= all);
                        },
                        None => {},
                    }
                }
            },
            Payload::BroadcastOk(ok) => {
                self.pending_messages.clear_broadcast_ok(ok.in_reply_to);
            },
            Payload::Read(read) => {
                replies.push(
                    Message {
                        src: self.node_id.clone(),
                        dest: message.src.clone(),
                        body: Payload::ReadOk(
                            ReadOk {
                                msg_id: self.msg_id.next_msg_id(),
                                in_reply_to: read.msg_id,
                                messages: copy_values(&self.seen_messages),
                            },
                        ),
                    },
                );
            },
            Payload::Topology(topology) => {
                self.topology = copy_entries(&topology.topology);
                replies.push(
                    Message {
                        src: self.node_id.clone(),
                        dest: message.src.clone(),
                        body: Payload::TopologyOk(
                            TopologyOk {
                                msg_id: self.msg_id.next_msg_id(),
                                in_reply_to: topology.msg_id,
                            },
                        ),
                    },
                );
            },
            Payload::EchoOk(_)
            | Payload::GenerateOk(_)
            | Payload::ReadOk(_)
            | Payload::TopologyOk(_) => {},
        }
        proof {
            if before.wf() {
                lemma_step_preserves_wf(before, message@);
            }
        }
        replies
    }

    /// Reacts to a timer tick: returns one message for each delivery that is
    /// not acknowledged yet, oldest first.
    pub fn pending_broadcasts(&mut self) -> (replies: Vec<Message>)
        requires
            old(self)@.tick().state.sequence <= usize::MAX,
        ensures
            final(self)@ == old(self)@.tick().state,
            replies.deep_view() == old(self)@.tick().replies,
            old(self)@.wf() ==> final(self)@.wf(),
    {
        self.pending_messages.broadcast_messages(self.node_id.as_str(), &mut self.msg_id)
    }
}

} // verus!
