//! What holds of a node in every state it reaches, whatever it receives.

use vstd::prelude::*;

use crate::ledger::broadcast_view;
use crate::message::{MessageView, PayloadView};
use crate::model::{recipients, Event, NodeView};
use crate::omit::lemma_omit;
use crate::unique_id::{lemma_unique_id_injective, unique_id};

verus! {

/// Whether the ids that `messages` carry lie above `low`, do not exceed
/// `high`, and ascend: each exceeds every id that an earlier message carries.
pub open spec fn ids_ascend_within(messages: Seq<MessageView>, low: nat, high: nat) -> bool {
    &&& forall|i: int|
        0 <= i < messages.len() && (#[trigger] messages[i]).body.msg_id() is Some ==> low
            < messages[i].body.msg_id()->0 <= high
    &&& forall|i: int, j: int|
        0 <= i < j < messages.len() && (#[trigger] messages[i]).body.msg_id() is Some && (
        #[trigger] messages[j]).body.msg_id() is Some ==> messages[i].body.msg_id()->0
            < messages[j].body.msg_id()->0
}

/// A node that has processed nothing is well formed.
pub proof fn lemma_initial_wf()
    ensures
        NodeView::initial().wf(),
{
}

/// Whatever message a well-formed node reacts to, it stays well formed.
pub proof fn lemma_step_preserves_wf(state: NodeView, message: MessageView)
    requires
        state.wf(),
    ensures
        state.step(message).state.wf(),
{
    match message.body {
        PayloadView::Broadcast { msg_id, message: value } => {
            let targets = state.targets(message.src, value);
            state.ledger.lemma_register_all(targets, value, state.sequence + 1);
        },
        PayloadView::BroadcastOk { msg_id, in_reply_to } => {
            state.ledger.lemma_acknowledge(in_reply_to);
        },
        _ => {},
    }
}

/// A timer tick leaves a well-formed node well formed.
pub proof fn lemma_tick_preserves_wf(state: NodeView)
    requires
        state.wf(),
    ensures
        state.tick().state.wf(),
{
    state.ledger.lemma_flush(state.sequence);
}

/// Every state that a node reaches from a well-formed one is well formed;
/// with [`lemma_initial_wf`], so is every state that a node reaches at all.
pub proof fn lemma_run_preserves_wf(state: NodeView, events: Seq<Event>)
    requires
        state.wf(),
    ensures
        state.run(events).wf(),
    decreases events.len(),
{
    if events.len() > 0 {
        lemma_run_preserves_wf(state, events.drop_last());
        let before = state.run(events.drop_last());
        match events.last() {
            Event::Message(message) => lemma_step_preserves_wf(before, message),
            Event::Tick => lemma_tick_preserves_wf(before),
        }
    }
}

/// The ids that a node issues in reaction to one event follow the last id it
/// had issued, ascend, and end at the last id it has issued afterwards.
pub proof fn lemma_react_issues_ascending_ids(state: NodeView, event: Event)
    ensures
        state.sequence <= state.react(event).state.sequence,
        ids_ascend_within(
            state.react(event).replies,
            state.sequence,
            state.react(event).state.sequence,
        ),
{
}

/// Over any run of events, each id that the node issues exceeds every id it
/// issued before, so that no id is issued twice.
pub proof fn lemma_ids_ascend(state: NodeView, events: Seq<Event>)
    ensures
        state.sequence <= state.run(events).sequence,
        ids_ascend_within(state.transcript(events), state.sequence, state.run(events).sequence),
    decreases events.len(),
{
    if events.len() > 0 {
        lemma_ids_ascend(state, events.drop_last());
        lemma_react_issues_ascending_ids(state.run(events.drop_last()), events.last());
    }
}

/// Every identifier that a node generates is made of the node's id and of
/// the id of the message that carries it.
pub proof fn lemma_generated_id_is_made_of_source_and_msg_id(
    state: NodeView,
    events: Seq<Event>,
)
    ensures
        forall|i: int|
            0 <= i < state.transcript(events).len() && (#[trigger] state.transcript(
                events,
            )[i]).body is GenerateOk ==> state.transcript(events)[i].body->GenerateOk_id
                == unique_id(
                state.transcript(events)[i].src,
                state.transcript(events)[i].body->GenerateOk_msg_id,
            ),
    decreases events.len(),
{
    if events.len() > 0 {
        lemma_generated_id_is_made_of_source_and_msg_id(state, events.drop_last());
    }
}

/// A node never generates the same identifier twice, whatever it reacts to
/// and even if it is renamed in between.
pub proof fn lemma_generated_ids_differ(state: NodeView, events: Seq<Event>, i: int, j: int)
    requires
        0 <= i < j < state.transcript(events).len(),
        state.transcript(events)[i].body is GenerateOk,
        state.transcript(events)[j].body is GenerateOk,
    ensures
        state.transcript(events)[i].body->GenerateOk_id != state.transcript(
            events,
        )[j].body->GenerateOk_id,
{
    let first = state.transcript(events)[i];
    let second = state.transcript(events)[j];
    lemma_ids_ascend(state, events);
    lemma_generated_id_is_made_of_source_and_msg_id(state, events);
    if first.body->GenerateOk_id == second.body->GenerateOk_id {
        lemma_unique_id_injective(
            first.src,
            first.body->GenerateOk_msg_id,
            second.src,
            second.body->GenerateOk_msg_id,
        );
    }
}

/// The set of values that a node has seen only grows.
pub proof fn lemma_seen_grows(state: NodeView, events: Seq<Event>)
    ensures
        state.seen.subset_of(state.run(events).seen),
    decreases events.len(),
{
    if events.len() > 0 {
        lemma_seen_grows(state, events.drop_last());
    }
}

/// Every message that a node sends in reaction to an event names as its
/// source the id that the node has once the event is dealt with.
pub proof fn lemma_replies_name_the_node(state: NodeView, event: Event)
    ensures
        forall|i: int|
            0 <= i < state.react(event).replies.len() ==> (#[trigger] state.react(
                event,
            ).replies[i]).src == state.react(event).state.node_id,
{
}

/// A value that the node has seen is not taken in again. Whoever hands it
/// over, the node acknowledges it and does nothing else: the values seen and
/// the ledger stay as they are.
pub proof fn lemma_seen_value_is_only_acknowledged(
    state: NodeView,
    sender: Seq<char>,
    dest: Seq<char>,
    msg_id: nat,
    value: i64,
)
    requires
        state.seen.contains(value),
    ensures
        ({
            let outcome = state.step(
                MessageView {
                    src: sender,
                    dest,
                    body: PayloadView::Broadcast { msg_id, message: value },
                },
            );
            &&& outcome.state.seen == state.seen
            &&& outcome.state.ledger == state.ledger
            &&& outcome.replies == seq![
                state.reply(
                    sender,
                    PayloadView::BroadcastOk { msg_id: state.sequence + 1, in_reply_to: msg_id },
                ),
            ]
        }),
{
}

/// After a broadcast of a value the node has seen it, whoever sent it and
/// whatever the node had seen before; so of two broadcasts of one value the
/// second is only acknowledged.
pub proof fn lemma_broadcast_value_is_seen(state: NodeView, message: MessageView)
    requires
        message.body is Broadcast,
    ensures
        state.step(message).state.seen == state.seen.insert(message.body->Broadcast_message),
        state.step(message).state.seen.contains(message.body->Broadcast_message),
{
}

/// A node that is handed a value it has not seen, and that knows its own
/// peers, acknowledges the value to the sender and then hands it to each of
/// its peers other than the sender, once for each time the peer is listed and
/// in the order of the list.
pub proof fn lemma_new_value_fans_out(state: NodeView, message: MessageView)
    requires
        message.body is Broadcast,
        !state.seen.contains(message.body->Broadcast_message),
        state.topology.contains_key(state.node_id),
    ensures
        ({
            let value: i64 = message.body->Broadcast_message;
            let targets = recipients(state.topology[state.node_id], message.src);
            let replies = state.step(message).replies;
            &&& replies.len() == 1 + targets.len()
            &&& replies[0] == state.reply(
                message.src,
                PayloadView::BroadcastOk {
                    msg_id: state.sequence + 1,
                    in_reply_to: message.body->Broadcast_msg_id,
                },
            )
            &&& forall|i: int|
                0 <= i < targets.len() ==> #[trigger] replies[1 + i] == broadcast_view(
                    state.node_id,
                    targets[i],
                    value,
                    (state.sequence + 2 + i) as nat,
                )
            &&& forall|peer: Seq<char>| #[trigger]
                targets.contains(peer) <==> state.topology[state.node_id].contains(peer) && peer
                    != message.src
        }),
{
    lemma_omit(state.topology[state.node_id], message.src);
}

/// None of the messages by which a node passes a value on goes to the node
/// that the value came from.
pub proof fn lemma_no_echo_to_source(state: NodeView, message: MessageView)
    requires
        message.body is Broadcast,
    ensures
        forall|i: int|
            1 <= i < state.step(message).replies.len() ==> (#[trigger] state.step(
                message,
            ).replies[i]).dest != message.src,
{
    if !state.seen.contains(message.body->Broadcast_message) && state.topology.contains_key(
        state.node_id,
    ) {
        lemma_omit(state.topology[state.node_id], message.src);
    }
}

/// Whether `message` hands `value` to `peer`.
pub open spec fn hands_over(message: MessageView, peer: Seq<char>, value: i64) -> bool {
    &&& message.dest == peer
    &&& message.body is Broadcast
    &&& message.body->Broadcast_message == value
}

/// Whether the acknowledgment of the message `id` still settles
/// `obligation` in `state`, as far as the obligation is open there.
pub open spec fn still_settles(state: NodeView, id: nat, obligation: (Seq<char>, i64)) -> bool {
    state.ledger.pending.contains(obligation) ==> state.ledger.correlation.contains_key(id)
        && state.ledger.correlation[id] == obligation
}

/// Every message by which a well-formed node hands a value to a peer, in
/// reaction to whatever event, opens the obligation of that peer for that
/// value and is awaited under its own id.
pub proof fn lemma_sent_broadcast_is_awaited(state: NodeView, event: Event)
    requires
        state.wf(),
    ensures
        forall|i: int|
            #![trigger state.react(event).replies[i]]
            0 <= i < state.react(event).replies.len() && state.react(event).replies[i].body
                is Broadcast ==> {
                let sent = state.react(event).replies[i];
                let ledger = state.react(event).state.ledger;
                let id: nat = sent.body->Broadcast_msg_id;
                &&& ledger.correlation.contains_key(id)
                &&& ledger.correlation[id] == (sent.dest, sent.body->Broadcast_message)
                &&& ledger.pending.contains((sent.dest, sent.body->Broadcast_message))
            },
{
    match event {
        Event::Tick => {
            state.ledger.lemma_flush(state.sequence);
        },
        Event::Message(message) => {
            match message.body {
                PayloadView::Broadcast { msg_id, message: value } => {
                    let targets = state.targets(message.src, value);
                    state.ledger.lemma_register_all(targets, value, state.sequence + 1);
                },
                _ => {},
            }
        },
    }
}

/// Once a well-formed node takes in the acknowledgment of a message by which
/// it handed `value` to `peer`, and which it still awaits, that obligation is
/// closed, and the next timer tick does not hand `value` to `peer` again.
pub proof fn lemma_acknowledged_value_is_not_resent(
    state: NodeView,
    ack: MessageView,
    peer: Seq<char>,
    value: i64,
)
    requires
        state.wf(),
        ack.body is BroadcastOk,
        state.ledger.correlation.contains_key(ack.body->BroadcastOk_in_reply_to),
        state.ledger.correlation[ack.body->BroadcastOk_in_reply_to] == (peer, value),
    ensures
        !state.step(ack).state.ledger.pending.contains((peer, value)),
        !state.step(ack).state.ledger.awaits((peer, value)),
        state.step(ack).replies.len() == 0,
        forall|i: int|
            0 <= i < state.step(ack).state.tick().replies.len() ==> !hands_over(
                #[trigger] state.step(ack).state.tick().replies[i],
                peer,
                value,
            ),
{
    state.ledger.lemma_acknowledge(ack.body->BroadcastOk_in_reply_to);
}

/// An acknowledgment that is not awaited changes nothing and is answered by
/// nothing.
pub proof fn lemma_unknown_acknowledgment_is_ignored(state: NodeView, ack: MessageView)
    requires
        ack.body is BroadcastOk,
        !state.ledger.correlation.contains_key(ack.body->BroadcastOk_in_reply_to),
    ensures
        state.step(ack).state == state,
        state.step(ack).replies.len() == 0,
{
}

/// A timer tick of a well-formed node sends exactly one message for each open
/// obligation, which hands the obligation's value to its peer, and closes
/// none of them; so each tick repeats every obligation that no
/// acknowledgment has closed.
pub proof fn lemma_tick_repeats_every_obligation(state: NodeView)
    requires
        state.wf(),
    ensures
        state.tick().replies.len() == state.ledger.pending.len(),
        forall|i: int|
            #![trigger state.tick().replies[i]]
            0 <= i < state.ledger.pending.len() ==> state.tick().replies[i] == broadcast_view(
                state.node_id,
                state.ledger.pending[i].0,
                state.ledger.pending[i].1,
                (state.sequence + 1 + i) as nat,
            ),
        forall|i: int, j: int|
            #![trigger state.tick().replies[i], state.tick().replies[j]]
            0 <= i < j < state.tick().replies.len() ==> !hands_over(
                state.tick().replies[j],
                state.tick().replies[i].dest,
                state.tick().replies[i].body->Broadcast_message,
            ),
        state.tick().state.ledger.pending == state.ledger.pending,
{
}

/// Only its acknowledgment closes an obligation: an obligation that is open
/// stays open whatever the node reacts to, unless it is a `BroadcastOk` in
/// reply to a message that is awaited for this very obligation.
pub proof fn lemma_obligation_stays_open(
    state: NodeView,
    event: Event,
    obligation: (Seq<char>, i64),
)
    requires
        state.wf(),
        state.ledger.pending.contains(obligation),
        !(event matches Event::Message(message) && message.body is BroadcastOk
            && state.ledger.correlation.contains_key(message.body->BroadcastOk_in_reply_to)
            && state.ledger.correlation[message.body->BroadcastOk_in_reply_to] == obligation),
    ensures
        state.react(event).state.ledger.pending.contains(obligation),
{
    match event {
        Event::Message(message) => {
            match message.body {
                PayloadView::Broadcast { msg_id, message: value } => {
                    let targets = state.targets(message.src, value);
                    state.ledger.lemma_register_all(targets, value, state.sequence + 1);
                },
                PayloadView::BroadcastOk { msg_id, in_reply_to } => {
                    state.ledger.lemma_acknowledge(in_reply_to);
                },
                _ => {},
            }
        },
        Event::Tick => {},
    }
}

/// An obligation that is closed stays closed: a well-formed node that has
/// seen `value` and does not owe it to `peer` does not owe it to `peer`
/// after any event either, and hands it to `peer` in reaction to none.
pub proof fn lemma_closed_obligation_stays_closed(
    state: NodeView,
    event: Event,
    peer: Seq<char>,
    value: i64,
)
    requires
        state.wf(),
        state.seen.contains(value),
        !state.ledger.pending.contains((peer, value)),
    ensures
        state.react(event).state.seen.contains(value),
        !state.react(event).state.ledger.pending.contains((peer, value)),
        forall|i: int|
            0 <= i < state.react(event).replies.len() ==> !hands_over(
                #[trigger] state.react(event).replies[i],
                peer,
                value,
            ),
{
    match event {
        Event::Tick => {},
        Event::Message(message) => {
            match message.body {
                PayloadView::Broadcast { msg_id, message: other } => {
                    let targets = state.targets(message.src, other);
                    state.ledger.lemma_register_all(targets, other, state.sequence + 1);
                },
                PayloadView::BroadcastOk { msg_id, in_reply_to } => {
                    state.ledger.lemma_acknowledge(in_reply_to);
                },
                _ => {},
            }
        },
    }
}

/// A closed obligation is never taken up again: over any run of events from
/// a well-formed state in which `value` is seen and not owed to `peer`, no
/// message hands `value` to `peer`.
pub proof fn lemma_closed_obligation_is_never_resent(
    state: NodeView,
    events: Seq<Event>,
    peer: Seq<char>,
    value: i64,
)
    requires
        state.wf(),
        state.seen.contains(value),
        !state.ledger.pending.contains((peer, value)),
    ensures
        state.run(events).seen.contains(value),
        !state.run(events).ledger.pending.contains((peer, value)),
        forall|i: int|
            0 <= i < state.transcript(events).len() ==> !hands_over(
                #[trigger] state.transcript(events)[i],
                peer,
                value,
            ),
    decreases events.len(),
{
    if events.len() > 0 {
        let before = state.run(events.drop_last());
        let earlier = state.transcript(events.drop_last());
        let latest = before.react(events.last()).replies;
        lemma_closed_obligation_is_never_resent(state, events.drop_last(), peer, value);
        lemma_run_preserves_wf(state, events.drop_last());
        lemma_closed_obligation_stays_closed(before, events.last(), peer, value);
        assert forall|i: int| 0 <= i < state.transcript(events).len() implies !hands_over(
            #[trigger] state.transcript(events)[i],
            peer,
            value,
        ) by {
            if i < earlier.len() {
                assert(state.transcript(events)[i] == earlier[i]);
            } else {
                assert(state.transcript(events)[i] == latest[i - earlier.len()]);
            }
        }
    }
}

/// As long as no timer tick supersedes it, the id of a message keeps
/// settling the obligation it was sent for: after any other event the
/// obligation is either closed or still awaited under that id.
pub proof fn lemma_id_settles_until_tick(
    state: NodeView,
    event: Event,
    id: nat,
    obligation: (Seq<char>, i64),
)
    requires
        state.wf(),
        state.seen.contains(obligation.1),
        still_settles(state, id, obligation),
        !(event is Tick),
    ensures
        state.react(event).state.seen.contains(obligation.1),
        still_settles(state.react(event).state, id, obligation),
{
    if !state.ledger.pending.contains(obligation) {
        lemma_closed_obligation_stays_closed(state, event, obligation.0, obligation.1);
    } else {
        match event {
            Event::Message(message) => {
                match message.body {
                    PayloadView::Broadcast { msg_id, message: value } => {
                        let targets = state.targets(message.src, value);
                        state.ledger.lemma_register_all(targets, value, state.sequence + 1);
                    },
                    PayloadView::BroadcastOk { msg_id, in_reply_to } => {
                        state.ledger.lemma_acknowledge(in_reply_to);
                    },
                    _ => {},
                }
            },
            Event::Tick => {},
        }
    }
}

/// The same over a run of events without a timer tick.
pub proof fn lemma_id_settles_over_run(
    state: NodeView,
    events: Seq<Event>,
    id: nat,
    obligation: (Seq<char>, i64),
)
    requires
        state.wf(),
        state.seen.contains(obligation.1),
        still_settles(state, id, obligation),
        forall|k: int| 0 <= k < events.len() ==> !(#[trigger] events[k] is Tick),
    ensures
        state.run(events).seen.contains(obligation.1),
        still_settles(state.run(events), id, obligation),
    decreases events.len(),
{
    if events.len() > 0 {
        let front = events.drop_last();
        lemma_id_settles_over_run(state, front, id, obligation);
        lemma_run_preserves_wf(state, front);
        lemma_id_settles_until_tick(state.run(front), events.last(), id, obligation);
    }
}

/// A delivery that is acknowledged is over. Let a well-formed node hand a
/// value to a peer, in reaction to whatever event; let it then react to any
/// events but a timer tick, and then take in a `BroadcastOk` in reply to that
/// message. From then on the peer does not owe the value, and whatever the
/// node reacts to later, timer ticks included, it never hands the value to
/// that peer again.
pub proof fn lemma_acknowledged_delivery_is_over(
    state: NodeView,
    event: Event,
    i: int,
    between: Seq<Event>,
    ack: MessageView,
    later: Seq<Event>,
)
    requires
        state.wf(),
        0 <= i < state.react(event).replies.len(),
        state.react(event).replies[i].body is Broadcast,
        forall|k: int| 0 <= k < between.len() ==> !(#[trigger] between[k] is Tick),
        ack.body is BroadcastOk,
        ack.body->BroadcastOk_in_reply_to == state.react(event).replies[i].body->Broadcast_msg_id,
    ensures
        ({
            let sent = state.react(event).replies[i];
            let value: i64 = sent.body->Broadcast_message;
            let acknowledged = state.react(event).state.run(between).step(ack).state;
            &&& !acknowledged.ledger.pending.contains((sent.dest, value))
            &&& !acknowledged.run(later).ledger.pending.contains((sent.dest, value))
            &&& forall|j: int|
                0 <= j < acknowledged.transcript(later).len() ==> !hands_over(
                    #[trigger] acknowledged.transcript(later)[j],
                    sent.dest,
                    value,
                )
        }),
{
    let sent = state.react(event).replies[i];
    let id: nat = sent.body->Broadcast_msg_id;
    let obligation = (sent.dest, sent.body->Broadcast_message);
    let started = state.react(event).state;
    let arrived = started.run(between);
    let acknowledged = arrived.step(ack).state;
    lemma_sent_broadcast_is_awaited(state, event);
    match event {
        Event::Message(message) => lemma_step_preserves_wf(state, message),
        Event::Tick => lemma_tick_preserves_wf(state),
    }
    lemma_id_settles_over_run(started, between, id, obligation);
    lemma_run_preserves_wf(started, between);
    arrived.ledger.lemma_acknowledge(id);
    lemma_closed_obligation_is_never_resent(acknowledged, later, obligation.0, obligation.1);
}

} // verus!
