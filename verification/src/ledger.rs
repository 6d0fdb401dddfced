//! The retry ledger: which peers still owe an acknowledgment for which value,
//! and under which message id each of them was last asked.

use std::collections::HashMap;
use vstd::prelude::*;
use vstd::std_specs::hash::spec_hash_map_iter;
use vstd::std_specs::iter::IteratorSpec;
use vstd::string::StringExecFns;

use crate::message::{Broadcast, Message, MessageView, Payload, PayloadView};
use crate::omit::{lemma_omit, lemma_omit_push, omit};
use crate::sequence::MessageIdCounter;

verus! {

broadcast use vstd::std_specs::hash::group_hash_axioms;

/// The mathematical content of a ledger.
///
/// An obligation is a pair of a peer and a value that the peer has to
/// acknowledge.
pub struct LedgerView {
    /// The obligations that are still open, oldest first.
    pub pending: Seq<(Seq<char>, i64)>,
    /// For each message id whose acknowledgment is awaited, the obligation
    /// that the acknowledgment settles.
    pub correlation: Map<nat, (Seq<char>, i64)>,
}

/// The ids under which `correlation` awaits an acknowledgment of
/// `obligation`.
pub open spec fn ids_of(correlation: Map<nat, (Seq<char>, i64)>, obligation: (Seq<char>, i64))
    -> Set<nat> {
    Set::new(|id: nat| correlation.contains_key(id) && correlation[id] == obligation)
}

/// The message that hands `value` from `src` to `dest` under the id `id`.
pub open spec fn broadcast_view(src: Seq<char>, dest: Seq<char>, value: i64, id: nat)
    -> MessageView {
    MessageView { src, dest, body: PayloadView::Broadcast { msg_id: id, message: value } }
}

/// The messages that repeat every obligation of `pending` on behalf of
/// `src`: one per obligation, in order, with the ids that follow `after`.
pub open spec fn retries(pending: Seq<(Seq<char>, i64)>, src: Seq<char>, after: nat) -> Seq<
    MessageView,
> {
    Seq::new(
        pending.len(),
        |i: int| broadcast_view(src, pending[i].0, pending[i].1, (after + 1 + i) as nat),
    )
}

impl LedgerView {
    /// The ledger with nothing open.
    pub open spec fn empty() -> Self {
        LedgerView { pending: Seq::empty(), correlation: Map::empty() }
    }

    /// Whether an acknowledgment is awaited that settles `obligation`.
    pub open spec fn awaits(self, obligation: (Seq<char>, i64)) -> bool {
        exists|id: nat| #[trigger]
            self.correlation.contains_key(id) && self.correlation[id] == obligation
    }

    /// The ledger's invariant: no obligation is listed twice, every awaited
    /// acknowledgment settles an open obligation, and for every open
    /// obligation some acknowledgment is awaited.
    pub open spec fn wf(self) -> bool {
        &&& self.pending.no_duplicates()
        &&& forall|id: nat| #[trigger]
            self.correlation.contains_key(id) ==> self.pending.contains(self.correlation[id])
        &&& forall|i: int| 0 <= i < self.pending.len() ==> self.awaits(#[trigger] self.pending[i])
    }

    /// Whether every awaited id is one of the first `last` ids of a counter.
    pub open spec fn issued_by(self, last: nat) -> bool {
        forall|id: nat| #[trigger] self.correlation.contains_key(id) ==> 1 <= id <= last
    }

    /// Opens the obligation `(peer, value)`, unless it is open already, and
    /// awaits its acknowledgment under `id`.
    pub open spec fn register(self, peer: Seq<char>, value: i64, id: nat) -> Self {
        LedgerView {
            pending: if self.pending.contains((peer, value)) {
                self.pending
            } else {
                self.pending.push((peer, value))
            },
            correlation: self.correlation.insert(id, (peer, value)),
        }
    }

    /// Registers `value` for each of `peers` in turn, under the ids that
    /// follow `after`.
    pub open spec fn register_all(self, peers: Seq<Seq<char>>, value: i64, after: nat) -> Self
        decreases peers.len(),
    {
        if peers.len() == 0 {
            self
        } else {
            self.register_all(peers.drop_last(), value, after).register(
                peers.last(),
                value,
                after + peers.len(),
            )
        }
    }

    /// Takes in the acknowledgment of the message `id`: where it is awaited,
    /// the obligation it settles is closed, and no id is awaited for that
    /// obligation any longer; where it is not, nothing changes.
    pub open spec fn acknowledge(self, id: nat) -> Self {
        if self.correlation.contains_key(id) {
            let obligation = self.correlation[id];
            LedgerView {
                pending: omit(self.pending, obligation),
                correlation: self.correlation.remove_keys(ids_of(self.correlation, obligation)),
            }
        } else {
            self
        }
    }

    /// Repeats every open obligation under the ids that follow `after`: the
    /// obligations stay open, each is awaited under its new id, and the ids
    /// awaited before are dropped.
    pub open spec fn flush(self, after: nat) -> Self {
        LedgerView {
            pending: self.pending,
            correlation: Map::new(
                |id: nat| after < id <= after + self.pending.len(),
                |id: nat| self.pending[id - after - 1],
            ),
        }
    }
}

impl LedgerView {
    /// Registering an obligation under an id that is not awaited yet keeps
    /// the ledger well formed.
    pub proof fn lemma_register_wf(self, peer: Seq<char>, value: i64, id: nat)
        requires
            self.wf(),
            !self.correlation.contains_key(id),
        ensures
            self.register(peer, value, id).wf(),
    {
        let after = self.register(peer, value, id);
        let obligation = (peer, value);
        assert forall|other: (Seq<char>, i64)| self.pending.contains(other) implies #[trigger]
            after.pending.contains(other) by {
            let i: int = choose|i: int| 0 <= i < self.pending.len() && self.pending[i] == other;
            assert(after.pending[i] == other);
        }
        if !self.pending.contains(obligation) {
            assert(after.pending[after.pending.len() - 1] == obligation);
        }
        assert forall|i: int| 0 <= i < after.pending.len() implies after.awaits(
            #[trigger] after.pending[i],
        ) by {
            if i < self.pending.len() {
                let known: nat = choose|known: nat| #[trigger]
                    self.correlation.contains_key(known) && self.correlation[known]
                        == self.pending[i];
                assert(after.correlation.contains_key(known));
            } else {
                assert(after.correlation.contains_key(id));
            }
        }
    }

    /// Registering a value for a list of peers, under ids that follow the
    /// last id issued, keeps the ledger well formed. It awaits what was
    /// awaited before and, under the `i`-th new id, the `i`-th peer; the open
    /// obligations are those open before and the given value for each peer.
    pub proof fn lemma_register_all(self, peers: Seq<Seq<char>>, value: i64, after: nat)
        requires
            self.wf(),
            self.issued_by(after),
        ensures
            self.register_all(peers, value, after).wf(),
            self.register_all(peers, value, after).issued_by(after + peers.len()),
            forall|id: nat|
                #![trigger self.register_all(peers, value, after).correlation.contains_key(id)]
                self.register_all(peers, value, after).correlation.contains_key(id) <==> (
                self.correlation.contains_key(id) || after < id <= after + peers.len()),
            forall|id: nat|
                #![trigger self.register_all(peers, value, after).correlation[id]]
                self.correlation.contains_key(id) ==> self.register_all(
                    peers,
                    value,
                    after,
                ).correlation[id] == self.correlation[id],
            forall|i: int|
                #![trigger peers[i]]
                0 <= i < peers.len() ==> self.register_all(
                    peers,
                    value,
                    after,
                ).correlation[(after + 1 + i) as nat] == (peers[i], value),
            forall|obligation: (Seq<char>, i64)|
                #![trigger self.register_all(peers, value, after).pending.contains(obligation)]
                self.register_all(peers, value, after).pending.contains(obligation) <==> (
                self.pending.contains(obligation) || (obligation.1 == value && peers.contains(
                    obligation.0,
                ))),
        decreases peers.len(),
    {
        let all = self.register_all(peers, value, after);
        if peers.len() > 0 {
            let front = peers.drop_last();
            let most = self.register_all(front, value, after);
            let id: nat = after + peers.len();
            self.lemma_register_all(front, value, after);
            most.lemma_register_wf(peers.last(), value, id);
            assert forall|i: int| 0 <= i < peers.len() implies all.correlation[(after + 1
                + i) as nat] == (#[trigger] peers[i], value) by {
                if i < front.len() {
                    assert(front[i] == peers[i]);
                }
            }
            assert forall|obligation: (Seq<char>, i64)|
                #![trigger all.pending.contains(obligation)]
                all.pending.contains(obligation) <==> (self.pending.contains(obligation) || (
                obligation.1 == value && peers.contains(obligation.0))) by {
                let newest = (peers.last(), value);
                if most.pending.contains(obligation) {
                    let i: int = choose|i: int|
                        0 <= i < most.pending.len() && most.pending[i] == obligation;
                    assert(all.pending[i] == obligation);
                }
                if obligation == newest && !most.pending.contains(obligation) {
                    assert(all.pending[all.pending.len() - 1] == obligation);
                }
                if obligation.1 == value && peers.contains(obligation.0) && obligation != newest {
                    let j: int = choose|j: int| 0 <= j < peers.len() && peers[j] == obligation.0;
                    assert(front[j] == obligation.0);
                }
            }
        }
    }

    /// Taking in an acknowledgment keeps the ledger well formed, awaits no
    /// id that was not awaited before, and leaves the obligation that the
    /// acknowledgment settles neither open nor awaited.
    pub proof fn lemma_acknowledge(self, id: nat)
        requires
            self.wf(),
        ensures
            self.acknowledge(id).wf(),
            forall|last: nat| self.issued_by(last) ==> self.acknowledge(id).issued_by(last),
            self.correlation.contains_key(id) ==> {
                &&& !self.acknowledge(id).pending.contains(self.correlation[id])
                &&& !self.acknowledge(id).awaits(self.correlation[id])
            },
            forall|other: (Seq<char>, i64)|
                #![trigger self.acknowledge(id).pending.contains(other)]
                self.acknowledge(id).pending.contains(other) ==> self.pending.contains(other),
            forall|other: (Seq<char>, i64)|
                #![trigger self.acknowledge(id).pending.contains(other)]
                self.pending.contains(other) && !(self.correlation.contains_key(id)
                    && self.correlation[id] == other) ==> self.acknowledge(id).pending.contains(
                    other,
                ),
    {
        if self.correlation.contains_key(id) {
            let settled = self.correlation[id];
            let after = self.acknowledge(id);
            lemma_omit(self.pending, settled);
            assert forall|i: int| 0 <= i < after.pending.len() implies after.awaits(
                #[trigger] after.pending[i],
            ) by {
                let other = after.pending[i];
                assert(after.pending.contains(other));
                let known: nat = choose|known: nat| #[trigger]
                    self.correlation.contains_key(known) && self.correlation[known] == other;
                assert(after.correlation.contains_key(known));
            }
        }
    }

    /// Repeating the open obligations of a list without duplicates gives a
    /// well-formed ledger, whose awaited ids all follow `after`: the `i`-th
    /// of them awaits the `i`-th obligation.
    pub proof fn lemma_flush(self, after: nat)
        requires
            self.pending.no_duplicates(),
        ensures
            self.flush(after).wf(),
            self.flush(after).issued_by(after + self.pending.len()),
            forall|i: int|
                #![trigger self.pending[i]]
                0 <= i < self.pending.len() ==> self.flush(after).correlation.contains_key(
                    (after + 1 + i) as nat,
                ) && self.flush(after).correlation[(after + 1 + i) as nat] == self.pending[i],
    {
        let flushed = self.flush(after);
        assert forall|i: int| 0 <= i < flushed.pending.len() implies flushed.awaits(
            #[trigger] flushed.pending[i],
        ) by {
            assert(flushed.correlation.contains_key((after + 1 + i) as nat));
        }
    }
}

/// The correlation that a table of sent messages stands for.
pub open spec fn correlation_of(sent: Map<usize, (String, i64)>) -> Map<nat, (Seq<char>, i64)> {
    Map::new(
        |id: nat| id <= usize::MAX && sent.contains_key(id as usize),
        |id: nat| (sent[id as usize].0@, sent[id as usize].1),
    )
}

/// The obligations still open and the ids under which they were last sent.
#[derive(Debug)]
pub struct PendingMessages {
    pending_nodes: Vec<(String, i64)>,
    sent_messages: HashMap<usize, (String, i64)>,
}

impl View for PendingMessages {
    type V = LedgerView;

    closed spec fn view(&self) -> LedgerView {
        LedgerView {
            pending: self.pending_nodes.deep_view(),
            correlation: correlation_of(self.sent_messages@),
        }
    }
}

/// Builds the message that hands `message` from `src_node_id` to
/// `dest_node_id` under a fresh id, and notes in `sent_messages` that this id
/// awaits the acknowledgment of `(dest_node_id, message)`.
pub fn broadcast_to_node_message(
    src_node_id: &str,
    msg_id_counter: &mut MessageIdCounter,
    dest_node_id: &str,
    message: i64,
    sent_messages: &mut HashMap<usize, (String, i64)>,
) -> (envelope: Message)
    requires
        old(msg_id_counter)@ < usize::MAX,
    ensures
        final(msg_id_counter)@ == old(msg_id_counter)@ + 1,
        correlation_of(final(sent_messages)@) == correlation_of(old(sent_messages)@).insert(
            final(msg_id_counter)@,
            (dest_node_id@, message),
        ),
        envelope@ == broadcast_view(
            src_node_id@,
            dest_node_id@,
            message,
            final(msg_id_counter)@,
        ),
{
    let msg_id: usize = msg_id_counter.next_msg_id();
    sent_messages.insert(msg_id, (String::from_str(dest_node_id), message));
    Message {
        src: String::from_str(src_node_id),
        dest: String::from_str(dest_node_id),
        body: Payload::Broadcast(Broadcast { msg_id, message }),
    }
}

/// Whether `pending` lists the obligation `(peer, value)`.
fn lists(pending: &Vec<(String, i64)>, peer: &String, value: i64) -> (found: bool)
    ensures
        found == pending.deep_view().contains((peer@, value)),
{
    let mut i: usize = 0;
    while i < pending.len()
        invariant
            i <= pending.len(),
            forall|j: int| 0 <= j < i ==> pending.deep_view()[j] != (peer@, value),
        decreases pending.len() - i,
    {
        if pending[i].0 == *peer && pending[i].1 == value {
            assert(pending.deep_view()[i as int] == (peer@, value));
            return true;
        }
        i = i + 1;
    }
    false
}

/// Copies `pending` without the obligation `(peer, value)`.
fn closed_out(pending: &Vec<(String, i64)>, peer: &String, value: i64) -> (rest: Vec<
    (String, i64),
>)
    ensures
        rest.deep_view() == omit(pending.deep_view(), (peer@, value)),
{
    let ghost all = pending.deep_view();
    let mut rest: Vec<(String, i64)> = Vec::new();
    let mut i: usize = 0;
    while i < pending.len()
        invariant
            i <= pending.len(),
            all == pending.deep_view(),
            rest.deep_view() == omit(all.take(i as int), (peer@, value)),
        decreases pending.len() - i,
    {
        proof {
            lemma_omit_push(all.take(i as int), all[i as int], (peer@, value));
            assert(all.take(i as int).push(all[i as int]) =~= all.take(i + 1));
        }
        if !(pending[i].0 == *peer && pending[i].1 == value) {
            rest.push((pending[i].0.clone(), pending[i].1));
        }
        i = i + 1;
    }
    assert(all.take(i as int) =~= all);
    rest
}

/// Collects the ids under which `sent` awaits an acknowledgment of
/// `(peer, value)`.
fn ids_awaiting(sent: &HashMap<usize, (String, i64)>, peer: &String, value: i64) -> (ids: Vec<
    usize,
>)
    ensures
        forall|id: usize|
            ids@.contains(id) <==> sent@.contains_key(id) && sent@[id].0@ == peer@ && sent@[id].1
                == value,
{
    let mut ids: Vec<usize> = Vec::new();
    for entry in entries: sent.iter()
        invariant
            entries.seq() == spec_hash_map_iter(sent).remaining(),
            forall|id: usize|
                ids@.contains(id) <==> exists|j: int|
                    0 <= j < entries.index() && *(#[trigger] entries.seq()[j]).0 == id
                        && (*entries.seq()[j].1).0@ == peer@ && (*entries.seq()[j].1).1 == value,
    {
        let ghost before = ids@;
        let ghost at: int = entries.index();
        let (id, obligation) = entry;
        if obligation.0 == *peer && obligation.1 == value {
            ids.push(*id);
            assert(ids@[ids@.len() - 1] == *id);
        }
        assert forall|other: usize| ids@.contains(other) implies exists|j: int|
            0 <= j < at + 1 && *(#[trigger] entries.seq()[j]).0 == other && (*entries.seq()[j].1).0@
                == peer@ && (*entries.seq()[j].1).1 == value by {
            if !before.contains(other) {
                assert(*entries.seq()[at].0 == other);
            }
        }
        assert forall|other: usize|
            (exists|j: int|
                0 <= j < at + 1 && *(#[trigger] entries.seq()[j]).0 == other
                    && (*entries.seq()[j].1).0@ == peer@ && (*entries.seq()[j].1).1
                    == value) implies ids@.contains(other) by {
            let j: int = choose|j: int|
                0 <= j < at + 1 && *(#[trigger] entries.seq()[j]).0 == other
                    && (*entries.seq()[j].1).0@ == peer@ && (*entries.seq()[j].1).1 == value;
            if j < at {
                assert(before.contains(other));
                let k: int = choose|k: int| 0 <= k < before.len() && before[k] == other;
                assert(ids@[k] == other);
            }
        }
    }
    ids
}

/// Removes every id of `ids` from `sent`.
fn forget_ids(sent: &mut HashMap<usize, (String, i64)>, ids: &Vec<usize>)
    ensures
        final(sent)@ == old(sent)@.remove_keys(ids@.to_set()),
{
    let mut i: usize = 0;
    while i < ids.len()
        invariant
            i <= ids.len(),
            sent@ == old(sent)@.remove_keys(ids@.take(i as int).to_set()),
        decreases ids.len() - i,
    {
        sent.remove(&ids[i]);
        proof {
            let shorter = ids@.take(i as int);
            let longer = ids@.take(i + 1);
            let gone = shorter.to_set();
            let more = longer.to_set();
            assert forall|id: usize| more.contains(id) <==> gone.contains(id) || id
                == ids[i as int] by {
                if id == ids[i as int] {
                    assert(longer[i as int] == id);
                }
            }
        }
        i = i + 1;
    }
    assert(ids@.take(i as int) =~= ids@);
}

impl PendingMessages {
    /// A ledger with nothing open.
    pub fn new() -> (ledger: Self)
        ensures
            ledger@ == LedgerView::empty(),
            ledger@.wf(),
    {
        let ledger = PendingMessages { pending_nodes: Vec::new(), sent_messages: HashMap::new() };
        assert(ledger@.pending =~= Seq::empty());
        assert(ledger@.correlation =~= Map::empty());
        ledger
    }

    /// The number of open obligations.
    pub fn len(&self) -> (count: usize)
        ensures
            count == self@.pending.len(),
    {
        self.pending_nodes.len()
    }

    /// Whether the acknowledgment of the message `id` is awaited.
    pub fn awaits_id(&self, id: usize) -> (awaited: bool)
        ensures
            awaited == self@.correlation.contains_key(id as nat),
    {
        self.sent_messages.contains_key(&id)
    }

    /// Takes in a `BroadcastOk` that answers the message
    /// `broadcast_ok_in_reply_to`. An answer to a message that is not awaited
    /// changes nothing.
    pub fn clear_broadcast_ok(&mut self, broadcast_ok_in_reply_to: usize)
        ensures
            final(self)@ == old(self)@.acknowledge(broadcast_ok_in_reply_to as nat),
            old(self)@.wf() ==> final(self)@.wf(),
    {
        proof {
            if self@.wf() {
                self@.lemma_acknowledge(broadcast_ok_in_reply_to as nat);
            }
        }
        let settled = match self.sent_messages.get(&broadcast_ok_in_reply_to) {
            Some(obligation) => Some((obligation.0.clone(), obligation.1)),
            None => None,
        };
        match settled {
            Some((peer, value)) => {
                let rest = closed_out(&self.pending_nodes, &peer, value);
                let stale = ids_awaiting(&self.sent_messages, &peer, value);
                self.pending_nodes = rest;
                forget_ids(&mut self.sent_messages, &stale);
                proof {
                    let before = old(self)@.correlation;
                    let obligation = (peer@, value);
                    assert(self@.correlation =~= before.remove_keys(ids_of(before, obligation)));
                }
            },
            None => {},
        }
    }

    /// Opens the obligation `(dest_node_id, message)`, unless it is open
    /// already, and builds the message that asks `dest_node_id` for its
    /// acknowledgment under a fresh id.
    pub fn broadcast_to_node(
        &mut self,
        src_node_id: &str,
        msg_id_counter: &mut MessageIdCounter,
        dest_node_id: &str,
        message: i64,
    ) -> (envelope: Message)
        requires
            old(msg_id_counter)@ < usize::MAX,
        ensures
            final(msg_id_counter)@ == old(msg_id_counter)@ + 1,
            final(self)@ == old(self)@.register(dest_node_id@, message, final(msg_id_counter)@),
            envelope@ == broadcast_view(
                src_node_id@,
                dest_node_id@,
                message,
                final(msg_id_counter)@,
            ),
            old(self)@.wf() && old(self)@.issued_by(old(msg_id_counter)@) ==> final(self)@.wf()
                && final(self)@.issued_by(final(msg_id_counter)@),
    {
        proof {
            if self@.wf() && self@.issued_by(msg_id_counter@) {
                self@.lemma_register_wf(dest_node_id@, message, msg_id_counter@ + 1);
            }
        }
        let peer = String::from_str(dest_node_id);
        if !lists(&self.pending_nodes, &peer, message) {
            let ghost before = self.pending_nodes.deep_view();
            self.pending_nodes.push((peer, message));
            assert(self.pending_nodes.deep_view() =~= before.push((dest_node_id@, message)));
        }
        broadcast_to_node_message(
            src_node_id,
            msg_id_counter,
            dest_node_id,
            message,
            &mut self.sent_messages,
        )
    }

    /// Repeats every open obligation: builds one message per obligation,
    /// oldest first, each under a fresh id, and from now on awaits the
    /// acknowledgments under these ids alone.
    pub fn broadcast_messages(&mut self, src_node_id: &str, msg_id_counter: &mut MessageIdCounter)
        -> (envelopes: Vec<Message>)
        requires
            old(msg_id_counter)@ + old(self)@.pending.len() <= usize::MAX,
        ensures
            final(msg_id_counter)@ == old(msg_id_counter)@ + old(self)@.pending.len(),
            final(self)@ == old(self)@.flush(old(msg_id_counter)@),
            envelopes.deep_view() == retries(
                old(self)@.pending,
                src_node_id@,
                old(msg_id_counter)@,
            ),
            old(self)@.wf() ==> final(self)@.wf() && final(self)@.issued_by(
                final(msg_id_counter)@,
            ),
    {
        proof {
            if self@.wf() {
                self@.lemma_flush(msg_id_counter@);
            }
        }
        let ghost pending = self@.pending;
        let ghost after = msg_id_counter@;
        let mut envelopes: Vec<Message> = Vec::new();
        self.sent_messages.clear();
        let mut i: usize = 0;
        while i < self.pending_nodes.len()
            invariant
                i <= self.pending_nodes.len(),
                self.pending_nodes.deep_view() == pending,
                after + pending.len() <= usize::MAX,
                msg_id_counter@ == after + i,
                correlation_of(self.sent_messages@) == Map::new(
                    |id: nat| after < id <= after + i,
                    |id: nat| pending[id - after - 1],
                ),
                envelopes.len() == i,
                forall|j: int|
                    0 <= j < i ==> (#[trigger] envelopes[j])@ == broadcast_view(
                        src_node_id@,
                        pending[j].0,
                        pending[j].1,
                        (after + 1 + j) as nat,
                    ),
            decreases self.pending_nodes.len() - i,
        {
            let envelope = broadcast_to_node_message(
                src_node_id,
                msg_id_counter,
                self.pending_nodes[i].0.as_str(),
                self.pending_nodes[i].1,
                &mut self.sent_messages,
            );
            envelopes.push(envelope);
            i = i + 1;
        }
        envelopes
    }
}

} // verus!
