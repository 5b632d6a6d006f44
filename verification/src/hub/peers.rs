//! The registry of connected agents.
//!
//! A peer is created when a connection is accepted, becomes registered when it
//! has announced an identity that the user records confirm, and leaves the
//! registry when its connection goes away.

use vstd::prelude::*;
use futures::channel::mpsc::{TrySendError, UnboundedSender};
use tokio_tungstenite::tungstenite::Message;
use crate::assoc::{
    assoc_map, distinct_keys, lemma_assoc_at, lemma_assoc_dom, lemma_assoc_push,
    lemma_assoc_remove, lemma_assoc_update,
};
use crate::channel::{enqueue, frame_message, policy_close};
use crate::model::{Frame, Identity, IdentityView};
use crate::text::same_text;

verus! {

/// How long, in seconds, a connected agent has to register before it is
/// closed.
pub const REGISTRATION_GRACE_SECONDS: u64 = 3;

/// The hub's record of one connected agent: the queue of messages to it, and
/// the identity it registered under, if it has.
pub struct Peer {
    channel: UnboundedSender<Message>,
    data: Option<Identity>,
}

pub struct PeerView {
    pub channel: UnboundedSender<Message>,
    pub identity: Option<IdentityView>,
}

impl PeerView {
    /// Whether the peer is registered under the handle.
    pub open spec fn runs_for(self, handle: Seq<char>) -> bool {
        self.identity matches Some(identity) && identity.handle == handle
    }
}

impl View for Peer {
    type V = PeerView;

    closed spec fn view(&self) -> PeerView {
        PeerView {
            channel: self.channel,
            identity: match self.data {
                Some(identity) => Some(identity@),
                None => None,
            },
        }
    }
}

impl Peer {
    /// The record of a freshly accepted connection: not registered yet.
    pub fn new(tx: UnboundedSender<Message>) -> (peer: Peer)
        ensures
            peer@ == (PeerView { channel: tx, identity: None }),
    {
        Peer { channel: tx, data: None }
    }

    /// Queues a websocket message to the peer. Fails when the connection's
    /// sending task is gone.
    pub fn send_message(&self, message: Message) -> Result<(), TrySendError<Message>> {
        enqueue(&self.channel, message)
    }

    /// Queues `frame`, encoded, as a binary message. Returns whether the
    /// queue took it.
    pub fn send_socket_frame(&self, frame: &Frame) -> bool {
        self.send_message(frame_message(frame)).is_ok()
    }

    /// Asks the connection to close with the policy-violation code. Returns
    /// whether the queue took the request.
    pub fn close_with_policy(&self) -> bool {
        self.send_message(policy_close()).is_ok()
    }

    /// Whether the peer has registered.
    pub fn is_registered(&self) -> (registered: bool)
        ensures
            registered == self@.identity.is_some(),
    {
        self.data.is_some()
    }

    /// Whether the peer is registered under the handle.
    pub fn runs_for(&self, zid: &str) -> (matches: bool)
        ensures
            matches == self@.runs_for(zid@),
    {
        match &self.data {
            Some(identity) => same_text(identity.handle.as_str(), zid),
            None => false,
        }
    }

    /// Registers the peer under `identity`, unless it is registered already:
    /// an identity, once set, stays.
    pub fn register(&mut self, identity: Identity) -> (done: bool)
        ensures
            done == old(self)@.identity.is_none(),
            done ==> final(self)@ == (PeerView {
                channel: old(self)@.channel,
                identity: Some(identity@),
            }),
            !done ==> final(self)@ == old(self)@,
    {
        if self.data.is_some() {
            false
        } else {
            self.data = Some(identity);
            true
        }
    }
}

struct PeerEntry {
    address: u64,
    peer: Peer,
}

/// Each entry as a pair of address and peer view.
spec fn entry_pairs(entries: Seq<PeerEntry>) -> Seq<(u64, PeerView)> {
    Seq::new(entries.len(), |i: int| (entries[i].address, entries[i].peer@))
}

/// The peers by the address of their connection.
pub struct PeerMap {
    entries: Vec<PeerEntry>,
}

impl View for PeerMap {
    type V = Map<u64, PeerView>;

    closed spec fn view(&self) -> Map<u64, PeerView> {
        assoc_map(self.pairs())
    }
}

impl PeerMap {
    spec fn pairs(&self) -> Seq<(u64, PeerView)> {
        entry_pairs(self.entries@)
    }

    #[verifier::type_invariant]
    spec fn inv(&self) -> bool {
        distinct_keys(self.pairs())
    }

    /// A registry without peers.
    pub fn new() -> (peers: PeerMap)
        ensures
            peers@ == Map::<u64, PeerView>::empty(),
    {
        let peers = PeerMap { entries: Vec::new() };
        assert(peers.pairs() =~= Seq::empty());
        peers
    }

    /// Moves the entries out, leaving none behind.
    fn take_entries(&mut self) -> (entries: Vec<PeerEntry>)
        ensures
            entries == old(self).entries,
            final(self).entries@.len() == 0,
    {
        let mut entries: Vec<PeerEntry> = Vec::new();
        std::mem::swap(&mut self.entries, &mut entries);
        entries
    }

    /// How many peers are connected.
    pub fn len(&self) -> (n: usize)
        ensures
            n == self@.dom().len(),
            self@.dom().finite(),
    {
        proof {
            use_type_invariant(self);
            lemma_pairs_count(self.pairs());
        }
        self.entries.len()
    }

    /// Where the peer with the address is kept.
    fn position(&self, address: u64) -> (r: Option<usize>)
        ensures
            match r {
                Some(i) => i < self.entries@.len() && self.entries@[i as int].address == address
                    && self@.dom().contains(address) && self@[address]
                    == self.entries@[i as int].peer@,
                None => !self@.dom().contains(address),
            },
    {
        proof {
            use_type_invariant(self);
        }
        let mut i: usize = 0;
        while i < self.entries.len()
            invariant
                i <= self.entries@.len(),
                forall|k: int| 0 <= k < i ==> self.entries@[k].address != address,
                distinct_keys(self.pairs()),
            decreases self.entries@.len() - i,
        {
            if self.entries[i].address == address {
                proof {
                    lemma_assoc_at(self.pairs(), i as int);
                }
                return Some(i);
            }
            i += 1;
        }
        proof {
            lemma_assoc_dom(self.pairs(), address);
            if self@.dom().contains(address) {
                let k = choose|k: int|
                    0 <= k < self.pairs().len() && (#[trigger] self.pairs()[k]).0 == address;
                assert(self.entries@[k].address == address);
            }
        }
        None
    }

    /// Records `peer` under `address`, in place of a peer that was there.
    pub fn insert(&mut self, address: u64, peer: Peer)
        ensures
            final(self)@ == old(self)@.insert(address, peer@),
    {
        proof {
            use_type_invariant(&*self);
        }
        let ghost before = self.pairs();
        match self.position(address) {
            Some(i) => {
                proof {
                    lemma_assoc_remove(before, i as int);
                    lemma_assoc_dom(before.remove(i as int), address);
                    if assoc_map(before.remove(i as int)).dom().contains(address) {
                        let k = choose|k: int|
                            0 <= k < before.remove(i as int).len() && (
                            #[trigger] before.remove(i as int)[k]).0 == address;
                        let k0 = if k < i { k } else { k + 1 };
                        assert(before.remove(i as int)[k] == before[k0]);
                    }
                    lemma_assoc_push(before.remove(i as int), address, peer@);
                }
                let mut entries = self.take_entries();
                let _ = entries.remove(i);
                entries.push(PeerEntry { address, peer });
                assert(entry_pairs(entries@) =~= before.remove(i as int).push((address, peer@)));
                self.entries = entries;
                assert(self@ =~= old(self)@.insert(address, peer@));
            },
            None => {
                proof {
                    lemma_assoc_push(before, address, peer@);
                }
                let mut entries = self.take_entries();
                entries.push(PeerEntry { address, peer });
                assert(entry_pairs(entries@) =~= before.push((address, peer@)));
                self.entries = entries;
            },
        }
    }

    /// Drops the peer under `address` and hands it back, if there is one.
    pub fn remove(&mut self, address: u64) -> (r: Option<Peer>)
        ensures
            final(self)@ == old(self)@.remove(address),
            match r {
                Some(peer) => old(self)@.dom().contains(address) && peer@ == old(self)@[address],
                None => !old(self)@.dom().contains(address),
            },
    {
        proof {
            use_type_invariant(&*self);
        }
        let ghost before = self.pairs();
        match self.position(address) {
            Some(i) => {
                proof {
                    lemma_assoc_remove(before, i as int);
                }
                let mut entries = self.take_entries();
                let entry = entries.remove(i);
                assert(entry_pairs(entries@) =~= before.remove(i as int));
                self.entries = entries;
                Some(entry.peer)
            },
            None => {
                assert(self@ =~= old(self)@.remove(address));
                None
            },
        }
    }

    /// The peer under `address`, if there is one.
    pub fn get(&self, address: u64) -> (r: Option<&Peer>)
        ensures
            match r {
                Some(peer) => self@.dom().contains(address) && peer@ == self@[address],
                None => !self@.dom().contains(address),
            },
    {
        match self.position(address) {
            Some(i) => Some(&self.entries[i].peer),
            None => None,
        }
    }

    /// Registers the peer under `address` with `identity`. Nothing changes if
    /// there is no such peer or it is registered already.
    pub fn register(&mut self, address: u64, identity: Identity) -> (done: bool)
        ensures
            done == (old(self)@.dom().contains(address) && old(self)@[address].identity.is_none()),
            done ==> final(self)@ == old(self)@.insert(
                address,
                PeerView { channel: old(self)@[address].channel, identity: Some(identity@) },
            ),
            !done ==> final(self)@ == old(self)@,
    {
        proof {
            use_type_invariant(&*self);
        }
        let ghost before = self.pairs();
        match self.position(address) {
            Some(i) => {
                if self.entries[i].peer.is_registered() {
                    return false;
                }
                let ghost after = PeerView {
                    channel: old(self)@[address].channel,
                    identity: Some(identity@),
                };
                proof {
                    lemma_assoc_remove(before, i as int);
                    lemma_assoc_update(before, i as int, after);
                }
                let mut entries = self.take_entries();
                let mut entry = entries.remove(i);
                let done = entry.peer.register(identity);
                entries.insert(i, entry);
                assert(entry_pairs(entries@) =~= before.update(i as int, (address, after)));
                self.entries = entries;
                done
            },
            None => false,
        }
    }

    /// The address of a peer that is registered under the handle, if there is
    /// one.
    pub fn find_runner(&self, zid: &str) -> (r: Option<u64>)
        ensures
            match r {
                Some(address) => self@.dom().contains(address) && self@[address].runs_for(zid@),
                None => forall|address: u64|
                    self@.dom().contains(address) ==> !(#[trigger] self@[address]).runs_for(zid@),
            },
    {
        proof {
            use_type_invariant(self);
        }
        let mut i: usize = 0;
        while i < self.entries.len()
            invariant
                i <= self.entries@.len(),
                forall|k: int| 0 <= k < i ==> !self.entries@[k].peer@.runs_for(zid@),
                distinct_keys(self.pairs()),
            decreases self.entries@.len() - i,
        {
            if self.entries[i].peer.runs_for(zid) {
                proof {
                    lemma_assoc_at(self.pairs(), i as int);
                }
                return Some(self.entries[i].address);
            }
            i += 1;
        }
        proof {
            assert forall|address: u64| self@.dom().contains(address) implies !(
            #[trigger] self@[address]).runs_for(zid@) by {
                lemma_assoc_dom(self.pairs(), address);
                let k = choose|k: int|
                    0 <= k < self.pairs().len() && (#[trigger] self.pairs()[k]).0 == address;
                lemma_assoc_at(self.pairs(), k);
            }
        }
        None
    }
}

/// With distinct keys, the map has as many keys as there are pairs.
pub proof fn lemma_pairs_count<K, V>(pairs: Seq<(K, V)>)
    requires
        distinct_keys(pairs),
    ensures
        assoc_map(pairs).dom().finite(),
        assoc_map(pairs).dom().len() == pairs.len(),
    decreases pairs.len(),
{
    if pairs.len() > 0 {
        let front = pairs.drop_last();
        assert(distinct_keys(front)) by {
            assert forall|a: int, b: int| 0 <= a < b < front.len() implies front[a].0
                != front[b].0 by {
                assert(front[a] == pairs[a] && front[b] == pairs[b]);
            }
        }
        lemma_pairs_count(front);
        lemma_assoc_dom(front, pairs.last().0);
        if assoc_map(front).dom().contains(pairs.last().0) {
            let j = choose|j: int| 0 <= j < front.len() && (#[trigger] front[j]).0 == pairs.last().0;
            assert(front[j] == pairs[j]);
            assert(pairs[j].0 != pairs[pairs.len() - 1].0);
        }
        assert(assoc_map(pairs).dom() =~= assoc_map(front).dom().insert(pairs.last().0));
    }
}

} // verus!
