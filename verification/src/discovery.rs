//! The discovery engine as a state machine: what it holds, and for every
//! event (a tick, a neighbour that came or went, a note that arrived) the
//! next state and what is to be sent or reported. Waiting, sending and
//! signing are the caller's part.

use crate::note::{create_note, verify, verify_spec, note_of, TrustStore};
use crate::store::{address_set, decide, entry_ids, epoch_le, expired_ids, fresh_entries, snapshot, AcceptOutcome, Decision, EntryView, KnowledgeStore, SeedPeers};
use crate::table::{lemma_remove_keeps_distinct, lemma_slot_absent, lemma_slot_at, lemma_slot_valid, lemma_upsert, lookup, slot, upsert};
use crate::types::{addr_views, copy_addrs, note_views, update_views, Address, AddressUpdate, AddressUpdateView, Note, NoteView, PeerId, PeerInfo, PeerInfoView};
use vstd::prelude::*;

verus! {

/// The name of the protocol on which notes are pushed.
pub const DISCOVERY_PROTOCOL_NAME: &'static str = "/libra/discovery/0.1.0";

/// One push to a neighbour: the notes to send on a new substream to `peer_id`,
/// which is then closed.
#[derive(Clone, Debug, PartialEq, Eq)]
pub struct Outbound {
    pub peer_id: PeerId,
    pub notes: Vec<Note>,
}

pub struct OutboundView {
    pub peer_id: PeerId,
    pub notes: Seq<NoteView>,
}

impl View for Outbound {
    type V = OutboundView;

    open spec fn view(&self) -> OutboundView {
        OutboundView { peer_id: self.peer_id, notes: note_views(self.notes@) }
    }
}

/// The views of a sequence of pushes, in order.
pub open spec fn outbound_views(out: Seq<Outbound>) -> Seq<OutboundView> {
    out.map_values(|o: Outbound| o@)
}

/// The epoch of the next own note: the time where that is above the last
/// epoch, else the last epoch and one; none where the last epoch is the
/// greatest there is.
pub open spec fn fresh_epoch(last: Option<u64>, now: u64) -> Option<u64> {
    match last {
        None => Some(now),
        Some(l) => if now > l {
            Some(now)
        } else if l < u64::MAX {
            Some((l + 1) as u64)
        } else {
            None
        },
    }
}

/// Computes `fresh_epoch`.
pub fn next_epoch(last: Option<u64>, now: u64) -> (r: Option<u64>)
    ensures
        r == fresh_epoch(last, now),
        r is Some && last is Some ==> r.unwrap() > last.unwrap(),
        r is Some ==> r.unwrap() >= now,
{
    match last {
        None => Some(now),
        Some(l) => {
            if now > l {
                Some(now)
            } else if l < u64::MAX {
                Some(l + 1)
            } else {
                None
            }
        },
    }
}

/// One update for every seed peer, in the table's order, with the addresses
/// it was configured with.
pub open spec fn bootstrap_updates(ids: Seq<PeerId>, infos: Seq<PeerInfoView>) -> Seq<AddressUpdateView> {
    Seq::new(ids.len(), |i: int| AddressUpdateView { peer_id: ids[i], addrs: infos[i].addrs })
}

/// The neighbours after `id` went: the others, in their order.
pub open spec fn without(ids: Seq<PeerId>, id: PeerId) -> Seq<PeerId> {
    match slot(ids, id) {
        Some(i) => ids.remove(i),
        None => ids,
    }
}

/// The neighbours after `id` came: as before where it was one already, else
/// with `id` at the end.
pub open spec fn with(ids: Seq<PeerId>, id: PeerId) -> Seq<PeerId> {
    match slot(ids, id) {
        Some(i) => ids,
        None => ids.push(id),
    }
}

/// What the arrival of one note does to the entries of the other peers,
/// and the update that is reported, if any. A note that is not verified, is
/// about this node, or is not newer than the stored one changes nothing and
/// reports nothing.
pub open spec fn ingest_spec(
    self_id: PeerId,
    seeds: SeedPeers,
    entries: Seq<EntryView>,
    note: NoteView,
    trust: TrustStore,
    signature_ok: bool,
    now: u64,
) -> (Seq<EntryView>, Option<AddressUpdateView>) {
    match verify_spec(note, trust.trusts(note.peer_id), signature_ok) {
        Err(_) => (entries, None),
        Ok(info) => {
            let ids = entry_ids(entries);
            let stored = match lookup(ids, entries, note.peer_id) {
                Some(e) => Some(e.epoch),
                None => None,
            };
            match decide(self_id, stored, note.peer_id, info.epoch) {
                Decision::Accept => (
                    upsert(
                        ids,
                        entries,
                        note.peer_id,
                        EntryView { peer_id: note.peer_id, note, epoch: info.epoch, last_refresh: now },
                    ).1,
                    Some(
                        AddressUpdateView {
                            peer_id: note.peer_id,
                            addrs: address_set(info.addrs, seeds.info_of(note.peer_id)),
                        },
                    ),
                ),
                _ => (entries, None),
            }
        },
    }
}

/// Whether the signature of the note at place `i` was found to fit: a note
/// without an answer counts as one whose signature does not fit.
pub open spec fn ok_at(oks: Seq<bool>, i: int) -> bool {
    0 <= i < oks.len() && oks[i]
}

/// What the arrival of a message does: its notes are taken one by one, in
/// order, each on the state that the one before it left.
pub open spec fn ingest_all(
    self_id: PeerId,
    seeds: SeedPeers,
    entries: Seq<EntryView>,
    notes: Seq<NoteView>,
    trust: TrustStore,
    oks: Seq<bool>,
    now: u64,
) -> (Seq<EntryView>, Seq<AddressUpdateView>)
    decreases notes.len(),
{
    if notes.len() == 0 {
        (entries, Seq::empty())
    } else {
        let before = ingest_all(self_id, seeds, entries, notes.drop_last(), trust, oks, now);
        let step = ingest_spec(
            self_id,
            seeds,
            before.0,
            notes.last(),
            trust,
            ok_at(oks, notes.len() - 1),
            now,
        );
        (
            step.0,
            match step.1 {
                Some(u) => before.1.push(u),
                None => before.1,
            },
        )
    }
}

/// The discovery engine of one node.
pub struct Discovery {
    store: KnowledgeStore,
    self_addrs: Vec<Address>,
    connected: Vec<PeerId>,
    ttl: u64,
    running: bool,
}

impl Discovery {
    /// The knowledge store.
    pub closed spec fn store(&self) -> KnowledgeStore {
        self.store
    }

    /// The addresses that this node states of itself.
    pub closed spec fn self_addrs(&self) -> Seq<Seq<u8>> {
        addr_views(self.self_addrs@)
    }

    /// The neighbours that are connected, in the order in which they came.
    pub closed spec fn connected(&self) -> Seq<PeerId> {
        self.connected@
    }

    /// How long an entry is kept without a newer note.
    pub closed spec fn ttl(&self) -> u64 {
        self.ttl
    }

    /// Whether the engine still serves events; once shut down it does not.
    pub closed spec fn running(&self) -> bool {
        self.running
    }

    /// The store is well-formed and no neighbour is held twice.
    pub open spec fn wf(&self) -> bool {
        self.store().wf() && self.connected().no_duplicates()
    }

    /// Everything but the entries of the other peers is as in `other`.
    pub open spec fn same_frame(&self, other: Discovery) -> bool {
        &&& self.store().self_id() == other.store().self_id()
        &&& self.store().own() == other.store().own()
        &&& self.store().seeds() == other.store().seeds()
        &&& self.self_addrs() == other.self_addrs()
        &&& self.connected() == other.connected()
        &&& self.ttl() == other.ttl()
        &&& self.running() == other.running()
    }

    /// A running engine that knows no peer and has no neighbour, together with
    /// the updates that are reported at once: one for every seed peer, with
    /// its configured addresses.
    pub fn new(self_id: PeerId, addrs: Vec<Address>, seeds: SeedPeers, ttl: u64) -> (r: (
        Discovery,
        Vec<AddressUpdate>,
    ))
        requires
            seeds.wf(),
        ensures
            r.0.wf(),
            r.0.running(),
            r.0.store().self_id() == self_id,
            r.0.store().own() is None,
            r.0.store().entries().len() == 0,
            r.0.store().seeds() == seeds,
            r.0.self_addrs() == addr_views(addrs@),
            r.0.connected().len() == 0,
            r.0.ttl() == ttl,
            update_views(r.1@) == bootstrap_updates(seeds.ids(), seeds.infos()),
            r.1@.len() == seeds.ids().len(),
    {
        let mut updates: Vec<AddressUpdate> = Vec::new();
        let mut i: usize = 0;
        let n: usize = seeds.len();
        while i < n
            invariant
                seeds.wf(),
                n == seeds.ids().len(),
                i <= n,
                update_views(updates@) == bootstrap_updates(seeds.ids(), seeds.infos()).subrange(
                    0,
                    i as int,
                ),
            decreases n - i,
        {
            let ghost before = update_views(updates@);
            let u = AddressUpdate { peer_id: seeds.id_at(i), addrs: seeds.addrs_at(i) };
            updates.push(u);
            i += 1;
            proof {
                assert(update_views(updates@) =~= before.push(u@));
                assert(update_views(updates@) =~= bootstrap_updates(
                    seeds.ids(),
                    seeds.infos(),
                ).subrange(0, i as int));
            }
        }
        proof {
            assert(update_views(updates@) =~= bootstrap_updates(seeds.ids(), seeds.infos()));
            assert(update_views(updates@).len() == updates@.len());
        }
        let d = Discovery {
            store: KnowledgeStore::new(self_id, seeds),
            self_addrs: addrs,
            connected: Vec::new(),
            ttl,
            running: true,
        };
        (d, updates)
    }

    /// Whether the engine still serves events.
    pub fn is_running(&self) -> (b: bool)
        ensures
            b == self.running(),
    {
        self.running
    }

    /// The knowledge store, to read.
    pub fn knowledge(&self) -> (s: &KnowledgeStore)
        ensures
            *s == self.store(),
    {
        &self.store
    }

    /// Stops the engine for good: from now on no event changes anything or
    /// has anything sent or reported.
    pub fn shut_down(&mut self)
        ensures
            !final(self).running(),
            final(self).store() == old(self).store(),
            final(self).self_addrs() == old(self).self_addrs(),
            final(self).connected() == old(self).connected(),
            final(self).ttl() == old(self).ttl(),
    {
        self.running = false;
    }

    fn neighbour_position(&self, id: PeerId) -> (r: Option<usize>)
        requires
            self.wf(),
        ensures
            match r {
                Some(i) => slot(self.connected(), id) == Some(i as int) && i < self.connected().len(),
                None => slot(self.connected(), id) is None,
            },
    {
        let mut i: usize = 0;
        while i < self.connected.len()
            invariant
                self.wf(),
                i <= self.connected.len(),
                forall|j: int| 0 <= j < i ==> self.connected()[j] != id,
            decreases self.connected.len() - i,
        {
            if self.connected[i] == id {
                proof {
                    lemma_slot_at(self.connected(), i as int);
                }
                return Some(i);
            }
            i += 1;
        }
        proof {
            lemma_slot_absent(self.connected(), id);
        }
        None
    }

    /// A neighbour connected: it is pushed to from the next tick on. Nothing
    /// is sent now.
    pub fn on_new_peer(&mut self, peer_id: PeerId)
        requires
            old(self).wf(),
        ensures
            final(self).wf(),
            final(self).store() == old(self).store(),
            final(self).self_addrs() == old(self).self_addrs(),
            final(self).ttl() == old(self).ttl(),
            final(self).running() == old(self).running(),
            final(self).connected() == if old(self).running() {
                with(old(self).connected(), peer_id)
            } else {
                old(self).connected()
            },
    {
        if !self.running {
            return ;
        }
        match self.neighbour_position(peer_id) {
            Some(_) => {},
            None => {
                self.connected.push(peer_id);
            },
        }
    }

    /// A neighbour disconnected: it is no longer pushed to.
    pub fn on_lost_peer(&mut self, peer_id: PeerId)
        requires
            old(self).wf(),
        ensures
            final(self).wf(),
            final(self).store() == old(self).store(),
            final(self).self_addrs() == old(self).self_addrs(),
            final(self).ttl() == old(self).ttl(),
            final(self).running() == old(self).running(),
            final(self).connected() == if old(self).running() {
                without(old(self).connected(), peer_id)
            } else {
                old(self).connected()
            },
    {
        if !self.running {
            return ;
        }
        match self.neighbour_position(peer_id) {
            Some(i) => {
                proof {
                    lemma_remove_keeps_distinct(self.connected(), i as int);
                }
                self.connected.remove(i);
            },
            None => {},
        }
    }

    /// The statement that this node signs on a tick at `now`: its addresses
    /// at a fresh epoch. `None` where the engine is shut down or no epoch
    /// above the last one is left.
    pub fn tick_info(&self, now: u64) -> (r: Option<PeerInfo>)
        ensures
            match r {
                Some(info) => self.running() && fresh_epoch(self.own_epoch(), now) == Some(info.epoch)
                    && info@.addrs == self.self_addrs(),
                None => !self.running() || fresh_epoch(self.own_epoch(), now) is None,
            },
    {
        if !self.running {
            return None;
        }
        match next_epoch(self.store.own_epoch(), now) {
            Some(epoch) => Some(PeerInfo { epoch, addrs: copy_addrs(&self.self_addrs) }),
            None => None,
        }
    }

    /// The epoch of this node's own note, once it has built one.
    pub open spec fn own_epoch(&self) -> Option<u64> {
        match self.store().own() {
            Some(e) => Some(e.epoch),
            None => None,
        }
    }

    /// This node's own entry after a tick at `now` on which `signature` is
    /// the signature over the byte form of `tick_info(now)`.
    pub open spec fn own_after_tick(&self, now: u64, signature: Seq<u8>) -> Option<EntryView> {
        match fresh_epoch(self.own_epoch(), now) {
            Some(epoch) => Some(
                EntryView {
                    peer_id: self.store().self_id(),
                    note: note_of(
                        self.store().self_id(),
                        PeerInfoView { epoch, addrs: self.self_addrs() },
                        signature,
                        None,
                        Seq::empty(),
                    ),
                    epoch,
                    last_refresh: now,
                },
            ),
            None => self.store().own(),
        }
    }

    /// A tick: this node's own note is rebuilt at a fresh epoch with the
    /// given signature and stored, and every connected neighbour is pushed this
    /// note and the notes of all other known peers.
    pub fn on_tick(&mut self, now: u64, signature: Vec<u8>) -> (out: Vec<Outbound>)
        requires
            old(self).wf(),
        ensures
            final(self).wf(),
            final(self).store().self_id() == old(self).store().self_id(),
            final(self).store().entries() == old(self).store().entries(),
            final(self).store().seeds() == old(self).store().seeds(),
            final(self).self_addrs() == old(self).self_addrs(),
            final(self).connected() == old(self).connected(),
            final(self).ttl() == old(self).ttl(),
            final(self).running() == old(self).running(),
            epoch_le(old(self).own_epoch(), final(self).own_epoch()),
            old(self).running() ==> {
                &&& final(self).store().own() == old(self).own_after_tick(now, signature@)
                &&& fresh_epoch(old(self).own_epoch(), now) is Some && old(self).own_epoch() is Some
                    ==> final(self).own_epoch().unwrap() > old(self).own_epoch().unwrap()
                &&& outbound_views(out@) == Seq::new(
                    old(self).connected().len(),
                    |i: int|
                        OutboundView {
                            peer_id: old(self).connected()[i],
                            notes: snapshot(
                                final(self).store().own(),
                                final(self).store().entries(),
                                None,
                            ),
                        },
                )
            },
            !old(self).running() ==> out@.len() == 0 && final(self).store() == old(self).store(),
            old(self).running() ==> out@.len() == old(self).connected().len(),
    {
        let mut out: Vec<Outbound> = Vec::new();
        if !self.running {
            return out;
        }
        match next_epoch(self.store.own_epoch(), now) {
            Some(epoch) => {
                let info = PeerInfo { epoch, addrs: copy_addrs(&self.self_addrs) };
                let note = create_note(self.store.local_id(), &info, signature, None, Vec::new());
                self.store.set_own(note, epoch, now);
            },
            None => {},
        }
        let ghost pushes = Seq::new(
            self.connected().len(),
            |i: int|
                OutboundView {
                    peer_id: self.connected()[i],
                    notes: snapshot(self.store().own(), self.store().entries(), None),
                },
        );
        let mut i: usize = 0;
        while i < self.connected.len()
            invariant
                i <= self.connected.len(),
                pushes.len() == self.connected().len(),
                forall|j: int|
                    0 <= j < pushes.len() ==> pushes[j] == (OutboundView {
                        peer_id: self.connected()[j],
                        notes: snapshot(self.store().own(), self.store().entries(), None),
                    }),
                outbound_views(out@) == pushes.subrange(0, i as int),
            decreases self.connected.len() - i,
        {
            let ghost before = outbound_views(out@);
            let o = Outbound { peer_id: self.connected[i], notes: self.store.snapshot_for_gossip(None) };
            out.push(o);
            i += 1;
            proof {
                assert(outbound_views(out@) =~= before.push(o@));
                assert(outbound_views(out@) =~= pushes.subrange(0, i as int));
            }
        }
        proof {
            assert(outbound_views(out@) =~= pushes);
            assert(outbound_views(out@).len() == out@.len());
        }
        out
    }

    /// One note arrived: it is verified against the trust table as it is
    /// now, offered to the store, and where the store accepts it, the update to
    /// report comes back. `signature_ok` is the answer to the note's signature
    /// check.
    pub fn ingest(&mut self, record: Note, trust: &TrustStore, signature_ok: bool, now: u64) -> (r: Option<
        AddressUpdate,
    >)
        requires
            old(self).wf(),
            trust.wf(),
        ensures
            final(self).wf(),
            final(self).same_frame(*old(self)),
            old(self).running() ==> (
                final(self).store().entries(),
                match r {
                    Some(u) => Some(u@),
                    None => None,
                },
            ) == ingest_spec(
                old(self).store().self_id(),
                old(self).store().seeds(),
                old(self).store().entries(),
                record@,
                *trust,
                signature_ok,
                now,
            ),
            !old(self).running() ==> r is None && final(self).store().entries() == old(
                self).store().entries(),
            !trust.trusts(record.peer_id) || record.peer_id == old(self).store().self_id() ==> r is None
                && final(self).store().entries() == old(self).store().entries(),
            forall|id: PeerId|
                epoch_le(old(self).store().epoch_of(id), #[trigger] final(self).store().epoch_of(id)),
    {
        if !self.running {
            return None;
        }
        match verify(&record, trust, signature_ok) {
            Err(_) => None,
            Ok(info) => {
                let peer_id = record.peer_id;
                match self.store.try_accept(peer_id, &info, record, now) {
                    AcceptOutcome::Accepted(addrs) => Some(AddressUpdate { peer_id, addrs }),
                    _ => None,
                }
            },
        }
    }

    /// A message arrived: its notes are taken one by one, in order. A note
    /// that is not accepted does not stop the ones after it. `signature_ok`
    /// holds the answers to the notes' signature checks, in the notes' order.
    pub fn ingest_batch(&mut self, notes: &Vec<Note>, trust: &TrustStore, signature_ok: &Vec<bool>, now: u64) -> (updates:
        Vec<AddressUpdate>)
        requires
            old(self).wf(),
            trust.wf(),
        ensures
            final(self).wf(),
            final(self).same_frame(*old(self)),
            old(self).running() ==> (final(self).store().entries(), update_views(updates@))
                == ingest_all(
                old(self).store().self_id(),
                old(self).store().seeds(),
                old(self).store().entries(),
                note_views(notes@),
                *trust,
                signature_ok@,
                now,
            ),
            !old(self).running() ==> updates@.len() == 0 && final(self).store().entries() == old(
                self).store().entries(),
            forall|id: PeerId|
                epoch_le(old(self).store().epoch_of(id), #[trigger] final(self).store().epoch_of(id)),
    {
        let mut updates: Vec<AddressUpdate> = Vec::new();
        if !self.running {
            return updates;
        }
        let ghost self_id = self.store().self_id();
        let ghost seeds = self.store().seeds();
        let ghost start = self.store().entries();
        let mut i: usize = 0;
        proof {
            assert(note_views(notes@).subrange(0, 0) =~= Seq::<NoteView>::empty());
        }
        while i < notes.len()
            invariant
                self.wf(),
                trust.wf(),
                self.same_frame(*old(self)),
                self.running(),
                self_id == old(self).store().self_id(),
                seeds == old(self).store().seeds(),
                start == old(self).store().entries(),
                i <= notes.len(),
                (self.store().entries(), update_views(updates@)) == ingest_all(
                    self_id,
                    seeds,
                    start,
                    note_views(notes@).subrange(0, i as int),
                    *trust,
                    signature_ok@,
                    now,
                ),
                forall|id: PeerId|
                    epoch_le(old(self).store().epoch_of(id), #[trigger] self.store().epoch_of(id)),
            decreases notes.len() - i,
        {
            let ghost before = update_views(updates@);
            let ghost mid = *self;
            let ok = i < signature_ok.len() && signature_ok[i];
            let record = notes[i].duplicate();
            proof {
                let taken = note_views(notes@).subrange(0, i + 1);
                assert(taken.drop_last() =~= note_views(notes@).subrange(0, i as int));
                assert(taken.last() == record@);
                assert(ok == ok_at(signature_ok@, taken.len() - 1));
            }
            match self.ingest(record, trust, ok, now) {
                Some(u) => {
                    updates.push(u);
                    proof {
                        assert(update_views(updates@) =~= before.push(u@));
                    }
                },
                None => {},
            }
            proof {
                assert forall|id: PeerId|
                    epoch_le(
                        old(self).store().epoch_of(id),
                        #[trigger] self.store().epoch_of(id),
                    ) by {
                    assert(epoch_le(old(self).store().epoch_of(id), mid.store().epoch_of(id)));
                    assert(epoch_le(mid.store().epoch_of(id), self.store().epoch_of(id)));
                }
            }
            i += 1;
        }
        proof {
            assert(note_views(notes@).subrange(0, notes.len() as int) =~= note_views(notes@));
        }
        updates
    }

    /// Removes the entries of other peers that were last refreshed more than
    /// the time to live before `now`, and returns the identities removed.
    /// Nothing is reported for them.
    pub fn evict(&mut self, now: u64) -> (removed: Vec<PeerId>)
        requires
            old(self).wf(),
        ensures
            final(self).wf(),
            final(self).same_frame(*old(self)),
            old(self).running() ==> final(self).store().entries() == fresh_entries(
                old(self).store().entries(),
                now,
                old(self).ttl(),
            ) && removed@ == expired_ids(old(self).store().entries(), now, old(self).ttl()),
            !old(self).running() ==> removed@.len() == 0 && final(self).store().entries() == old(
                self).store().entries(),
    {
        if !self.running {
            return Vec::new();
        }
        self.store.evict_stale(now, self.ttl)
    }
}

/// Trust is asked for when a note arrives, not before and not after: while
/// its peer is not trusted a note changes nothing and reports nothing, and the
/// same note, delivered again once the peer is trusted, is decided like any
/// other note.
pub proof fn lemma_trust_gating(
    self_id: PeerId,
    seeds: SeedPeers,
    entries: Seq<EntryView>,
    note: NoteView,
    before: TrustStore,
    after: TrustStore,
    signature_ok: bool,
    now: u64,
)
    requires
        !before.trusts(note.peer_id),
        after.trusts(note.peer_id),
    ensures
        ingest_spec(self_id, seeds, entries, note, before, signature_ok, now) == (
            entries,
            None::<AddressUpdateView>,
        ),
        verify_spec(note, true, signature_ok) is Ok && note.peer_id != self_id && lookup(
            entry_ids(entries),
            entries,
            note.peer_id,
        ) is None ==> ingest_spec(self_id, seeds, entries, note, after, signature_ok, now).1 is Some,
{
}

/// A note about this node itself, arriving from a neighbour, changes nothing
/// and reports nothing, whoever signed it.
pub proof fn lemma_self_isolation(
    self_id: PeerId,
    seeds: SeedPeers,
    entries: Seq<EntryView>,
    note: NoteView,
    trust: TrustStore,
    signature_ok: bool,
    now: u64,
)
    requires
        note.peer_id == self_id,
    ensures
        ingest_spec(self_id, seeds, entries, note, trust, signature_ok, now) == (
            entries,
            None::<AddressUpdateView>,
        ),
{
}

/// Two notes of one seed peer, the second newer than the first, both
/// verified: the report on the first is its addresses and the configured
/// ones, and the report on the second is its own addresses and the configured
/// ones, with nothing of the first.
pub proof fn lemma_successive_reports(
    self_id: PeerId,
    seeds: SeedPeers,
    entries: Seq<EntryView>,
    first: NoteView,
    second: NoteView,
    trust: TrustStore,
    now: u64,
    later: u64,
)
    requires
        entry_ids(entries).no_duplicates(),
        first.peer_id == second.peer_id,
        first.peer_id != self_id,
        trust.trusts(first.peer_id),
        seeds.info_of(first.peer_id) is Some,
        verify_spec(first, true, true) is Ok,
        verify_spec(second, true, true) is Ok,
        verify_spec(first, true, true).unwrap().epoch < verify_spec(second, true, true).unwrap().epoch,
        ingest_spec(self_id, seeds, entries, first, trust, true, now).1 is Some,
    ensures
        ({
            let a = verify_spec(first, true, true).unwrap().addrs;
            let b = verify_spec(second, true, true).unwrap().addrs;
            let configured = seeds.info_of(first.peer_id).unwrap().addrs;
            let one = ingest_spec(self_id, seeds, entries, first, trust, true, now);
            let two = ingest_spec(self_id, seeds, one.0, second, trust, true, later);
            &&& one.1 == Some(AddressUpdateView { peer_id: first.peer_id, addrs: a + configured })
            &&& two.1 == Some(AddressUpdateView { peer_id: first.peer_id, addrs: b + configured })
        }),
{
    let id = first.peer_id;
    let info = verify_spec(first, true, true).unwrap();
    let ids = entry_ids(entries);
    let stored = EntryView { peer_id: id, note: first, epoch: info.epoch, last_refresh: now };
    let after = upsert(ids, entries, id, stored);
    lemma_upsert(ids, entries, id, stored);
    lemma_slot_valid(ids, id);
    assert(entry_ids(after.1) =~= after.0);
}

/// The epoch that `entries` hold for `id`, if they hold one.
pub open spec fn epoch_in(entries: Seq<EntryView>, id: PeerId) -> Option<u64> {
    match lookup(entry_ids(entries), entries, id) {
        Some(e) => Some(e.epoch),
        None => None,
    }
}

/// The arrival of one note, whatever it is, lowers no peer's stored epoch and
/// leaves at most one entry for a peer; and a verified note whose epoch is not
/// above the stored one of its peer changes nothing and reports nothing.
pub proof fn lemma_ingest_monotone(
    self_id: PeerId,
    seeds: SeedPeers,
    entries: Seq<EntryView>,
    note: NoteView,
    trust: TrustStore,
    signature_ok: bool,
    now: u64,
    id: PeerId,
)
    requires
        entry_ids(entries).no_duplicates(),
    ensures
        entry_ids(ingest_spec(self_id, seeds, entries, note, trust, signature_ok, now).0).no_duplicates(),
        epoch_le(
            epoch_in(entries, id),
            epoch_in(ingest_spec(self_id, seeds, entries, note, trust, signature_ok, now).0, id),
        ),
        match verify_spec(note, trust.trusts(note.peer_id), signature_ok) {
            Ok(info) => epoch_in(entries, note.peer_id) is Some && info.epoch <= epoch_in(
                entries,
                note.peer_id,
            ).unwrap() ==> ingest_spec(self_id, seeds, entries, note, trust, signature_ok, now) == (
                entries,
                None::<AddressUpdateView>,
            ),
            Err(_) => true,
        },
{
    match verify_spec(note, trust.trusts(note.peer_id), signature_ok) {
        Ok(info) => {
            let ids = entry_ids(entries);
            let offered = EntryView {
                peer_id: note.peer_id,
                note,
                epoch: info.epoch,
                last_refresh: now,
            };
            let after = upsert(ids, entries, note.peer_id, offered);
            lemma_upsert(ids, entries, note.peer_id, offered);
            lemma_slot_valid(ids, note.peer_id);
            assert(entry_ids(after.1) =~= after.0);
        },
        Err(_) => {},
    }
}

/// The arrival of any run of notes, in any order, lowers no peer's stored
/// epoch.
pub proof fn lemma_ingest_all_monotone(
    self_id: PeerId,
    seeds: SeedPeers,
    entries: Seq<EntryView>,
    notes: Seq<NoteView>,
    trust: TrustStore,
    oks: Seq<bool>,
    now: u64,
    id: PeerId,
)
    requires
        entry_ids(entries).no_duplicates(),
    ensures
        entry_ids(ingest_all(self_id, seeds, entries, notes, trust, oks, now).0).no_duplicates(),
        epoch_le(
            epoch_in(entries, id),
            epoch_in(ingest_all(self_id, seeds, entries, notes, trust, oks, now).0, id),
        ),
    decreases notes.len(),
{
    if notes.len() > 0 {
        lemma_ingest_all_monotone(self_id, seeds, entries, notes.drop_last(), trust, oks, now, id);
        let before = ingest_all(self_id, seeds, entries, notes.drop_last(), trust, oks, now);
        lemma_ingest_monotone(
            self_id,
            seeds,
            before.0,
            notes.last(),
            trust,
            ok_at(oks, notes.len() - 1),
            now,
            id,
        );
    }
}

} // verus!
