//! The knowledge store: the newest believed note of every other peer, this
//! node's own note, and the configured seed peers.

use crate::table::{lemma_remove_keeps_distinct, lemma_slot_absent, lemma_slot_at, lemma_slot_valid, lemma_upsert, lookup, slot, upsert};
use crate::types::{addr_views, append_addrs, copy_addrs, note_views, Address, Note, NoteView, PeerId, PeerInfo, PeerInfoView};
use vstd::prelude::*;

verus! {

struct SeedPeer {
    peer_id: PeerId,
    info: PeerInfo,
}

/// The configured seed peers, each with the statement it was configured with.
pub struct SeedPeers {
    entries: Vec<SeedPeer>,
}

impl SeedPeers {
    /// The seed identities, in the order in which they were first configured.
    pub closed spec fn ids(&self) -> Seq<PeerId> {
        self.entries@.map_values(|e: SeedPeer| e.peer_id)
    }

    /// The configured statements, in the same order.
    pub closed spec fn infos(&self) -> Seq<PeerInfoView> {
        self.entries@.map_values(|e: SeedPeer| e.info@)
    }

    /// No identity is configured twice.
    pub open spec fn wf(&self) -> bool {
        self.ids().no_duplicates() && self.ids().len() == self.infos().len()
    }

    /// The statement configured for `id`, if `id` is a seed peer.
    pub open spec fn info_of(&self, id: PeerId) -> Option<PeerInfoView> {
        lookup(self.ids(), self.infos(), id)
    }

    pub fn new() -> (t: SeedPeers)
        ensures
            t.wf(),
            t.ids().len() == 0,
            t.infos().len() == 0,
    {
        SeedPeers { entries: Vec::new() }
    }

    fn position(&self, id: PeerId) -> (r: Option<usize>)
        requires
            self.wf(),
        ensures
            match r {
                Some(i) => slot(self.ids(), id) == Some(i as int) && i < self.entries@.len(),
                None => slot(self.ids(), id) is None,
            },
    {
        let mut i: usize = 0;
        while i < self.entries.len()
            invariant
                self.wf(),
                i <= self.entries.len(),
                forall|j: int| 0 <= j < i ==> self.ids()[j] != id,
            decreases self.entries.len() - i,
        {
            if self.entries[i].peer_id == id {
                proof {
                    lemma_slot_at(self.ids(), i as int);
                }
                return Some(i);
            }
            i += 1;
        }
        proof {
            lemma_slot_absent(self.ids(), id);
        }
        None
    }

    /// Configures `id` with `info`, or replaces what it was configured with.
    pub fn insert(&mut self, id: PeerId, info: PeerInfo)
        requires
            old(self).wf(),
        ensures
            final(self).wf(),
            (final(self).ids(), final(self).infos()) == upsert(
                old(self).ids(),
                old(self).infos(),
                id,
                info@,
            ),
            final(self).info_of(id) == Some(info@),
            forall|other: PeerId| other != id ==> final(self).info_of(other) == old(self).info_of(other),
    {
        let ghost iv = info@;
        proof {
            lemma_upsert(self.ids(), self.infos(), id, iv);
        }
        match self.position(id) {
            Some(i) => {
                self.entries.set(i, SeedPeer { peer_id: id, info });
                proof {
                    lemma_slot_valid(old(self).ids(), id);
                    assert(self.ids() =~= old(self).ids());
                    assert(self.infos() =~= old(self).infos().update(i as int, iv));
                }
            },
            None => {
                self.entries.push(SeedPeer { peer_id: id, info });
                proof {
                    assert(self.ids() =~= old(self).ids().push(id));
                    assert(self.infos() =~= old(self).infos().push(iv));
                }
            },
        }
    }

    /// How many seed peers are configured.
    pub fn len(&self) -> (n: usize)
        ensures
            n == self.ids().len(),
            n == self.infos().len(),
    {
        self.entries.len()
    }

    /// The identity of the seed peer at place `i`.
    pub fn id_at(&self, i: usize) -> (id: PeerId)
        requires
            i < self.ids().len(),
        ensures
            id == self.ids()[i as int],
    {
        self.entries[i].peer_id
    }

    /// A copy of the addresses configured for the seed peer at place `i`.
    pub fn addrs_at(&self, i: usize) -> (addrs: Vec<Address>)
        requires
            i < self.infos().len(),
        ensures
            addr_views(addrs@) == self.infos()[i as int].addrs,
    {
        copy_addrs(&self.entries[i].info.addrs)
    }
}

/// The addresses to report for a peer whose note states `addrs`: these, then
/// the configured ones where the peer is a seed peer. Nothing of what was
/// reported before enters.
pub open spec fn address_set(addrs: Seq<Seq<u8>>, seed: Option<PeerInfoView>) -> Seq<Seq<u8>> {
    match seed {
        Some(s) => addrs + s.addrs,
        None => addrs,
    }
}

struct Entry {
    peer_id: PeerId,
    note: Note,
    epoch: u64,
    last_refresh: u64,
}

/// What is known of one peer: its newest believed note, the epoch of that
/// note, and when it was accepted.
pub struct EntryView {
    pub peer_id: PeerId,
    pub note: NoteView,
    pub epoch: u64,
    pub last_refresh: u64,
}

impl View for Entry {
    type V = EntryView;

    closed spec fn view(&self) -> EntryView {
        EntryView {
            peer_id: self.peer_id,
            note: self.note@,
            epoch: self.epoch,
            last_refresh: self.last_refresh,
        }
    }
}

/// What became of a note that was offered to the store.
#[derive(Clone, Debug, PartialEq, Eq)]
pub enum AcceptOutcome {
    /// The note is now the stored one; these addresses are to be reported.
    Accepted(Vec<Address>),
    /// The stored note of that peer is as new or newer.
    Stale,
    /// The note is about this node itself.
    SamePeerAsSelf,
}

/// The three ways in which an offered note is decided.
pub enum Decision {
    Accept,
    Stale,
    SamePeerAsSelf,
}

/// How a note of `peer_id` with `epoch` is decided by a node `self_id` that
/// holds `stored` as that peer's epoch.
pub open spec fn decide(self_id: PeerId, stored: Option<u64>, peer_id: PeerId, epoch: u64) -> Decision {
    if peer_id == self_id {
        Decision::SamePeerAsSelf
    } else if stored is Some && stored.unwrap() >= epoch {
        Decision::Stale
    } else {
        Decision::Accept
    }
}

/// `a` is unknown, or `b` is known and not below it.
pub open spec fn epoch_le(a: Option<u64>, b: Option<u64>) -> bool {
    match a {
        None => true,
        Some(x) => b is Some && x <= b.unwrap(),
    }
}

/// An entry that was last refreshed more than `ttl` before `now`.
pub open spec fn expired(e: EntryView, now: u64, ttl: u64) -> bool {
    e.last_refresh + ttl < now
}

/// The entries that are not expired, in their order.
pub open spec fn fresh_entries(entries: Seq<EntryView>, now: u64, ttl: u64) -> Seq<EntryView>
    decreases entries.len(),
{
    if entries.len() == 0 {
        Seq::empty()
    } else if expired(entries.last(), now, ttl) {
        fresh_entries(entries.drop_last(), now, ttl)
    } else {
        fresh_entries(entries.drop_last(), now, ttl).push(entries.last())
    }
}

/// The identities of the entries that are expired, in their order.
pub open spec fn expired_ids(entries: Seq<EntryView>, now: u64, ttl: u64) -> Seq<PeerId>
    decreases entries.len(),
{
    if entries.len() == 0 {
        Seq::empty()
    } else if expired(entries.last(), now, ttl) {
        expired_ids(entries.drop_last(), now, ttl).push(entries.last().peer_id)
    } else {
        expired_ids(entries.drop_last(), now, ttl)
    }
}

/// The notes of the entries, in their order, without that of `exclude`.
pub open spec fn notes_except(entries: Seq<EntryView>, exclude: Option<PeerId>) -> Seq<NoteView>
    decreases entries.len(),
{
    if entries.len() == 0 {
        Seq::empty()
    } else if exclude == Some(entries.last().peer_id) {
        notes_except(entries.drop_last(), exclude)
    } else {
        notes_except(entries.drop_last(), exclude).push(entries.last().note)
    }
}

/// What is pushed to a neighbour: this node's own note, where it has one,
/// then the notes of the other peers.
pub open spec fn snapshot(own: Option<EntryView>, entries: Seq<EntryView>, exclude: Option<PeerId>) -> Seq<
    NoteView,
> {
    match own {
        Some(e) => seq![e.note] + notes_except(entries, exclude),
        None => notes_except(entries, exclude),
    }
}

/// The identities of the entries, in their order.
pub open spec fn entry_ids(entries: Seq<EntryView>) -> Seq<PeerId> {
    entries.map_values(|e: EntryView| e.peer_id)
}

/// The newest believed note of every peer but this node, this node's own
/// note, and the seed peers.
pub struct KnowledgeStore {
    self_id: PeerId,
    own: Option<Entry>,
    entries: Vec<Entry>,
    seeds: SeedPeers,
}

impl KnowledgeStore {
    /// This node's identity.
    pub closed spec fn self_id(&self) -> PeerId {
        self.self_id
    }

    /// This node's own entry, once it has built a note.
    pub closed spec fn own(&self) -> Option<EntryView> {
        match self.own {
            Some(e) => Some(e@),
            None => None,
        }
    }

    /// The entries of the other peers, in the order in which the peers were
    /// first accepted.
    pub closed spec fn entries(&self) -> Seq<EntryView> {
        self.entries@.map_values(|e: Entry| e@)
    }

    /// The seed peers.
    pub closed spec fn seeds(&self) -> SeedPeers {
        self.seeds
    }

    /// The identities of the other peers that are known.
    pub open spec fn ids(&self) -> Seq<PeerId> {
        entry_ids(self.entries())
    }

    /// At most one entry for a peer, none for this node among the others, and
    /// this node's own entry under its identity.
    pub open spec fn wf(&self) -> bool {
        &&& self.ids().no_duplicates()
        &&& !self.ids().contains(self.self_id())
        &&& self.seeds().wf()
        &&& match self.own() {
            Some(e) => e.peer_id == self.self_id(),
            None => true,
        }
    }

    /// The entry of `id`, if `id` is another peer that is known.
    pub open spec fn entry_of(&self, id: PeerId) -> Option<EntryView> {
        lookup(self.ids(), self.entries(), id)
    }

    /// The epoch stored for `id`, if `id` is another peer that is known.
    pub open spec fn epoch_of(&self, id: PeerId) -> Option<u64> {
        match self.entry_of(id) {
            Some(e) => Some(e.epoch),
            None => None,
        }
    }

    /// A store that knows no peer yet.
    pub fn new(self_id: PeerId, seeds: SeedPeers) -> (s: KnowledgeStore)
        requires
            seeds.wf(),
        ensures
            s.wf(),
            s.self_id() == self_id,
            s.own() is None,
            s.entries().len() == 0,
            s.seeds() == seeds,
    {
        let s = KnowledgeStore { self_id, own: None, entries: Vec::new(), seeds };
        proof {
            assert(s.ids() =~= Seq::<PeerId>::empty());
        }
        s
    }

    fn position(&self, id: PeerId) -> (r: Option<usize>)
        requires
            self.wf(),
        ensures
            match r {
                Some(i) => slot(self.ids(), id) == Some(i as int) && i < self.entries@.len(),
                None => slot(self.ids(), id) is None,
            },
    {
        let mut i: usize = 0;
        while i < self.entries.len()
            invariant
                self.wf(),
                i <= self.entries.len(),
                forall|j: int| 0 <= j < i ==> self.ids()[j] != id,
            decreases self.entries.len() - i,
        {
            if self.entries[i].peer_id == id {
                proof {
                    lemma_slot_at(self.ids(), i as int);
                }
                return Some(i);
            }
            i += 1;
        }
        proof {
            lemma_slot_absent(self.ids(), id);
        }
        None
    }

    /// This node's identity.
    pub fn local_id(&self) -> (id: PeerId)
        ensures
            id == self.self_id(),
    {
        self.self_id
    }

    /// How many other peers are known.
    pub fn len(&self) -> (n: usize)
        ensures
            n == self.entries().len(),
    {
        self.entries.len()
    }

    /// The seed peers.
    pub fn seed_peers(&self) -> (s: &SeedPeers)
        ensures
            *s == self.seeds(),
    {
        &self.seeds
    }

    /// The epoch stored for `id`, if `id` is another peer that is known.
    pub fn stored_epoch(&self, id: PeerId) -> (r: Option<u64>)
        requires
            self.wf(),
        ensures
            r == self.epoch_of(id),
    {
        match self.position(id) {
            Some(i) => Some(self.entries[i].epoch),
            None => None,
        }
    }

    /// The epoch of this node's own note, once it has built one.
    pub fn own_epoch(&self) -> (r: Option<u64>)
        ensures
            r == match self.own() {
                Some(e) => Some(e.epoch),
                None => None,
            },
    {
        match &self.own {
            Some(e) => Some(e.epoch),
            None => None,
        }
    }

    /// The addresses to report for `peer_id` on a note that states
    /// `peer_info`: the stated ones, then the configured ones where the peer is
    /// a seed peer.
    pub fn address_set_for(&self, peer_id: PeerId, peer_info: &PeerInfo) -> (addrs: Vec<Address>)
        requires
            self.wf(),
        ensures
            addr_views(addrs@) == address_set(peer_info@.addrs, self.seeds().info_of(peer_id)),
    {
        let mut addrs = copy_addrs(&peer_info.addrs);
        match self.seeds.position(peer_id) {
            Some(i) => {
                append_addrs(&mut addrs, &self.seeds.entries[i].info.addrs);
            },
            None => {},
        }
        addrs
    }

    /// Makes `note` this node's own note, built at `epoch` and stored at `now`.
    pub fn set_own(&mut self, note: Note, epoch: u64, now: u64)
        requires
            old(self).wf(),
        ensures
            final(self).wf(),
            final(self).self_id() == old(self).self_id(),
            final(self).entries() == old(self).entries(),
            final(self).seeds() == old(self).seeds(),
            final(self).own() == Some(
                EntryView { peer_id: old(self).self_id(), note: note@, epoch, last_refresh: now },
            ),
    {
        self.own = Some(Entry { peer_id: self.self_id, note, epoch, last_refresh: now });
    }

    /// Offers a verified note to the store. A note about this node itself
    /// changes nothing; so does one whose epoch is not above the stored one of
    /// that peer. Any other replaces what was stored for the peer, and the
    /// addresses to report come back.
    pub fn try_accept(&mut self, peer_id: PeerId, peer_info: &PeerInfo, record: Note, now: u64) -> (outcome:
        AcceptOutcome)
        requires
            old(self).wf(),
        ensures
            final(self).wf(),
            final(self).self_id() == old(self).self_id(),
            final(self).own() == old(self).own(),
            final(self).seeds() == old(self).seeds(),
            match decide(old(self).self_id(), old(self).epoch_of(peer_id), peer_id, peer_info.epoch) {
                Decision::Accept => (match outcome {
                    AcceptOutcome::Accepted(addrs) => addr_views(addrs@) == address_set(
                        peer_info@.addrs,
                        old(self).seeds().info_of(peer_id),
                    ),
                    _ => false,
                }) && final(self).entries() == upsert(
                    old(self).ids(),
                    old(self).entries(),
                    peer_id,
                    EntryView { peer_id, note: record@, epoch: peer_info.epoch, last_refresh: now },
                ).1 && final(self).epoch_of(peer_id) == Some(peer_info.epoch),
                Decision::Stale => outcome == AcceptOutcome::Stale && final(self).entries() == old(self).entries(),
                Decision::SamePeerAsSelf => outcome == AcceptOutcome::SamePeerAsSelf && final(self).entries() == old(self).entries(),
            },
            forall|id: PeerId| epoch_le(old(self).epoch_of(id), #[trigger] final(self).epoch_of(id)),
    {
        if peer_id == self.self_id {
            return AcceptOutcome::SamePeerAsSelf;
        }
        let at = self.position(peer_id);
        match at {
            Some(i) => {
                if self.entries[i].epoch >= peer_info.epoch {
                    return AcceptOutcome::Stale;
                }
            },
            None => {},
        }
        let addrs = self.address_set_for(peer_id, peer_info);
        let ghost ev = EntryView { peer_id, note: record@, epoch: peer_info.epoch, last_refresh: now };
        let entry = Entry { peer_id, note: record, epoch: peer_info.epoch, last_refresh: now };
        proof {
            lemma_upsert(self.ids(), self.entries(), peer_id, ev);
            lemma_slot_valid(self.ids(), peer_id);
        }
        match at {
            Some(i) => {
                self.entries.set(i, entry);
                proof {
                    assert(self.entries() =~= old(self).entries().update(i as int, ev));
                    assert(self.ids() =~= old(self).ids());
                }
            },
            None => {
                self.entries.push(entry);
                proof {
                    assert(self.entries() =~= old(self).entries().push(ev));
                    assert(self.ids() =~= old(self).ids().push(peer_id));
                }
            },
        }
        AcceptOutcome::Accepted(addrs)
    }

    /// Removes every entry of another peer that was last refreshed more than
    /// `ttl` before `now`, and returns the identities removed. This node's own
    /// entry stays.
    pub fn evict_stale(&mut self, now: u64, ttl: u64) -> (removed: Vec<PeerId>)
        requires
            old(self).wf(),
        ensures
            final(self).wf(),
            final(self).self_id() == old(self).self_id(),
            final(self).own() == old(self).own(),
            final(self).seeds() == old(self).seeds(),
            final(self).entries() == fresh_entries(old(self).entries(), now, ttl),
            removed@ == expired_ids(old(self).entries(), now, ttl),
    {
        let ghost orig = self.entries();
        let ghost mut scanned: int = 0;
        let mut removed: Vec<PeerId> = Vec::new();
        let mut i: usize = 0;
        proof {
            assert(orig.subrange(0, 0) =~= Seq::<EntryView>::empty());
            assert(orig.skip(0) =~= orig);
            assert(self.entries() =~= fresh_entries(orig.subrange(0, 0), now, ttl) + orig.skip(0));
        }
        while i < self.entries.len()
            invariant
                self.wf(),
                self.self_id() == old(self).self_id(),
                self.own() == old(self).own(),
                self.seeds() == old(self).seeds(),
                orig == old(self).entries(),
                0 <= scanned <= orig.len(),
                self.entries() == fresh_entries(orig.subrange(0, scanned), now, ttl) + orig.skip(
                    scanned,
                ),
                i == fresh_entries(orig.subrange(0, scanned), now, ttl).len(),
                removed@ == expired_ids(orig.subrange(0, scanned), now, ttl),
            decreases orig.len() - scanned,
        {
            let ghost cur = self.entries();
            let ghost kept = fresh_entries(orig.subrange(0, scanned), now, ttl);
            proof {
                assert(cur.len() == kept.len() + (orig.len() - scanned));
                assert(cur[i as int] == orig.skip(scanned)[0]);
                assert(orig.subrange(0, scanned + 1).drop_last() =~= orig.subrange(0, scanned));
                assert(orig.subrange(0, scanned + 1).last() == orig[scanned]);
            }
            let last_refresh: u64 = self.entries[i].last_refresh;
            if now > last_refresh && now - last_refresh > ttl {
                proof {
                    lemma_remove_keeps_distinct(self.ids(), i as int);
                }
                let gone = self.entries.remove(i);
                removed.push(gone.peer_id);
                proof {
                    assert(self.entries() =~= cur.remove(i as int));
                    assert(self.ids() =~= entry_ids(cur).remove(i as int));
                    assert(cur.remove(i as int) =~= kept + orig.skip(scanned + 1));
                    scanned = scanned + 1;
                }
            } else {
                proof {
                    assert(cur =~= kept.push(orig[scanned]) + orig.skip(scanned + 1));
                    scanned = scanned + 1;
                }
                i += 1;
            }
        }
        proof {
            assert(scanned == orig.len());
            assert(orig.subrange(0, scanned) =~= orig);
            assert(self.entries() =~= fresh_entries(orig, now, ttl));
        }
        removed
    }

    /// A copy of what is pushed to a neighbour: this node's own note, where it
    /// has one, then the notes of the other peers in the store's order, that
    /// of `exclude` left out.
    pub fn snapshot_for_gossip(&self, exclude: Option<PeerId>) -> (notes: Vec<Note>)
        ensures
            note_views(notes@) == snapshot(self.own(), self.entries(), exclude),
    {
        let mut notes: Vec<Note> = Vec::new();
        match &self.own {
            Some(e) => {
                notes.push(e.note.duplicate());
            },
            None => {},
        }
        let ghost head = note_views(notes@);
        let mut i: usize = 0;
        proof {
            assert(self.entries().subrange(0, 0) =~= Seq::<EntryView>::empty());
            assert(note_views(notes@) =~= head + notes_except(
                self.entries().subrange(0, 0),
                exclude,
            ));
            match self.own() {
                Some(e) => {
                    assert(head =~= seq![e.note]);
                },
                None => {
                    assert(head =~= Seq::<NoteView>::empty());
                },
            }
        }
        while i < self.entries.len()
            invariant
                i <= self.entries.len(),
                note_views(notes@) == head + notes_except(
                    self.entries().subrange(0, i as int),
                    exclude,
                ),
            decreases self.entries.len() - i,
        {
            let ghost before = note_views(notes@);
            let ghost done = self.entries().subrange(0, i as int);
            proof {
                assert(self.entries().subrange(0, i + 1).drop_last() =~= done);
                assert(self.entries().subrange(0, i + 1).last() == self.entries()[i as int]);
            }
            let e = &self.entries[i];
            let skip = match exclude {
                Some(x) => x == e.peer_id,
                None => false,
            };
            if !skip {
                let n = e.note.duplicate();
                notes.push(n);
                proof {
                    assert(note_views(notes@) =~= before.push(n@));
                    assert(before.push(n@) =~= head + notes_except(done, exclude).push(n@));
                }
            }
            i += 1;
        }
        proof {
            assert(self.entries().subrange(0, self.entries.len() as int) =~= self.entries());
            match self.own() {
                Some(e) => {},
                None => {
                    assert(head + notes_except(self.entries(), exclude) =~= notes_except(
                        self.entries(),
                        exclude,
                    ));
                },
            }
        }
        notes
    }
}

/// The stored epoch of a peer never falls: whatever note is offered, the epoch
/// that the table holds for any peer afterwards is not below the one before,
/// and a note whose epoch is not above the stored one is stale.
pub proof fn lemma_monotonic_acceptance(
    self_id: PeerId,
    entries: Seq<EntryView>,
    offered: EntryView,
    other: PeerId,
)
    requires
        entry_ids(entries).no_duplicates(),
        offered.peer_id != self_id,
    ensures
        ({
            let ids = entry_ids(entries);
            let stored = lookup(ids, entries, offered.peer_id);
            let stored_epoch = match stored {
                Some(e) => Some(e.epoch),
                None => None,
            };
            let after = upsert(ids, entries, offered.peer_id, offered);
            &&& stored is Some && offered.epoch <= stored.unwrap().epoch ==> decide(
                self_id,
                stored_epoch,
                offered.peer_id,
                offered.epoch,
            ) is Stale
            &&& decide(self_id, stored_epoch, offered.peer_id, offered.epoch) is Accept ==> match lookup(
                ids,
                entries,
                other,
            ) {
                Some(e) => lookup(after.0, after.1, other) is Some && e.epoch <= lookup(
                    after.0,
                    after.1,
                    other,
                ).unwrap().epoch,
                None => true,
            }
        }),
{
    lemma_upsert(entry_ids(entries), entries, offered.peer_id, offered);
}

/// What is reported for a seed peer is the addresses of the note at hand and
/// the configured ones: the addresses `a` of an earlier note are not in the
/// report on a later note with addresses `b`.
pub proof fn lemma_report_not_cumulative(seed: PeerInfoView, a: Seq<Seq<u8>>, b: Seq<Seq<u8>>)
    ensures
        address_set(a, Some(seed)) == a + seed.addrs,
        address_set(b, Some(seed)) == b + seed.addrs,
        a.len() > 0 ==> address_set(b, Some(seed)) != a + b + seed.addrs,
{
    if a.len() > 0 {
        assert((a + b + seed.addrs).len() != (b + seed.addrs).len());
    }
}

} // verus!
