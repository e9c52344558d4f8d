//! The values that discovery exchanges and stores, with their mathematical views.

use vstd::prelude::*;

verus! {

/// The identity of a peer: an opaque value of 256 bits.
#[derive(Clone, Copy, Debug, PartialEq, Eq, Structural, Hash)]
pub struct PeerId {
    pub hi: u128,
    pub lo: u128,
}

impl PeerId {
    pub fn new(hi: u128, lo: u128) -> (id: PeerId)
        ensures
            id.hi == hi,
            id.lo == lo,
    {
        PeerId { hi, lo }
    }
}

/// A network address, held as the bytes of its self-describing form.
#[derive(Clone, Debug, PartialEq, Eq)]
pub struct Address {
    pub bytes: Vec<u8>,
}

impl View for Address {
    type V = Seq<u8>;

    open spec fn view(&self) -> Seq<u8> {
        self.bytes@
    }
}

/// The views of a sequence of addresses, in order.
pub open spec fn addr_views(addrs: Seq<Address>) -> Seq<Seq<u8>> {
    addrs.map_values(|a: Address| a@)
}

/// Appends the bytes of `src` to `dst`.
pub fn append_bytes(dst: &mut Vec<u8>, src: &Vec<u8>)
    ensures
        final(dst)@ == old(dst)@ + src@,
{
    let mut i: usize = 0;
    while i < src.len()
        invariant
            i <= src.len(),
            dst@ == old(dst)@ + src@.subrange(0, i as int),
        decreases src.len() - i,
    {
        dst.push(src[i]);
        i += 1;
        assert(dst@ =~= old(dst)@ + src@.subrange(0, i as int));
    }
    assert(src@.subrange(0, src.len() as int) =~= src@);
}

/// A fresh vector with the same bytes.
pub fn copy_bytes(src: &Vec<u8>) -> (out: Vec<u8>)
    ensures
        out@ == src@,
{
    let mut out: Vec<u8> = Vec::new();
    append_bytes(&mut out, src);
    assert(out@ =~= src@);
    out
}

impl Address {
    pub fn new(bytes: Vec<u8>) -> (a: Address)
        ensures
            a@ == bytes@,
    {
        Address { bytes }
    }

    /// A fresh address with the same bytes.
    pub fn duplicate(&self) -> (a: Address)
        ensures
            a@ == self@,
    {
        Address { bytes: copy_bytes(&self.bytes) }
    }
}

/// Appends a copy of every address of `src` to `dst`, in order.
pub fn append_addrs(dst: &mut Vec<Address>, src: &Vec<Address>)
    ensures
        addr_views(final(dst)@) == addr_views(old(dst)@) + addr_views(src@),
{
    let mut i: usize = 0;
    while i < src.len()
        invariant
            i <= src.len(),
            addr_views(dst@) == addr_views(old(dst)@) + addr_views(src@.subrange(0, i as int)),
        decreases src.len() - i,
    {
        let ghost before = dst@;
        let a = src[i].duplicate();
        dst.push(a);
        i += 1;
        proof {
            let taken = src@.subrange(0, i as int);
            assert(addr_views(taken) =~= addr_views(src@.subrange(0, i - 1)).push(a@));
            assert(addr_views(dst@) =~= addr_views(before).push(a@));
        }
    }
    assert(src@.subrange(0, src.len() as int) =~= src@);
}

/// A fresh vector of addresses with the same contents.
pub fn copy_addrs(src: &Vec<Address>) -> (out: Vec<Address>)
    ensures
        addr_views(out@) == addr_views(src@),
{
    let mut out: Vec<Address> = Vec::new();
    append_addrs(&mut out, src);
    assert(addr_views(out@) =~= addr_views(src@));
    out
}

/// What a peer states of its own reachability at one point of logical time.
#[derive(Clone, Debug, PartialEq, Eq)]
pub struct PeerInfo {
    pub epoch: u64,
    pub addrs: Vec<Address>,
}

pub struct PeerInfoView {
    pub epoch: u64,
    pub addrs: Seq<Seq<u8>>,
}

impl View for PeerInfo {
    type V = PeerInfoView;

    open spec fn view(&self) -> PeerInfoView {
        PeerInfoView { epoch: self.epoch, addrs: addr_views(self.addrs@) }
    }
}

impl PeerInfo {
    pub fn new(epoch: u64, addrs: Vec<Address>) -> (info: PeerInfo)
        ensures
            info.epoch == epoch,
            info.addrs == addrs,
    {
        PeerInfo { epoch, addrs }
    }

    /// A fresh value with the same epoch and addresses.
    pub fn duplicate(&self) -> (info: PeerInfo)
        ensures
            info@ == self@,
    {
        PeerInfo { epoch: self.epoch, addrs: copy_addrs(&self.addrs) }
    }
}

/// Auxiliary data of a full node: carried along, never interpreted.
#[derive(Clone, Debug, PartialEq, Eq)]
pub struct FullNodePayload {
    pub epoch: u64,
    pub dns_seed_addr: Vec<u8>,
}

pub struct FullNodePayloadView {
    pub epoch: u64,
    pub dns_seed_addr: Seq<u8>,
}

impl View for FullNodePayload {
    type V = FullNodePayloadView;

    open spec fn view(&self) -> FullNodePayloadView {
        FullNodePayloadView { epoch: self.epoch, dns_seed_addr: self.dns_seed_addr@ }
    }
}

/// Serialized bytes together with a signature over them.
#[derive(Clone, Debug, PartialEq, Eq)]
pub struct Signed {
    pub payload: Vec<u8>,
    pub signature: Vec<u8>,
}

pub struct SignedView {
    pub payload: Seq<u8>,
    pub signature: Seq<u8>,
}

impl View for Signed {
    type V = SignedView;

    open spec fn view(&self) -> SignedView {
        SignedView { payload: self.payload@, signature: self.signature@ }
    }
}

impl Signed {
    /// A fresh value with the same bytes.
    pub fn duplicate(&self) -> (s: Signed)
        ensures
            s@ == self@,
    {
        Signed { payload: copy_bytes(&self.payload), signature: copy_bytes(&self.signature) }
    }
}

/// The unit of gossip: one peer's signed statement of its addresses and epoch.
#[derive(Clone, Debug, PartialEq, Eq)]
pub struct Note {
    pub peer_id: PeerId,
    pub signed_peer_info: Signed,
    pub signed_full_node_payload: Option<Signed>,
}

pub struct NoteView {
    pub peer_id: PeerId,
    pub signed_peer_info: SignedView,
    pub signed_full_node_payload: Option<SignedView>,
}

impl View for Note {
    type V = NoteView;

    open spec fn view(&self) -> NoteView {
        NoteView {
            peer_id: self.peer_id,
            signed_peer_info: self.signed_peer_info@,
            signed_full_node_payload: match self.signed_full_node_payload {
                Some(s) => Some(s@),
                None => None,
            },
        }
    }
}

impl Note {
    /// A fresh note with the same contents.
    pub fn duplicate(&self) -> (n: Note)
        ensures
            n@ == self@,
    {
        let extra = match &self.signed_full_node_payload {
            Some(s) => Some(s.duplicate()),
            None => None,
        };
        Note {
            peer_id: self.peer_id,
            signed_peer_info: self.signed_peer_info.duplicate(),
            signed_full_node_payload: extra,
        }
    }
}

/// The views of a sequence of notes, in order.
pub open spec fn note_views(notes: Seq<Note>) -> Seq<NoteView> {
    notes.map_values(|n: Note| n@)
}

/// What the connectivity manager is told: the addresses now known for a peer.
#[derive(Clone, Debug, PartialEq, Eq)]
pub struct AddressUpdate {
    pub peer_id: PeerId,
    pub addrs: Vec<Address>,
}

pub struct AddressUpdateView {
    pub peer_id: PeerId,
    pub addrs: Seq<Seq<u8>>,
}

impl View for AddressUpdate {
    type V = AddressUpdateView;

    open spec fn view(&self) -> AddressUpdateView {
        AddressUpdateView { peer_id: self.peer_id, addrs: addr_views(self.addrs@) }
    }
}

/// The views of a sequence of address updates, in order.
pub open spec fn update_views(updates: Seq<AddressUpdate>) -> Seq<AddressUpdateView> {
    updates.map_values(|u: AddressUpdate| u@)
}

} // verus!
