//! Building and verifying notes, and the table of peers whose notes are
//! believed. Signatures are made and checked by the caller: this module says
//! which bytes are signed, which key they are checked against, and what
//! follows from the answer.

use crate::table::{lemma_slot_absent, lemma_slot_at, lemma_slot_valid, lemma_upsert, lookup, slot, upsert};
use crate::types::{copy_bytes, FullNodePayload, FullNodePayloadView, Note, NoteView, PeerId, PeerInfo, PeerInfoView, Signed, SignedView, Address};
use crate::wire::{decode_info, encodable, encode_full_node_payload, encode_info, encode_payload, encode_peer_info, lemma_parse_encoded, parse_peer_info};
use vstd::prelude::*;

verus! {

/// The public keys of a trusted peer.
#[derive(Clone, Debug, PartialEq, Eq)]
pub struct NetworkPublicKeys {
    pub signing_public_key: Vec<u8>,
    pub identity_public_key: Vec<u8>,
}

pub struct NetworkPublicKeysView {
    pub signing_public_key: Seq<u8>,
    pub identity_public_key: Seq<u8>,
}

impl View for NetworkPublicKeys {
    type V = NetworkPublicKeysView;

    open spec fn view(&self) -> NetworkPublicKeysView {
        NetworkPublicKeysView {
            signing_public_key: self.signing_public_key@,
            identity_public_key: self.identity_public_key@,
        }
    }
}

struct TrustedPeer {
    peer_id: PeerId,
    keys: NetworkPublicKeys,
}

/// The peers whose notes are believed, each with its keys.
pub struct TrustStore {
    entries: Vec<TrustedPeer>,
}

impl TrustStore {
    /// The trusted identities, in the order in which they were first admitted.
    pub closed spec fn ids(&self) -> Seq<PeerId> {
        self.entries@.map_values(|e: TrustedPeer| e.peer_id)
    }

    /// The keys of the trusted identities, in the same order.
    pub closed spec fn keys(&self) -> Seq<NetworkPublicKeysView> {
        self.entries@.map_values(|e: TrustedPeer| e.keys@)
    }

    /// No identity is held twice.
    pub open spec fn wf(&self) -> bool {
        self.ids().no_duplicates() && self.ids().len() == self.keys().len()
    }

    /// Whether `id` is trusted.
    pub open spec fn trusts(&self, id: PeerId) -> bool {
        slot(self.ids(), id) is Some
    }

    /// The keys held for `id`, if it is trusted.
    pub open spec fn keys_of(&self, id: PeerId) -> Option<NetworkPublicKeysView> {
        lookup(self.ids(), self.keys(), id)
    }

    pub fn new() -> (t: TrustStore)
        ensures
            t.wf(),
            t.ids().len() == 0,
            t.keys().len() == 0,
    {
        TrustStore { entries: Vec::new() }
    }

    fn position(&self, id: PeerId) -> (r: Option<usize>)
        requires
            self.wf(),
        ensures
            match r {
                Some(i) => slot(self.ids(), id) == Some(i as int) && i < self.entries@.len(),
                None => slot(self.ids(), id) is None,
            },
    {
        let mut i: usize = 0;
        while i < self.entries.len()
            invariant
                self.wf(),
                i <= self.entries.len(),
                forall|j: int| 0 <= j < i ==> self.ids()[j] != id,
            decreases self.entries.len() - i,
        {
            if self.entries[i].peer_id == id {
                proof {
                    lemma_slot_at(self.ids(), i as int);
                }
                return Some(i);
            }
            i += 1;
        }
        proof {
            lemma_slot_absent(self.ids(), id);
        }
        None
    }

    /// Admits `id` with `keys`, or replaces the keys it had.
    pub fn insert(&mut self, id: PeerId, keys: NetworkPublicKeys)
        requires
            old(self).wf(),
        ensures
            final(self).wf(),
            (final(self).ids(), final(self).keys()) == upsert(
                old(self).ids(),
                old(self).keys(),
                id,
                keys@,
            ),
            final(self).keys_of(id) == Some(keys@),
            forall|other: PeerId| other != id ==> final(self).keys_of(other) == old(self).keys_of(other),
    {
        let ghost kv = keys@;
        proof {
            lemma_upsert(self.ids(), self.keys(), id, kv);
        }
        match self.position(id) {
            Some(i) => {
                self.entries.set(i, TrustedPeer { peer_id: id, keys });
                proof {
                    lemma_slot_valid(old(self).ids(), id);
                    assert(self.ids() =~= old(self).ids());
                    assert(self.keys() =~= old(self).keys().update(i as int, kv));
                }
            },
            None => {
                self.entries.push(TrustedPeer { peer_id: id, keys });
                proof {
                    assert(self.ids() =~= old(self).ids().push(id));
                    assert(self.keys() =~= old(self).keys().push(kv));
                }
            },
        }
    }

    /// Whether `id` is trusted.
    pub fn contains(&self, id: PeerId) -> (b: bool)
        requires
            self.wf(),
        ensures
            b == self.trusts(id),
    {
        self.position(id).is_some()
    }

    /// The key against which the signatures of `id` are checked, if `id` is
    /// trusted.
    pub fn signing_key(&self, id: PeerId) -> (r: Option<Vec<u8>>)
        requires
            self.wf(),
        ensures
            match r {
                Some(k) => self.keys_of(id) is Some && k@ == self.keys_of(id).unwrap().signing_public_key,
                None => !self.trusts(id),
            },
    {
        match self.position(id) {
            Some(i) => Some(copy_bytes(&self.entries[i].keys.signing_public_key)),
            None => None,
        }
    }
}

/// Why a note is not believed.
#[derive(Clone, Copy, Debug, PartialEq, Eq, Structural)]
pub enum VerificationError {
    /// The note's peer is not trusted.
    UnknownSigner,
    /// The note's payload is not the byte form of a statement.
    Malformed,
    /// The signature does not fit the payload and the peer's key.
    BadSignature,
}

/// The note that `peer_id` makes of `info`, with the given signatures.
pub open spec fn note_of(
    peer_id: PeerId,
    info: PeerInfoView,
    info_signature: Seq<u8>,
    extra: Option<FullNodePayloadView>,
    extra_signature: Seq<u8>,
) -> NoteView {
    NoteView {
        peer_id,
        signed_peer_info: SignedView { payload: encode_peer_info(info), signature: info_signature },
        signed_full_node_payload: match extra {
            Some(p) => Some(
                SignedView { payload: encode_full_node_payload(p), signature: extra_signature },
            ),
            None => None,
        },
    }
}

/// What the verification of `note` gives, where `trusted` says whether its
/// peer is trusted and `signature_ok` whether its signature fits.
pub open spec fn verify_spec(note: NoteView, trusted: bool, signature_ok: bool) -> Result<
    PeerInfoView,
    VerificationError,
> {
    if !trusted {
        Err(VerificationError::UnknownSigner)
    } else {
        match parse_peer_info(note.signed_peer_info.payload) {
            None => Err(VerificationError::Malformed),
            Some(info) => if signature_ok {
                Ok(info)
            } else {
                Err(VerificationError::BadSignature)
            },
        }
    }
}

/// A statement with the given addresses, made at `epoch`.
pub fn create_peer_info(addrs: Vec<Address>, epoch: u64) -> (info: PeerInfo)
    ensures
        info.epoch == epoch,
        info.addrs == addrs,
{
    PeerInfo { epoch, addrs }
}

/// Packs a statement, the signature over its byte form and, where there is
/// one, a full node's payload with the signature over its byte form into a note.
/// Without a payload `payload_signature` is dropped.
pub fn create_note(
    peer_id: PeerId,
    peer_info: &PeerInfo,
    info_signature: Vec<u8>,
    full_node_payload: Option<&FullNodePayload>,
    payload_signature: Vec<u8>,
) -> (note: Note)
    ensures
        note@ == note_of(
            peer_id,
            peer_info@,
            info_signature@,
            match full_node_payload {
                Some(p) => Some(p@),
                None => None,
            },
            payload_signature@,
        ),
{
    let extra = match full_node_payload {
        Some(p) => Some(Signed { payload: encode_payload(p), signature: payload_signature }),
        None => None,
    };
    Note {
        peer_id,
        signed_peer_info: Signed { payload: encode_info(peer_info), signature: info_signature },
        signed_full_node_payload: extra,
    }
}

/// What has to be checked of a note outside: that `signature` is a signature
/// over `message` under `public_key`.
#[derive(Clone, Debug, PartialEq, Eq)]
pub struct SignatureCheck {
    pub public_key: Vec<u8>,
    pub message: Vec<u8>,
    pub signature: Vec<u8>,
}

/// The check that decides whether `note` is believed: its payload and
/// signature against the signing key that `trust` holds for its peer at this
/// moment. `None` exactly where the peer is not trusted.
pub fn signature_check(note: &Note, trust: &TrustStore) -> (r: Option<SignatureCheck>)
    requires
        trust.wf(),
    ensures
        match r {
            Some(c) => {
                &&& trust.keys_of(note.peer_id) is Some
                &&& c.public_key@ == trust.keys_of(note.peer_id).unwrap().signing_public_key
                &&& c.message@ == note@.signed_peer_info.payload
                &&& c.signature@ == note@.signed_peer_info.signature
            },
            None => !trust.trusts(note.peer_id),
        },
{
    match trust.signing_key(note.peer_id) {
        Some(public_key) => Some(
            SignatureCheck {
                public_key,
                message: copy_bytes(&note.signed_peer_info.payload),
                signature: copy_bytes(&note.signed_peer_info.signature),
            },
        ),
        None => None,
    }
}

/// Verifies a note against the trust table as it is now. `signature_ok` is the
/// answer to `signature_check`; it is not looked at where the peer is unknown
/// or the payload malformed.
pub fn verify(note: &Note, trust: &TrustStore, signature_ok: bool) -> (r: Result<
    PeerInfo,
    VerificationError,
>)
    requires
        trust.wf(),
    ensures
        match r {
            Ok(info) => verify_spec(note@, trust.trusts(note.peer_id), signature_ok) == Ok::<
                PeerInfoView,
                VerificationError,
            >(info@),
            Err(e) => verify_spec(note@, trust.trusts(note.peer_id), signature_ok) == Err::<
                PeerInfoView,
                VerificationError,
            >(e),
        },
{
    if !trust.contains(note.peer_id) {
        return Err(VerificationError::UnknownSigner);
    }
    match decode_info(note.signed_peer_info.payload.as_slice()) {
        None => Err(VerificationError::Malformed),
        Some(info) => {
            if signature_ok {
                Ok(info)
            } else {
                Err(VerificationError::BadSignature)
            }
        },
    }
}

/// A note built from a statement is verified as that statement, where its
/// peer is trusted and its signature fits.
pub proof fn lemma_verify_created(
    peer_id: PeerId,
    info: PeerInfoView,
    info_signature: Seq<u8>,
    extra: Option<FullNodePayloadView>,
    extra_signature: Seq<u8>,
)
    requires
        encodable(info.addrs),
    ensures
        verify_spec(note_of(peer_id, info, info_signature, extra, extra_signature), true, true)
            == Ok::<PeerInfoView, VerificationError>(info),
{
    lemma_parse_encoded(info);
}

/// A note of a peer that is not trusted is never believed, whatever its
/// payload and signature.
pub proof fn lemma_untrusted_rejected(note: NoteView, signature_ok: bool)
    ensures
        verify_spec(note, false, signature_ok) == Err::<PeerInfoView, VerificationError>(
            VerificationError::UnknownSigner,
        ),
{
}

} // verus!
