//! The byte form of a peer's statement: the epoch as eight little-endian
//! bytes, then each address as its length in eight little-endian bytes
//! followed by its bytes.

use crate::types::{addr_views, append_bytes, Address, FullNodePayload, FullNodePayloadView, PeerInfo, PeerInfoView};
use vstd::bytes::{
    lemma_auto_spec_u64_to_from_le_bytes, spec_u64_from_le_bytes, spec_u64_to_le_bytes,
    u64_from_le_bytes, u64_to_le_bytes,
};
use vstd::prelude::*;
use vstd::slice::{slice_subrange, slice_to_vec};

verus! {

/// One address on the wire: its length, then its bytes.
pub open spec fn frame(a: Seq<u8>) -> Seq<u8> {
    spec_u64_to_le_bytes(a.len() as u64) + a
}

/// The frames of `addrs`, one after the other.
pub open spec fn encode_addrs(addrs: Seq<Seq<u8>>) -> Seq<u8>
    decreases addrs.len(),
{
    if addrs.len() == 0 {
        Seq::empty()
    } else {
        frame(addrs[0]) + encode_addrs(addrs.skip(1))
    }
}

/// The byte form of a peer's statement.
pub open spec fn encode_peer_info(info: PeerInfoView) -> Seq<u8> {
    spec_u64_to_le_bytes(info.epoch) + encode_addrs(info.addrs)
}

/// The byte form of a full node's auxiliary data: its epoch, then the blob.
pub open spec fn encode_full_node_payload(p: FullNodePayloadView) -> Seq<u8> {
    spec_u64_to_le_bytes(p.epoch) + p.dns_seed_addr
}

/// The addresses that `b` is the frames of, if it is a run of whole frames.
pub open spec fn parse_addrs(b: Seq<u8>) -> Option<Seq<Seq<u8>>>
    decreases b.len(),
{
    if b.len() == 0 {
        Some(Seq::empty())
    } else if b.len() < 8 {
        None
    } else {
        let n = spec_u64_from_le_bytes(b.subrange(0, 8)) as int;
        if n > b.len() - 8 {
            None
        } else {
            match parse_addrs(b.skip(8 + n)) {
                Some(rest) => Some(seq![b.subrange(8, 8 + n)] + rest),
                None => None,
            }
        }
    }
}

/// The statement that `b` is the byte form of, if it is one.
pub open spec fn parse_peer_info(b: Seq<u8>) -> Option<PeerInfoView> {
    if b.len() < 8 {
        None
    } else {
        match parse_addrs(b.skip(8)) {
            Some(addrs) => Some(
                PeerInfoView { epoch: spec_u64_from_le_bytes(b.subrange(0, 8)), addrs },
            ),
            None => None,
        }
    }
}

/// Every address is short enough for its length to be written in eight bytes.
pub open spec fn encodable(addrs: Seq<Seq<u8>>) -> bool {
    forall|i: int| 0 <= i < addrs.len() ==> (#[trigger] addrs[i]).len() <= u64::MAX
}

proof fn lemma_encode_addrs_push(s: Seq<Seq<u8>>, a: Seq<u8>)
    ensures
        encode_addrs(s.push(a)) == encode_addrs(s) + frame(a),
    decreases s.len(),
{
    let t = s.push(a);
    if s.len() == 0 {
        assert(t.skip(1) =~= Seq::<Seq<u8>>::empty());
        assert(encode_addrs(t.skip(1)) =~= Seq::<u8>::empty());
        assert(encode_addrs(t) =~= frame(a));
        assert(encode_addrs(s) + frame(a) =~= frame(a));
    } else {
        lemma_encode_addrs_push(s.skip(1), a);
        assert(t.skip(1) =~= s.skip(1).push(a));
        assert(encode_addrs(t) =~= encode_addrs(s) + frame(a));
    }
}

/// Writes a peer's statement in its byte form.
pub fn encode_info(info: &PeerInfo) -> (out: Vec<u8>)
    ensures
        out@ == encode_peer_info(info@),
{
    let mut out: Vec<u8> = u64_to_le_bytes(info.epoch);
    let mut i: usize = 0;
    assert(info.addrs@.subrange(0, 0) =~= Seq::<Address>::empty());
    assert(out@ =~= spec_u64_to_le_bytes(info.epoch) + encode_addrs(
        addr_views(info.addrs@.subrange(0, 0)),
    ));
    while i < info.addrs.len()
        invariant
            i <= info.addrs.len(),
            out@ == spec_u64_to_le_bytes(info.epoch) + encode_addrs(
                addr_views(info.addrs@.subrange(0, i as int)),
            ),
        decreases info.addrs.len() - i,
    {
        let a = &info.addrs[i];
        let mut head: Vec<u8> = u64_to_le_bytes(a.bytes.len() as u64);
        append_bytes(&mut head, &a.bytes);
        append_bytes(&mut out, &head);
        proof {
            let done = addr_views(info.addrs@.subrange(0, i as int));
            lemma_encode_addrs_push(done, a@);
            assert(addr_views(info.addrs@.subrange(0, i + 1)) =~= done.push(a@));
            assert(head@ == frame(a@));
            assert(out@ =~= spec_u64_to_le_bytes(info.epoch) + (encode_addrs(done) + frame(a@)));
        }
        i += 1;
    }
    assert(info.addrs@.subrange(0, info.addrs.len() as int) =~= info.addrs@);
    out
}

/// Writes a full node's auxiliary data in its byte form.
pub fn encode_payload(payload: &FullNodePayload) -> (out: Vec<u8>)
    ensures
        out@ == encode_full_node_payload(payload@),
{
    let mut out: Vec<u8> = u64_to_le_bytes(payload.epoch);
    append_bytes(&mut out, &payload.dns_seed_addr);
    out
}

/// Reads a peer's statement from its byte form: `Some` exactly where the bytes
/// are an epoch followed by whole frames.
pub fn decode_info(bytes: &[u8]) -> (r: Option<PeerInfo>)
    ensures
        match r {
            Some(info) => parse_peer_info(bytes@) == Some(info@),
            None => parse_peer_info(bytes@) is None,
        },
{
    let len: usize = bytes.len();
    if len < 8 {
        return None;
    }
    let epoch: u64 = u64_from_le_bytes(slice_subrange(bytes, 0, 8));
    let mut addrs: Vec<Address> = Vec::new();
    let mut pos: usize = 8;
    assert(forall|rest: Seq<Seq<u8>>| addr_views(addrs@) + rest =~= rest);
    while pos < len
        invariant
            8 <= pos <= len,
            len == bytes@.len(),
            parse_addrs(bytes@.skip(8)) == match parse_addrs(bytes@.skip(pos as int)) {
                Some(rest) => Some(addr_views(addrs@) + rest),
                None => None,
            },
        decreases len - pos,
    {
        let ghost tail = bytes@.skip(pos as int);
        let ghost before = addr_views(addrs@);
        if len - pos < 8 {
            return None;
        }
        let n: u64 = u64_from_le_bytes(slice_subrange(bytes, pos, pos + 8));
        assert(bytes@.subrange(pos as int, pos + 8) =~= tail.subrange(0, 8));
        if n > (len - pos - 8) as u64 {
            return None;
        }
        let start: usize = pos + 8;
        let end: usize = start + n as usize;
        let a = Address { bytes: slice_to_vec(slice_subrange(bytes, start, end)) };
        proof {
            assert(a@ =~= tail.subrange(8, 8 + n));
            assert(tail.skip(8 + n) =~= bytes@.skip(end as int));
            assert(addr_views(addrs@.push(a)) =~= before.push(a@));
            assert forall|rest: Seq<Seq<u8>>| before + (seq![a@] + rest) == before.push(a@) + rest by {
                assert(before + (seq![a@] + rest) =~= before.push(a@) + rest);
            }
        }
        addrs.push(a);
        pos = end;
    }
    proof {
        assert(bytes@.skip(len as int).len() == 0);
        assert(addr_views(addrs@) + Seq::<Seq<u8>>::empty() =~= addr_views(addrs@));
    }
    Some(PeerInfo { epoch, addrs })
}

/// Reading undoes writing: the byte form of a statement is read back as that
/// statement.
pub proof fn lemma_parse_encoded_addrs(addrs: Seq<Seq<u8>>)
    requires
        encodable(addrs),
    ensures
        parse_addrs(encode_addrs(addrs)) == Some(addrs),
    decreases addrs.len(),
{
    lemma_auto_spec_u64_to_from_le_bytes();
    if addrs.len() > 0 {
        let a = addrs[0];
        let rest = addrs.skip(1);
        let b = encode_addrs(addrs);
        lemma_parse_encoded_addrs(rest);
        assert(b.subrange(0, 8) =~= spec_u64_to_le_bytes(a.len() as u64));
        assert(b.skip(8 + a.len() as int) =~= encode_addrs(rest));
        assert(b.subrange(8, 8 + a.len() as int) =~= a);
        assert(seq![a] + rest =~= addrs);
    }
}

/// Reading undoes writing: the byte form of a statement whose addresses are
/// encodable is read back as that statement.
pub proof fn lemma_parse_encoded(info: PeerInfoView)
    requires
        encodable(info.addrs),
    ensures
        parse_peer_info(encode_peer_info(info)) == Some(info),
{
    lemma_auto_spec_u64_to_from_le_bytes();
    lemma_parse_encoded_addrs(info.addrs);
    let b = encode_peer_info(info);
    assert(b.subrange(0, 8) =~= spec_u64_to_le_bytes(info.epoch));
    assert(b.skip(8) =~= encode_addrs(info.addrs));
}

/// Writing undoes reading: bytes that are read as a statement are the byte
/// form of that statement, so no two byte strings are read alike.
pub proof fn lemma_encode_parsed_addrs(b: Seq<u8>)
    requires
        parse_addrs(b) is Some,
    ensures
        encode_addrs(parse_addrs(b).unwrap()) == b,
        encodable(parse_addrs(b).unwrap()),
    decreases b.len(),
{
    lemma_auto_spec_u64_to_from_le_bytes();
    if b.len() > 0 {
        let n = spec_u64_from_le_bytes(b.subrange(0, 8)) as int;
        let a = b.subrange(8, 8 + n);
        let rest = parse_addrs(b.skip(8 + n)).unwrap();
        lemma_encode_parsed_addrs(b.skip(8 + n));
        let all = seq![a] + rest;
        assert(all[0] == a);
        assert(all.skip(1) =~= rest);
        assert(spec_u64_to_le_bytes(a.len() as u64) == b.subrange(0, 8));
        assert(encode_addrs(all) =~= b);
        assert forall|i: int| 0 <= i < all.len() implies (#[trigger] all[i]).len() <= u64::MAX by {
            if i > 0 {
                assert(all[i] == rest[i - 1]);
            }
        }
    }
}

/// Writing undoes reading, for whole statements.
pub proof fn lemma_encode_parsed(b: Seq<u8>)
    requires
        parse_peer_info(b) is Some,
    ensures
        encode_peer_info(parse_peer_info(b).unwrap()) == b,
{
    lemma_auto_spec_u64_to_from_le_bytes();
    lemma_encode_parsed_addrs(b.skip(8));
    assert(spec_u64_to_le_bytes(spec_u64_from_le_bytes(b.subrange(0, 8))) == b.subrange(0, 8));
    assert(b.subrange(0, 8) + b.skip(8) =~= b);
}

} // verus!
