//! The byte form of a gossip message: its notes one after the other, each
//! preceded by its length. A note is its peer's identity in thirty-two bytes,
//! its signed statement as two frames, then a byte that says whether a signed
//! payload of a full node follows, as two more frames.

use crate::types::{append_bytes, note_views, Note, NoteView, PeerId, Signed, SignedView};
use crate::wire::frame;
use vstd::bytes::{
    lemma_auto_spec_u128_to_from_le_bytes, lemma_auto_spec_u64_to_from_le_bytes,
    spec_u128_from_le_bytes, spec_u128_to_le_bytes, spec_u64_from_le_bytes, spec_u64_to_le_bytes,
    u128_from_le_bytes, u128_to_le_bytes, u64_from_le_bytes, u64_to_le_bytes,
};
use vstd::prelude::*;
use vstd::slice::{slice_subrange, slice_to_vec};

verus! {

/// An identity on the wire: its two halves, each in sixteen little-endian
/// bytes.
pub open spec fn id_bytes(id: PeerId) -> Seq<u8> {
    spec_u128_to_le_bytes(id.hi) + spec_u128_to_le_bytes(id.lo)
}

/// Signed bytes on the wire: the payload's frame, then the signature's.
pub open spec fn signed_bytes(s: SignedView) -> Seq<u8> {
    frame(s.payload) + frame(s.signature)
}

/// The byte form of a note.
pub open spec fn note_bytes(n: NoteView) -> Seq<u8> {
    id_bytes(n.peer_id) + signed_bytes(n.signed_peer_info) + match n.signed_full_node_payload {
        Some(s) => seq![1u8] + signed_bytes(s),
        None => seq![0u8],
    }
}

/// The byte form of a message: the frames of its notes' byte forms.
pub open spec fn msg_bytes(notes: Seq<NoteView>) -> Seq<u8>
    decreases notes.len(),
{
    if notes.len() == 0 {
        Seq::empty()
    } else {
        frame(note_bytes(notes[0])) + msg_bytes(notes.skip(1))
    }
}

/// The contents of the frame that `b` starts with, and what follows the
/// frame, if `b` starts with a whole frame.
pub open spec fn parse_frame(b: Seq<u8>) -> Option<(Seq<u8>, Seq<u8>)> {
    if b.len() < 8 {
        None
    } else {
        let n = spec_u64_from_le_bytes(b.subrange(0, 8)) as int;
        if n > b.len() - 8 {
            None
        } else {
            Some((b.subrange(8, 8 + n), b.skip(8 + n)))
        }
    }
}

/// The signed bytes that `b` starts with, and what follows them.
pub open spec fn parse_signed(b: Seq<u8>) -> Option<(SignedView, Seq<u8>)> {
    match parse_frame(b) {
        None => None,
        Some((payload, rest)) => match parse_frame(rest) {
            None => None,
            Some((signature, after)) => Some((SignedView { payload, signature }, after)),
        },
    }
}

/// The note that `b` is the byte form of, if it is one.
pub open spec fn parse_note(b: Seq<u8>) -> Option<NoteView> {
    if b.len() < 32 {
        None
    } else {
        let peer_id = PeerId {
            hi: spec_u128_from_le_bytes(b.subrange(0, 16)),
            lo: spec_u128_from_le_bytes(b.subrange(16, 32)),
        };
        match parse_signed(b.skip(32)) {
            None => None,
            Some((info, rest)) => {
                if rest.len() == 0 {
                    None
                } else if rest[0] == 0 {
                    if rest.len() == 1 {
                        Some(
                            NoteView {
                                peer_id,
                                signed_peer_info: info,
                                signed_full_node_payload: None,
                            },
                        )
                    } else {
                        None
                    }
                } else if rest[0] == 1 {
                    match parse_signed(rest.skip(1)) {
                        None => None,
                        Some((extra, after)) => if after.len() == 0 {
                            Some(
                                NoteView {
                                    peer_id,
                                    signed_peer_info: info,
                                    signed_full_node_payload: Some(extra),
                                },
                            )
                        } else {
                            None
                        },
                    }
                } else {
                    None
                }
            },
        }
    }
}

/// The notes that `b` is the message of, if it is a run of whole frames that
/// each hold a note.
pub open spec fn parse_msg(b: Seq<u8>) -> Option<Seq<NoteView>>
    decreases b.len(),
{
    if b.len() == 0 {
        Some(Seq::empty())
    } else if b.len() < 8 {
        None
    } else {
        let n = spec_u64_from_le_bytes(b.subrange(0, 8)) as int;
        if n > b.len() - 8 {
            None
        } else {
            match parse_note(b.subrange(8, 8 + n)) {
                None => None,
                Some(note) => match parse_msg(b.skip(8 + n)) {
                    None => None,
                    Some(rest) => Some(seq![note] + rest),
                },
            }
        }
    }
}

/// Appends the frame of `src` to `dst`.
fn append_frame(dst: &mut Vec<u8>, src: &Vec<u8>)
    ensures
        final(dst)@ == old(dst)@ + frame(src@),
{
    let head: Vec<u8> = u64_to_le_bytes(src.len() as u64);
    append_bytes(dst, &head);
    append_bytes(dst, src);
    assert(dst@ =~= old(dst)@ + frame(src@));
}

/// Appends the byte form of signed bytes to `dst`.
fn append_signed(dst: &mut Vec<u8>, s: &Signed)
    ensures
        final(dst)@ == old(dst)@ + signed_bytes(s@),
{
    append_frame(dst, &s.payload);
    append_frame(dst, &s.signature);
    assert(dst@ =~= old(dst)@ + signed_bytes(s@));
}

/// Writes a note in its byte form.
pub fn encode_note(note: &Note) -> (out: Vec<u8>)
    ensures
        out@ == note_bytes(note@),
{
    let mut out: Vec<u8> = u128_to_le_bytes(note.peer_id.hi);
    let lo: Vec<u8> = u128_to_le_bytes(note.peer_id.lo);
    append_bytes(&mut out, &lo);
    append_signed(&mut out, &note.signed_peer_info);
    match &note.signed_full_node_payload {
        Some(s) => {
            out.push(1u8);
            append_signed(&mut out, s);
            assert(out@ =~= note_bytes(note@));
        },
        None => {
            out.push(0u8);
            assert(out@ =~= note_bytes(note@));
        },
    }
    out
}

/// Writes a message in its byte form.
pub fn encode_msg(notes: &Vec<Note>) -> (out: Vec<u8>)
    ensures
        out@ == msg_bytes(note_views(notes@)),
{
    let mut out: Vec<u8> = Vec::new();
    let mut i: usize = 0;
    proof {
        assert(note_views(notes@.subrange(0, 0)) =~= Seq::<NoteView>::empty());
    }
    while i < notes.len()
        invariant
            i <= notes.len(),
            out@ == msg_bytes(note_views(notes@.subrange(0, i as int))),
        decreases notes.len() - i,
    {
        let one = encode_note(&notes[i]);
        append_frame(&mut out, &one);
        proof {
            let done = note_views(notes@.subrange(0, i as int));
            lemma_msg_bytes_push(done, notes@[i as int]@);
            assert(note_views(notes@.subrange(0, i + 1)) =~= done.push(notes@[i as int]@));
        }
        i += 1;
    }
    assert(notes@.subrange(0, notes.len() as int) =~= notes@);
    out
}

proof fn lemma_msg_bytes_push(s: Seq<NoteView>, n: NoteView)
    ensures
        msg_bytes(s.push(n)) == msg_bytes(s) + frame(note_bytes(n)),
    decreases s.len(),
{
    let t = s.push(n);
    if s.len() == 0 {
        assert(t.skip(1) =~= Seq::<NoteView>::empty());
        assert(msg_bytes(t.skip(1)) =~= Seq::<u8>::empty());
        assert(msg_bytes(t) =~= frame(note_bytes(n)));
        assert(msg_bytes(s) + frame(note_bytes(n)) =~= frame(note_bytes(n)));
    } else {
        lemma_msg_bytes_push(s.skip(1), n);
        assert(t.skip(1) =~= s.skip(1).push(n));
        assert(msg_bytes(t) =~= msg_bytes(s) + frame(note_bytes(n)));
    }
}

/// Reads the frame that starts at `pos`: its contents and the place after
/// it. `None` exactly where no whole frame starts there.
pub fn split_frame(bytes: &[u8], pos: usize) -> (r: Option<(Vec<u8>, usize)>)
    requires
        pos <= bytes@.len(),
    ensures
        match r {
            Some((contents, next)) => pos <= next <= bytes@.len() && parse_frame(
                bytes@.skip(pos as int),
            ) == Some((contents@, bytes@.skip(next as int))),
            None => parse_frame(bytes@.skip(pos as int)) is None,
        },
{
    let len: usize = bytes.len();
    let ghost tail = bytes@.skip(pos as int);
    if len - pos < 8 {
        return None;
    }
    let n: u64 = u64_from_le_bytes(slice_subrange(bytes, pos, pos + 8));
    assert(bytes@.subrange(pos as int, pos + 8) =~= tail.subrange(0, 8));
    if n > (len - pos - 8) as u64 {
        return None;
    }
    let start: usize = pos + 8;
    let end: usize = start + n as usize;
    let contents = slice_to_vec(slice_subrange(bytes, start, end));
    proof {
        assert(contents@ =~= tail.subrange(8, 8 + n));
        assert(tail.skip(8 + n) =~= bytes@.skip(end as int));
    }
    Some((contents, end))
}

/// Reads the signed bytes that start at `pos`, and the place after them.
fn split_signed(bytes: &[u8], pos: usize) -> (r: Option<(Signed, usize)>)
    requires
        pos <= bytes@.len(),
    ensures
        match r {
            Some((s, next)) => pos <= next <= bytes@.len() && parse_signed(bytes@.skip(pos as int))
                == Some((s@, bytes@.skip(next as int))),
            None => parse_signed(bytes@.skip(pos as int)) is None,
        },
{
    match split_frame(bytes, pos) {
        None => None,
        Some((payload, mid)) => match split_frame(bytes, mid) {
            None => None,
            Some((signature, next)) => Some((Signed { payload, signature }, next)),
        },
    }
}

/// Reads a note from its byte form: `Some` exactly where the bytes are the
/// byte form of a note, with nothing after it.
pub fn decode_note(bytes: &[u8]) -> (r: Option<Note>)
    ensures
        match r {
            Some(note) => parse_note(bytes@) == Some(note@),
            None => parse_note(bytes@) is None,
        },
{
    let len: usize = bytes.len();
    if len < 32 {
        return None;
    }
    let hi: u128 = u128_from_le_bytes(slice_subrange(bytes, 0, 16));
    let lo: u128 = u128_from_le_bytes(slice_subrange(bytes, 16, 32));
    let peer_id = PeerId { hi, lo };
    match split_signed(bytes, 32) {
        None => None,
        Some((info, pos)) => {
            let ghost rest = bytes@.skip(pos as int);
            if pos == len {
                return None;
            }
            let flag: u8 = bytes[pos];
            assert(rest[0] == flag);
            if flag == 0 {
                if pos + 1 == len {
                    Some(Note { peer_id, signed_peer_info: info, signed_full_node_payload: None })
                } else {
                    None
                }
            } else if flag == 1 {
                assert(rest.skip(1) =~= bytes@.skip(pos + 1));
                match split_signed(bytes, pos + 1) {
                    None => None,
                    Some((extra, end)) => {
                        if end == len {
                            Some(
                                Note {
                                    peer_id,
                                    signed_peer_info: info,
                                    signed_full_node_payload: Some(extra),
                                },
                            )
                        } else {
                            None
                        }
                    },
                }
            } else {
                None
            }
        },
    }
}

/// Reads a message from its byte form: `Some` exactly where the bytes are a
/// run of whole frames that each hold a note.
pub fn decode_msg(bytes: &[u8]) -> (r: Option<Vec<Note>>)
    ensures
        match r {
            Some(notes) => parse_msg(bytes@) == Some(note_views(notes@)),
            None => parse_msg(bytes@) is None,
        },
{
    let len: usize = bytes.len();
    let mut notes: Vec<Note> = Vec::new();
    let mut pos: usize = 0;
    proof {
        assert(bytes@.skip(0) =~= bytes@);
        assert(forall|rest: Seq<NoteView>| note_views(notes@) + rest =~= rest);
    }
    while pos < len
        invariant
            pos <= len,
            len == bytes@.len(),
            parse_msg(bytes@) == match parse_msg(bytes@.skip(pos as int)) {
                Some(rest) => Some(note_views(notes@) + rest),
                None => None,
            },
        decreases len - pos,
    {
        let ghost before = note_views(notes@);
        match split_frame(bytes, pos) {
            None => {
                return None;
            },
            Some((contents, next)) => {
                match decode_note(contents.as_slice()) {
                    None => {
                        return None;
                    },
                    Some(note) => {
                        proof {
                            assert(note_views(notes@.push(note)) =~= before.push(note@));
                            assert forall|rest: Seq<NoteView>|
                                before + (seq![note@] + rest) == before.push(note@) + rest by {
                                assert(before + (seq![note@] + rest) =~= before.push(note@) + rest);
                            }
                        }
                        notes.push(note);
                        pos = next;
                    },
                }
            },
        }
    }
    proof {
        assert(bytes@.skip(len as int).len() == 0);
        assert(note_views(notes@) + Seq::<NoteView>::empty() =~= note_views(notes@));
    }
    Some(notes)
}

/// A byte string whose length can be written in eight bytes.
pub open spec fn fits(b: Seq<u8>) -> bool {
    b.len() <= u64::MAX
}

/// A note whose parts, and whose byte form, have lengths that can be written
/// in eight bytes.
pub open spec fn note_fits(n: NoteView) -> bool {
    &&& fits(n.signed_peer_info.payload)
    &&& fits(n.signed_peer_info.signature)
    &&& match n.signed_full_node_payload {
        Some(s) => fits(s.payload) && fits(s.signature),
        None => true,
    }
    &&& fits(note_bytes(n))
}

proof fn lemma_parse_framed(c: Seq<u8>, rest: Seq<u8>)
    requires
        fits(c),
    ensures
        parse_frame(frame(c) + rest) == Some((c, rest)),
{
    lemma_auto_spec_u64_to_from_le_bytes();
    let b = frame(c) + rest;
    assert(b.subrange(0, 8) =~= spec_u64_to_le_bytes(c.len() as u64));
    assert(b.subrange(8, 8 + c.len() as int) =~= c);
    assert(b.skip(8 + c.len() as int) =~= rest);
}

proof fn lemma_parse_signed_bytes(s: SignedView, rest: Seq<u8>)
    requires
        fits(s.payload),
        fits(s.signature),
    ensures
        parse_signed(signed_bytes(s) + rest) == Some((s, rest)),
{
    assert(signed_bytes(s) + rest =~= frame(s.payload) + (frame(s.signature) + rest));
    lemma_parse_framed(s.payload, frame(s.signature) + rest);
    lemma_parse_framed(s.signature, rest);
}

/// Reading undoes writing: the byte form of a note is read back as that note.
pub proof fn lemma_parse_note_bytes(n: NoteView)
    requires
        note_fits(n),
    ensures
        parse_note(note_bytes(n)) == Some(n),
{
    lemma_auto_spec_u128_to_from_le_bytes();
    let b = note_bytes(n);
    let tail = match n.signed_full_node_payload {
        Some(s) => seq![1u8] + signed_bytes(s),
        None => seq![0u8],
    };
    assert(b.subrange(0, 16) =~= spec_u128_to_le_bytes(n.peer_id.hi));
    assert(b.subrange(16, 32) =~= spec_u128_to_le_bytes(n.peer_id.lo));
    assert(b.skip(32) =~= signed_bytes(n.signed_peer_info) + tail);
    lemma_parse_signed_bytes(n.signed_peer_info, tail);
    match n.signed_full_node_payload {
        Some(s) => {
            assert(tail.skip(1) =~= signed_bytes(s) + Seq::<u8>::empty());
            lemma_parse_signed_bytes(s, Seq::<u8>::empty());
        },
        None => {},
    }
}

/// Reading undoes writing: the byte form of a message is read back as the
/// notes of that message, in their order.
pub proof fn lemma_parse_msg_bytes(notes: Seq<NoteView>)
    requires
        forall|i: int| 0 <= i < notes.len() ==> note_fits(#[trigger] notes[i]),
    ensures
        parse_msg(msg_bytes(notes)) == Some(notes),
    decreases notes.len(),
{
    if notes.len() > 0 {
        let rest = notes.skip(1);
        let b = msg_bytes(notes);
        assert forall|i: int| 0 <= i < rest.len() implies note_fits(#[trigger] rest[i]) by {
            assert(rest[i] == notes[i + 1]);
        }
        lemma_parse_msg_bytes(rest);
        lemma_parse_framed(note_bytes(notes[0]), msg_bytes(rest));
        lemma_parse_note_bytes(notes[0]);
        assert(seq![notes[0]] + rest =~= notes);
    }
}

} // verus!
