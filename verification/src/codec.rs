//! The on-disk representation of a note: a fixed, versionless binary
//! encoding of the identifier, title and content (each a length-prefixed
//! UTF-8 string) followed by the two stamps as little-endian 64-bit
//! values. A decoder that does not consume its input exactly rejects it.

use crate::note::{Note, NoteView};
use vstd::bytes::{
    lemma_auto_spec_u64_to_from_le_bytes, spec_u64_from_le_bytes, spec_u64_to_le_bytes,
    u64_from_le_bytes, u64_to_le_bytes,
};
use vstd::prelude::*;
use vstd::slice::{slice_subrange, slice_to_vec};
use vstd::string::StrSliceExecFns;
use vstd::utf8::{
    decode_utf8, encode_utf8, encode_utf8_decode_utf8, encode_utf8_valid_utf8, valid_utf8,
};

verus! {

/// One encoded string field: the byte length of its UTF-8 form, then
/// that form itself.
pub open spec fn field_bytes(s: Seq<char>) -> Seq<u8> {
    spec_u64_to_le_bytes(encode_utf8(s).len() as u64) + encode_utf8(s)
}

/// The encoded form of a whole note.
pub open spec fn spec_encode(n: NoteView) -> Seq<u8> {
    field_bytes(n.id) + field_bytes(n.title) + field_bytes(n.content) + spec_u64_to_le_bytes(
        n.created_at,
    ) + spec_u64_to_le_bytes(n.updated_at)
}

/// Every string field's UTF-8 form fits the 64-bit length prefix. Every
/// note built from in-memory strings satisfies this.
pub open spec fn encodable(n: NoteView) -> bool {
    &&& encode_utf8(n.id).len() <= u64::MAX
    &&& encode_utf8(n.title).len() <= u64::MAX
    &&& encode_utf8(n.content).len() <= u64::MAX
}

/// Reads one little-endian 64-bit value off the front of the input.
pub open spec fn take_u64(b: Seq<u8>) -> Option<(u64, Seq<u8>)> {
    if b.len() >= 8 {
        Some((spec_u64_from_le_bytes(b.take(8)), b.skip(8)))
    } else {
        None
    }
}

/// Reads one length-prefixed UTF-8 string off the front of the input.
pub open spec fn take_str(b: Seq<u8>) -> Option<(Seq<char>, Seq<u8>)> {
    match take_u64(b) {
        Some((n, rest)) => {
            if n <= rest.len() && valid_utf8(rest.take(n as int)) {
                Some((decode_utf8(rest.take(n as int)), rest.skip(n as int)))
            } else {
                None
            }
        },
        None => None,
    }
}

/// Decodes a whole note; any shortfall, malformed UTF-8 or trailing
/// byte rejects the input.
pub open spec fn spec_decode(b: Seq<u8>) -> Option<NoteView> {
    match take_str(b) {
        Some((id, b1)) => match take_str(b1) {
            Some((title, b2)) => match take_str(b2) {
                Some((content, b3)) => match take_u64(b3) {
                    Some((created_at, b4)) => match take_u64(b4) {
                        Some((updated_at, b5)) => if b5.len() == 0 {
                            Some(NoteView { id, title, content, created_at, updated_at })
                        } else {
                            None
                        },
                        None => None,
                    },
                    None => None,
                },
                None => None,
            },
            None => None,
        },
        None => None,
    }
}

proof fn lemma_take_str_of_field(s: Seq<char>, rest: Seq<u8>)
    requires
        encode_utf8(s).len() <= u64::MAX,
    ensures
        take_str(field_bytes(s) + rest) == Some((s, rest)),
{
    broadcast use encode_utf8_valid_utf8, encode_utf8_decode_utf8;

    lemma_auto_spec_u64_to_from_le_bytes();
    let u = encode_utf8(s);
    let b = field_bytes(s) + rest;
    assert(b.take(8) =~= spec_u64_to_le_bytes(u.len() as u64));
    assert(b.len() >= 8);
    assert(b.skip(8) =~= u + rest);
    assert(spec_u64_from_le_bytes(spec_u64_to_le_bytes(u.len() as u64)) == u.len() as u64);
    assert((u + rest).take(u.len() as int) =~= u);
    assert((u + rest).skip(u.len() as int) =~= rest);
}

proof fn lemma_take_u64_of_bytes(x: u64, rest: Seq<u8>)
    ensures
        take_u64(spec_u64_to_le_bytes(x) + rest) == Some((x, rest)),
{
    lemma_auto_spec_u64_to_from_le_bytes();
    let b = spec_u64_to_le_bytes(x) + rest;
    assert(b.take(8) =~= spec_u64_to_le_bytes(x));
    assert(b.skip(8) =~= rest);
}

/// Decoding inverts encoding: the round trip over the byte form loses
/// nothing of a note.
pub proof fn lemma_decode_encode(n: NoteView)
    requires
        encodable(n),
    ensures
        spec_decode(spec_encode(n)) == Some(n),
{
    let cr = spec_u64_to_le_bytes(n.created_at);
    let up = spec_u64_to_le_bytes(n.updated_at);
    let b1 = field_bytes(n.title) + (field_bytes(n.content) + (cr + up));
    let b2 = field_bytes(n.content) + (cr + up);
    assert(spec_encode(n) =~= field_bytes(n.id) + b1);
    lemma_take_str_of_field(n.id, b1);
    assert(b1 =~= field_bytes(n.title) + b2);
    lemma_take_str_of_field(n.title, b2);
    lemma_take_str_of_field(n.content, cr + up);
    lemma_take_u64_of_bytes(n.created_at, up);
    lemma_take_u64_of_bytes(n.updated_at, Seq::<u8>::empty());
    assert(up =~= spec_u64_to_le_bytes(n.updated_at) + Seq::<u8>::empty());
}

/// Appends one length-prefixed string field to the output.
fn push_field(out: &mut Vec<u8>, s: &String)
    ensures
        final(out)@ == old(out)@ + field_bytes(s@),
        encode_utf8(s@).len() <= u64::MAX,
{
    let bytes = s.as_str().as_bytes_vec();
    let len: u64 = bytes.len() as u64;
    let mut lenb = u64_to_le_bytes(len);
    out.append(&mut lenb);
    let mut payload = bytes;
    out.append(&mut payload);
    proof {
        assert(final(out)@ =~= old(out)@ + field_bytes(s@));
    }
}

/// Encodes a note into its byte form.
pub fn encode_note(n: &Note) -> (out: Vec<u8>)
    ensures
        out@ == spec_encode(n@),
        encodable(n@),
{
    let mut out: Vec<u8> = Vec::new();
    push_field(&mut out, &n.id);
    push_field(&mut out, &n.title);
    push_field(&mut out, &n.content);
    let mut cr = u64_to_le_bytes(n.created_at);
    out.append(&mut cr);
    let mut up = u64_to_le_bytes(n.updated_at);
    out.append(&mut up);
    proof {
        assert(out@ =~= spec_encode(n@));
    }
    out
}

/// Relies on `String::from_utf8`: it succeeds exactly on valid UTF-8
/// input, and yields the characters that the bytes encode.
#[verifier::external_body]
fn string_from_utf8(v: Vec<u8>) -> (r: Option<String>)
    ensures
        r is Some <==> valid_utf8(v@),
        r matches Some(s) ==> s@ == decode_utf8(v@),
{
    String::from_utf8(v).ok()
}

/// Reads one little-endian 64-bit value at `pos`.
fn read_u64(bytes: &[u8], pos: usize) -> (r: Option<(u64, usize)>)
    requires
        pos <= bytes@.len(),
    ensures
        match r {
            Some(p) => {
                &&& pos <= p.1 <= bytes@.len()
                &&& take_u64(bytes@.skip(pos as int)) == Some((p.0, bytes@.skip(p.1 as int)))
            },
            None => take_u64(bytes@.skip(pos as int)) is None,
        },
{
    if bytes.len() - pos < 8 {
        return None;
    }
    let end = pos + 8;
    let x = u64_from_le_bytes(slice_subrange(bytes, pos, end));
    proof {
        assert(bytes@.skip(pos as int).take(8) =~= bytes@.subrange(pos as int, end as int));
        assert(bytes@.skip(pos as int).skip(8) =~= bytes@.skip(end as int));
    }
    Some((x, end))
}

/// Reads one length-prefixed UTF-8 string at `pos`.
fn read_str(bytes: &[u8], pos: usize) -> (r: Option<(String, usize)>)
    requires
        pos <= bytes@.len(),
    ensures
        match r {
            Some(p) => {
                &&& pos <= p.1 <= bytes@.len()
                &&& take_str(bytes@.skip(pos as int)) == Some((p.0@, bytes@.skip(p.1 as int)))
            },
            None => take_str(bytes@.skip(pos as int)) is None,
        },
{
    let (n, body) = match read_u64(bytes, pos) {
        Some(p) => p,
        None => {
            return None;
        },
    };
    if n > (bytes.len() - body) as u64 {
        return None;
    }
    let end = body + (n as usize);
    let payload = slice_to_vec(slice_subrange(bytes, body, end));
    proof {
        assert(bytes@.skip(body as int).take(n as int) =~= bytes@.subrange(
            body as int,
            end as int,
        ));
        assert(bytes@.skip(body as int).skip(n as int) =~= bytes@.skip(end as int));
    }
    match string_from_utf8(payload) {
        Some(s) => Some((s, end)),
        None => None,
    }
}

/// Decodes a note from its byte form; rejects anything the encoder
/// cannot have produced.
pub fn decode_note(bytes: &[u8]) -> (r: Option<Note>)
    ensures
        match r {
            Some(n) => spec_decode(bytes@) == Some(n@),
            None => spec_decode(bytes@) is None,
        },
{
    proof {
        assert(bytes@.skip(0) =~= bytes@);
    }
    let (id, pos1) = match read_str(bytes, 0) {
        Some(p) => p,
        None => {
            return None;
        },
    };
    let (title, pos2) = match read_str(bytes, pos1) {
        Some(p) => p,
        None => {
            return None;
        },
    };
    let (content, pos3) = match read_str(bytes, pos2) {
        Some(p) => p,
        None => {
            return None;
        },
    };
    let (created_at, pos4) = match read_u64(bytes, pos3) {
        Some(p) => p,
        None => {
            return None;
        },
    };
    let (updated_at, pos5) = match read_u64(bytes, pos4) {
        Some(p) => p,
        None => {
            return None;
        },
    };
    if pos5 != bytes.len() {
        return None;
    }
    Some(Note { id, title, content, created_at, updated_at })
}

} // verus!
