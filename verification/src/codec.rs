//! A stable binary codec for variant lists.
//!
//! A variant list is stored under one database key as a single value, so the
//! codec must be an exact inverse pair: [`encode_entities`] produces the
//! canonical byte string for a list, and [`decode_entities`] accepts exactly
//! the byte strings that such an encoding produces.  Strings are stored as
//! length-prefixed UTF-8; byte bodies as length-prefixed raw bytes; lengths
//! as 64-bit little-endian integers.

use vstd::bytes::{
    lemma_auto_spec_u64_to_from_le_bytes, spec_u64_from_le_bytes, spec_u64_to_le_bytes,
    u64_from_le_bytes, u64_to_le_bytes,
};
use vstd::prelude::*;
use vstd::slice::{slice_subrange, slice_to_vec};
use vstd::string::StrSliceExecFns;
use vstd::utf8::{decode_utf8, encode_utf8, encode_utf8_decode_utf8, encode_utf8_valid_utf8,
    valid_utf8};

use crate::entity::{Entity, EntityView, Payload, PayloadView};

verus! {

// ---------------------------------------------------------------------------
// The encoding, as a specification.
// ---------------------------------------------------------------------------
/// A length-prefixed byte string: 8 bytes of little-endian length, then the
/// bytes themselves.
pub open spec fn enc_bytes(b: Seq<u8>) -> Seq<u8> {
    spec_u64_to_le_bytes(b.len() as u64) + b
}

/// A length-prefixed string: its UTF-8 bytes, length-prefixed.
pub open spec fn enc_str(s: Seq<char>) -> Seq<u8> {
    enc_bytes(encode_utf8(s))
}

/// An optional content-coding: a presence tag, then the string if present.
pub open spec fn enc_encoding(e: Option<Seq<char>>) -> Seq<u8> {
    match e {
        Option::None => seq![0u8],
        Option::Some(s) => seq![1u8] + enc_str(s),
    }
}

/// A payload: a variant tag, then the body bytes or the redirect target.
pub open spec fn enc_payload(p: PayloadView) -> Seq<u8> {
    match p {
        PayloadView::Body(b) => seq![0u8] + enc_bytes(b),
        PayloadView::Redirect(t) => seq![1u8] + enc_str(t),
    }
}

/// One entity record: MIME type, coding, payload, in that order.
pub open spec fn enc_entity(e: EntityView) -> Seq<u8> {
    enc_str(e.mime_type) + enc_encoding(e.encoding) + enc_payload(e.payload)
}

/// The records of a list, concatenated.
pub open spec fn enc_entity_seq(vs: Seq<EntityView>) -> Seq<u8>
    decreases vs.len(),
{
    if vs.len() == 0 {
        seq![]
    } else {
        enc_entity(vs[0]) + enc_entity_seq(vs.drop_first())
    }
}

/// The encoding of a whole variant list: the count, then the records.
pub open spec fn encode_list(vs: Seq<EntityView>) -> Seq<u8> {
    spec_u64_to_le_bytes(vs.len() as u64) + enc_entity_seq(vs)
}

/// Every length that the encoding writes fits its 64-bit prefix.  Lists
/// built from in-memory values always satisfy this.
pub open spec fn wf_entity(e: EntityView) -> bool {
    &&& encode_utf8(e.mime_type).len() <= u64::MAX
    &&& match e.encoding {
        Option::Some(s) => encode_utf8(s).len() <= u64::MAX,
        Option::None => true,
    }
    &&& match e.payload {
        PayloadView::Body(b) => b.len() <= u64::MAX,
        PayloadView::Redirect(t) => encode_utf8(t).len() <= u64::MAX,
    }
}

/// A well-formed list: its count and all its fields fit their prefixes.
pub open spec fn wf_list(vs: Seq<EntityView>) -> bool {
    &&& vs.len() <= u64::MAX
    &&& forall|i: int| 0 <= i < vs.len() ==> wf_entity(#[trigger] vs[i])
}

// ---------------------------------------------------------------------------
// The decoding, as a specification.  Each step reads one field from the
// front and returns the value with the remaining bytes, or nothing when the
// bytes are not a valid encoding.
// ---------------------------------------------------------------------------
pub open spec fn dec_u64(b: Seq<u8>) -> Option<(u64, Seq<u8>)> {
    if b.len() >= 8 {
        Option::Some((spec_u64_from_le_bytes(b.take(8)), b.skip(8)))
    } else {
        Option::None
    }
}

pub open spec fn dec_bytes(b: Seq<u8>) -> Option<(Seq<u8>, Seq<u8>)> {
    match dec_u64(b) {
        Option::None => Option::None,
        Option::Some((n, r)) => if r.len() >= n {
            Option::Some((r.take(n as int), r.skip(n as int)))
        } else {
            Option::None
        },
    }
}

pub open spec fn dec_str(b: Seq<u8>) -> Option<(Seq<char>, Seq<u8>)> {
    match dec_bytes(b) {
        Option::None => Option::None,
        Option::Some((bs, r)) => if valid_utf8(bs) {
            Option::Some((decode_utf8(bs), r))
        } else {
            Option::None
        },
    }
}

pub open spec fn dec_encoding(b: Seq<u8>) -> Option<(Option<Seq<char>>, Seq<u8>)> {
    if b.len() < 1 {
        Option::None
    } else if b[0] == 0u8 {
        Option::Some((Option::None, b.skip(1)))
    } else if b[0] == 1u8 {
        match dec_str(b.skip(1)) {
            Option::None => Option::None,
            Option::Some((s, r)) => Option::Some((Option::Some(s), r)),
        }
    } else {
        Option::None
    }
}

pub open spec fn dec_payload(b: Seq<u8>) -> Option<(PayloadView, Seq<u8>)> {
    if b.len() < 1 {
        Option::None
    } else if b[0] == 0u8 {
        match dec_bytes(b.skip(1)) {
            Option::None => Option::None,
            Option::Some((bs, r)) => Option::Some((PayloadView::Body(bs), r)),
        }
    } else if b[0] == 1u8 {
        match dec_str(b.skip(1)) {
            Option::None => Option::None,
            Option::Some((t, r)) => Option::Some((PayloadView::Redirect(t), r)),
        }
    } else {
        Option::None
    }
}

pub open spec fn dec_entity(b: Seq<u8>) -> Option<(EntityView, Seq<u8>)> {
    match dec_str(b) {
        Option::None => Option::None,
        Option::Some((m, b1)) => match dec_encoding(b1) {
            Option::None => Option::None,
            Option::Some((e, b2)) => match dec_payload(b2) {
                Option::None => Option::None,
                Option::Some((p, b3)) => Option::Some(
                    (EntityView { mime_type: m, encoding: e, payload: p }, b3),
                ),
            },
        },
    }
}

pub open spec fn dec_entity_seq(b: Seq<u8>, n: nat) -> Option<(Seq<EntityView>, Seq<u8>)>
    decreases n,
{
    if n == 0 {
        Option::Some((Seq::empty(), b))
    } else {
        match dec_entity(b) {
            Option::None => Option::None,
            Option::Some((e, r)) => match dec_entity_seq(r, (n - 1) as nat) {
                Option::None => Option::None,
                Option::Some((vs, r2)) => Option::Some((seq![e] + vs, r2)),
            },
        }
    }
}

/// The decoding of a whole value: the count, that many records, and nothing
/// after them.
pub open spec fn decode_list(b: Seq<u8>) -> Option<Seq<EntityView>> {
    match dec_u64(b) {
        Option::None => Option::None,
        Option::Some((n, r)) => match dec_entity_seq(r, n as nat) {
            Option::None => Option::None,
            Option::Some((vs, rest)) => if rest.len() == 0 {
                Option::Some(vs)
            } else {
                Option::None
            },
        },
    }
}

// ---------------------------------------------------------------------------
// Round trip: decoding inverts encoding, field by field.
// ---------------------------------------------------------------------------
proof fn lemma_dec_u64(x: u64, tail: Seq<u8>)
    ensures
        dec_u64(spec_u64_to_le_bytes(x) + tail) == Option::Some((x, tail)),
{
    lemma_auto_spec_u64_to_from_le_bytes();
    let b = spec_u64_to_le_bytes(x) + tail;
    assert(b.take(8) =~= spec_u64_to_le_bytes(x));
    assert(b.skip(8) =~= tail);
}

proof fn lemma_dec_bytes(bs: Seq<u8>, tail: Seq<u8>)
    requires
        bs.len() <= u64::MAX,
    ensures
        dec_bytes(enc_bytes(bs) + tail) == Option::Some((bs, tail)),
{
    let b = enc_bytes(bs) + tail;
    assert(b =~= spec_u64_to_le_bytes(bs.len() as u64) + (bs + tail));
    lemma_dec_u64(bs.len() as u64, bs + tail);
    assert((bs + tail).take(bs.len() as int) =~= bs);
    assert((bs + tail).skip(bs.len() as int) =~= tail);
}

proof fn lemma_dec_str(s: Seq<char>, tail: Seq<u8>)
    requires
        encode_utf8(s).len() <= u64::MAX,
    ensures
        dec_str(enc_str(s) + tail) == Option::Some((s, tail)),
{
    lemma_dec_bytes(encode_utf8(s), tail);
    encode_utf8_valid_utf8(s);
    encode_utf8_decode_utf8(s);
}

proof fn lemma_dec_encoding(e: Option<Seq<char>>, tail: Seq<u8>)
    requires
        match e {
            Option::Some(s) => encode_utf8(s).len() <= u64::MAX,
            Option::None => true,
        },
    ensures
        dec_encoding(enc_encoding(e) + tail) == Option::Some((e, tail)),
{
    match e {
        Option::None => {
            let b = enc_encoding(e) + tail;
            assert(b[0] == 0u8);
            assert(b.skip(1) =~= tail);
        },
        Option::Some(s) => {
            let b = enc_encoding(e) + tail;
            assert(b[0] == 1u8);
            assert(b.skip(1) =~= enc_str(s) + tail);
            lemma_dec_str(s, tail);
        },
    }
}

proof fn lemma_dec_payload(p: PayloadView, tail: Seq<u8>)
    requires
        match p {
            PayloadView::Body(b) => b.len() <= u64::MAX,
            PayloadView::Redirect(t) => encode_utf8(t).len() <= u64::MAX,
        },
    ensures
        dec_payload(enc_payload(p) + tail) == Option::Some((p, tail)),
{
    match p {
        PayloadView::Body(bs) => {
            let b = enc_payload(p) + tail;
            assert(b[0] == 0u8);
            assert(b.skip(1) =~= enc_bytes(bs) + tail);
            lemma_dec_bytes(bs, tail);
        },
        PayloadView::Redirect(t) => {
            let b = enc_payload(p) + tail;
            assert(b[0] == 1u8);
            assert(b.skip(1) =~= enc_str(t) + tail);
            lemma_dec_str(t, tail);
        },
    }
}

proof fn lemma_dec_entity(e: EntityView, tail: Seq<u8>)
    requires
        wf_entity(e),
    ensures
        dec_entity(enc_entity(e) + tail) == Option::Some((e, tail)),
{
    let b = enc_entity(e) + tail;
    assert(b =~= enc_str(e.mime_type) + (enc_encoding(e.encoding) + (enc_payload(e.payload)
        + tail)));
    lemma_dec_str(e.mime_type, enc_encoding(e.encoding) + (enc_payload(e.payload) + tail));
    lemma_dec_encoding(e.encoding, enc_payload(e.payload) + tail);
    lemma_dec_payload(e.payload, tail);
}

#[verifier::rlimit(50)]
proof fn lemma_dec_entity_seq(vs: Seq<EntityView>, tail: Seq<u8>)
    requires
        forall|i: int| 0 <= i < vs.len() ==> wf_entity(#[trigger] vs[i]),
    ensures
        dec_entity_seq(enc_entity_seq(vs) + tail, vs.len()) == Option::Some((vs, tail)),
    decreases vs.len(),
{
    if vs.len() == 0 {
        assert(enc_entity_seq(vs) + tail =~= tail);
        assert(dec_entity_seq(tail, 0) == Option::Some((Seq::<EntityView>::empty(), tail)));
        assert(vs =~= Seq::<EntityView>::empty());
    } else {
        let b = enc_entity_seq(vs) + tail;
        assert(b =~= enc_entity(vs[0]) + (enc_entity_seq(vs.drop_first()) + tail));
        lemma_dec_entity(vs[0], enc_entity_seq(vs.drop_first()) + tail);
        lemma_dec_entity_seq(vs.drop_first(), tail);
        assert(seq![vs[0]] + vs.drop_first() =~= vs);
    }
}

/// Decoding inverts encoding: any well-formed variant list is recovered
/// exactly from its own encoding.
pub proof fn lemma_codec_round_trip(vs: Seq<EntityView>)
    requires
        wf_list(vs),
    ensures
        decode_list(encode_list(vs)) == Option::Some(vs),
{
    lemma_dec_u64(vs.len() as u64, enc_entity_seq(vs));
    assert(enc_entity_seq(vs) =~= enc_entity_seq(vs) + Seq::<u8>::empty());
    lemma_dec_entity_seq(vs, Seq::empty());
}

// ---------------------------------------------------------------------------
// Executable encoder.
// ---------------------------------------------------------------------------
fn append_bytes(out: &mut Vec<u8>, b: &[u8])
    ensures
        final(out)@ == old(out)@ + enc_bytes(b@),
        b@.len() <= u64::MAX,
{
    let len: usize = b.len();
    let mut len_bytes = u64_to_le_bytes(len as u64);
    out.append(&mut len_bytes);
    out.extend_from_slice(b);
}

fn append_str(out: &mut Vec<u8>, s: &String)
    ensures
        final(out)@ == old(out)@ + enc_str(s@),
        encode_utf8(s@).len() <= u64::MAX,
{
    append_bytes(out, s.as_str().as_bytes());
}

fn append_entity(out: &mut Vec<u8>, e: &Entity)
    ensures
        final(out)@ == old(out)@ + enc_entity(e@),
        wf_entity(e@),
{
    append_str(out, &e.mime_type);
    match &e.encoding {
        Option::None => out.push(0u8),
        Option::Some(s) => {
            out.push(1u8);
            append_str(out, s);
        },
    }
    match &e.payload {
        Payload::Body(b) => {
            out.push(0u8);
            append_bytes(out, b.as_slice());
        },
        Payload::Redirect(t) => {
            out.push(1u8);
            append_str(out, t);
        },
    }
    proof {
        assert(out@ =~= old(out)@ + enc_entity(e@));
    }
}

/// Encode a variant list as its canonical byte string.
pub fn encode_entities(entities: &Vec<Entity>) -> (r: Vec<u8>)
    ensures
        wf_list(entities.deep_view()),
        r@ == encode_list(entities.deep_view()),
{
    let ghost vs = entities.deep_view();
    let mut out = u64_to_le_bytes(entities.len() as u64);
    let mut i: usize = 0;
    while i < entities.len()
        invariant
            i <= entities.len(),
            vs == entities.deep_view(),
            vs.len() == entities.len(),
            forall|j: int| 0 <= j < i ==> wf_entity(#[trigger] vs[j]),
            out@ == spec_u64_to_le_bytes(vs.len() as u64) + enc_entity_seq(vs.take(i as int)),
        decreases entities.len() - i,
    {
        append_entity(&mut out, &entities[i]);
        proof {
            assert(entities[i as int].deep_view() == vs[i as int]);
            assert(vs.take(i + 1) =~= vs.take(i as int).push(vs[i as int]));
            lemma_enc_entity_seq_push(vs.take(i as int), vs[i as int]);
        }
        i = i + 1;
    }
    proof {
        assert(vs.take(vs.len() as int) =~= vs);
    }
    out
}

/// Appending one record to a list extends its concatenated encoding.
proof fn lemma_enc_entity_seq_push(s: Seq<EntityView>, x: EntityView)
    ensures
        enc_entity_seq(s.push(x)) == enc_entity_seq(s) + enc_entity(x),
    decreases s.len(),
{
    if s.len() == 0 {
        assert(s.push(x) =~= seq![x]);
        assert(s.push(x).drop_first() =~= Seq::<EntityView>::empty());
        assert(enc_entity_seq(Seq::<EntityView>::empty()) =~= Seq::<u8>::empty());
        assert(enc_entity_seq(s.push(x)) =~= enc_entity(s.push(x)[0]) + enc_entity_seq(
            s.push(x).drop_first(),
        ));
        assert(enc_entity_seq(s.push(x)) =~= enc_entity(x));
        assert(enc_entity_seq(s) + enc_entity(x) =~= enc_entity(x));
    } else {
        assert(s.push(x).drop_first() =~= s.drop_first().push(x));
        lemma_enc_entity_seq_push(s.drop_first(), x);
        assert(s.push(x)[0] == s[0]);
        assert(enc_entity(s[0]) + (enc_entity_seq(s.drop_first()) + enc_entity(x)) =~= (enc_entity(
            s[0],
        ) + enc_entity_seq(s.drop_first())) + enc_entity(x));
    }
}

// ---------------------------------------------------------------------------
// Executable decoder.
// ---------------------------------------------------------------------------
/// Relies on `String::from_utf8`: it succeeds exactly on valid UTF-8 input
/// and returns the string those bytes encode.
#[verifier::external_body]
fn bytes_to_string(v: Vec<u8>) -> (r: Option<String>)
    ensures
        match r {
            Option::Some(s) => valid_utf8(v@) && s@ == decode_utf8(v@),
            Option::None => !valid_utf8(v@),
        },
{
    String::from_utf8(v).ok()
}

fn read_u64(bytes: &[u8], pos: usize) -> (r: Option<(u64, usize)>)
    requires
        pos <= bytes@.len(),
    ensures
        match r {
            Option::Some(p) => p.1 <= bytes@.len() && pos <= p.1 && dec_u64(
                bytes@.skip(pos as int),
            ) == Option::Some((p.0, bytes@.skip(p.1 as int))),
            Option::None => dec_u64(bytes@.skip(pos as int)) is None,
        },
{
    if bytes.len() - pos >= 8 {
        let s8 = slice_subrange(bytes, pos, pos + 8);
        let x = u64_from_le_bytes(s8);
        proof {
            assert(bytes@.skip(pos as int).take(8) =~= bytes@.subrange(pos as int, pos + 8));
            assert(bytes@.skip(pos as int).skip(8) =~= bytes@.skip(pos + 8));
        }
        Option::Some((x, pos + 8))
    } else {
        Option::None
    }
}

fn read_chunk(bytes: &[u8], pos: usize) -> (r: Option<(Vec<u8>, usize)>)
    requires
        pos <= bytes@.len(),
    ensures
        match r {
            Option::Some(p) => p.1 <= bytes@.len() && pos <= p.1 && dec_bytes(
                bytes@.skip(pos as int),
            ) == Option::Some((p.0@, bytes@.skip(p.1 as int))),
            Option::None => dec_bytes(bytes@.skip(pos as int)) is None,
        },
{
    match read_u64(bytes, pos) {
        Option::None => Option::None,
        Option::Some((n, p1)) => {
            if n <= (bytes.len() - p1) as u64 {
                let end = p1 + (n as usize);
                let v = slice_to_vec(slice_subrange(bytes, p1, end));
                proof {
                    assert(bytes@.skip(p1 as int).take(n as int) =~= bytes@.subrange(
                        p1 as int,
                        end as int,
                    ));
                    assert(bytes@.skip(p1 as int).skip(n as int) =~= bytes@.skip(end as int));
                }
                Option::Some((v, end))
            } else {
                proof {
                    assert(bytes@.skip(p1 as int).len() < n);
                }
                Option::None
            }
        },
    }
}

fn read_string(bytes: &[u8], pos: usize) -> (r: Option<(String, usize)>)
    requires
        pos <= bytes@.len(),
    ensures
        match r {
            Option::Some(p) => p.1 <= bytes@.len() && pos <= p.1 && dec_str(
                bytes@.skip(pos as int),
            ) == Option::Some((p.0@, bytes@.skip(p.1 as int))),
            Option::None => dec_str(bytes@.skip(pos as int)) is None,
        },
{
    match read_chunk(bytes, pos) {
        Option::None => Option::None,
        Option::Some((v, p1)) => match bytes_to_string(v) {
            Option::None => Option::None,
            Option::Some(s) => Option::Some((s, p1)),
        },
    }
}

fn read_tag(bytes: &[u8], pos: usize) -> (r: Option<(u8, usize)>)
    requires
        pos <= bytes@.len(),
    ensures
        match r {
            Option::Some(p) => p.1 == pos + 1 && p.1 <= bytes@.len() && bytes@.skip(pos as int).len()
                >= 1 && p.0 == bytes@.skip(pos as int)[0] && bytes@.skip(pos as int).skip(1)
                =~= bytes@.skip(p.1 as int),
            Option::None => bytes@.skip(pos as int).len() < 1,
        },
{
    if pos < bytes.len() {
        Option::Some((bytes[pos], pos + 1))
    } else {
        Option::None
    }
}

fn read_entity(bytes: &[u8], pos: usize) -> (r: Option<(Entity, usize)>)
    requires
        pos <= bytes@.len(),
    ensures
        match r {
            Option::Some(p) => p.1 <= bytes@.len() && pos <= p.1 && dec_entity(
                bytes@.skip(pos as int),
            ) == Option::Some((p.0.deep_view(), bytes@.skip(p.1 as int))),
            Option::None => dec_entity(bytes@.skip(pos as int)) is None,
        },
{
    let (mime_type, p1) = match read_string(bytes, pos) {
        Option::None => {
            return Option::None;
        },
        Option::Some(p) => p,
    };
    let (encoding, p2) = match read_tag(bytes, p1) {
        Option::None => {
            return Option::None;
        },
        Option::Some((0u8, q)) => (Option::None, q),
        Option::Some((1u8, q)) => match read_string(bytes, q) {
            Option::None => {
                return Option::None;
            },
            Option::Some((s, q2)) => (Option::Some(s), q2),
        },
        Option::Some((_, _)) => {
            return Option::None;
        },
    };
    let (payload, p3) = match read_tag(bytes, p2) {
        Option::None => {
            return Option::None;
        },
        Option::Some((0u8, q)) => match read_chunk(bytes, q) {
            Option::None => {
                return Option::None;
            },
            Option::Some((b, q2)) => (Payload::Body(b), q2),
        },
        Option::Some((1u8, q)) => match read_string(bytes, q) {
            Option::None => {
                return Option::None;
            },
            Option::Some((t, q2)) => (Payload::Redirect(t), q2),
        },
        Option::Some((_, _)) => {
            return Option::None;
        },
    };
    Option::Some((Entity { mime_type, encoding, payload }, p3))
}

/// Decode a byte string as a variant list; `None` means the bytes are not a
/// valid encoding.
pub fn decode_entities(bytes: &[u8]) -> (r: Option<Vec<Entity>>)
    ensures
        match r {
            Option::Some(v) => decode_list(bytes@) == Option::Some(v.deep_view()),
            Option::None => decode_list(bytes@) is None,
        },
{
    proof {
        assert(bytes@.skip(0) =~= bytes@);
    }
    let (n, start) = match read_u64(bytes, 0) {
        Option::None => {
            return Option::None;
        },
        Option::Some(p) => p,
    };
    let mut acc: Vec<Entity> = Vec::new();
    let mut pos: usize = start;
    let mut i: u64 = 0;
    while i < n
        invariant
            i <= n,
            pos <= bytes@.len(),
            acc.deep_view().len() == i,
            dec_u64(bytes@) == Option::Some((n, bytes@.skip(start as int))),
            match dec_entity_seq(bytes@.skip(pos as int), (n - i) as nat) {
                Option::Some(p) => dec_entity_seq(bytes@.skip(start as int), n as nat)
                    == Option::Some((acc.deep_view() + p.0, p.1)),
                Option::None => dec_entity_seq(bytes@.skip(start as int), n as nat) is None,
            },
        decreases n - i,
    {
        match read_entity(bytes, pos) {
            Option::None => {
                return Option::None;
            },
            Option::Some((e, p2)) => {
                let ghost pre = acc.deep_view();
                proof {
                    match dec_entity_seq(bytes@.skip(p2 as int), (n - i - 1) as nat) {
                        Option::Some(p) => {
                            assert(pre + (seq![e.deep_view()] + p.0) =~= pre.push(e.deep_view())
                                + p.0);
                        },
                        Option::None => {},
                    }
                }
                acc.push(e);
                proof {
                    assert(acc.deep_view() =~= pre.push(e.deep_view()));
                }
                pos = p2;
                i = i + 1;
            },
        }
    }
    if pos == bytes.len() {
        proof {
            assert(bytes@.skip(pos as int).len() == 0);
            assert(dec_entity_seq(bytes@.skip(pos as int), 0) == Option::Some(
                (Seq::<EntityView>::empty(), bytes@.skip(pos as int)),
            ));
            assert(acc.deep_view() + Seq::<EntityView>::empty() =~= acc.deep_view());
        }
        Option::Some(acc)
    } else {
        proof {
            assert(bytes@.skip(pos as int).len() > 0);
        }
        Option::None
    }
}

} // verus!
