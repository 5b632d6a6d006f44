//! The field stream underneath every message: a message is a run of fields,
//! each a key (tag and wire type) followed by a payload.

use vstd::prelude::*;
use vstd::slice::slice_subrange;
use vstd::slice::slice_to_vec;
use crate::wire::varint::{
    lemma_parse_varint_bounds, lemma_parse_varint_of_bytes, parse_varint, put_varint, read_varint,
    varint_bytes,
};

verus! {

/// The largest tag a key can carry.
pub const MAX_TAG: u32 = 0x1FFF_FFFF;

/// What a field carries, by wire type.
#[derive(Debug, PartialEq, Eq)]
pub enum Payload {
    /// Wire type 0: one varint.
    Varint(u64),
    /// Wire type 1: eight bytes.
    Fixed64(Vec<u8>),
    /// Wire type 2: a length, then that many bytes.
    Bytes(Vec<u8>),
    /// Wire type 5: four bytes.
    Fixed32(Vec<u8>),
}

pub enum PayloadView {
    Varint(u64),
    Fixed64(Seq<u8>),
    Bytes(Seq<u8>),
    Fixed32(Seq<u8>),
}

impl View for Payload {
    type V = PayloadView;

    open spec fn view(&self) -> PayloadView {
        match self {
            Payload::Varint(v) => PayloadView::Varint(*v),
            Payload::Fixed64(b) => PayloadView::Fixed64(b@),
            Payload::Bytes(b) => PayloadView::Bytes(b@),
            Payload::Fixed32(b) => PayloadView::Fixed32(b@),
        }
    }
}

/// One field of a message.
#[derive(Debug, PartialEq, Eq)]
pub struct Field {
    pub tag: u32,
    pub payload: Payload,
}

pub struct FieldView {
    pub tag: u32,
    pub payload: PayloadView,
}

impl View for Field {
    type V = FieldView;

    open spec fn view(&self) -> FieldView {
        FieldView { tag: self.tag, payload: self.payload@ }
    }
}

/// The views of a vector of fields, in order.
pub open spec fn field_views(fields: Seq<Field>) -> Seq<FieldView> {
    fields.map_values(|f: Field| f@)
}

pub open spec fn wire_type(payload: PayloadView) -> nat {
    match payload {
        PayloadView::Varint(_) => 0,
        PayloadView::Fixed64(_) => 1,
        PayloadView::Bytes(_) => 2,
        PayloadView::Fixed32(_) => 5,
    }
}

pub open spec fn payload_bytes(payload: PayloadView) -> Seq<u8> {
    match payload {
        PayloadView::Varint(v) => varint_bytes(v as nat),
        PayloadView::Fixed64(b) => b,
        PayloadView::Bytes(b) => varint_bytes(b.len()) + b,
        PayloadView::Fixed32(b) => b,
    }
}

/// The bytes of one field: its key, then its payload.
pub open spec fn field_bytes(field: FieldView) -> Seq<u8> {
    varint_bytes(field.tag as nat * 8 + wire_type(field.payload)) + payload_bytes(field.payload)
}

/// The bytes of a run of fields, one after the other.
pub open spec fn fields_bytes(fields: Seq<FieldView>) -> Seq<u8>
    decreases fields.len(),
{
    if fields.len() == 0 {
        Seq::empty()
    } else {
        field_bytes(fields[0]) + fields_bytes(fields.skip(1))
    }
}

/// A field that can be written so that it reads back: the tag fits a key, a
/// fixed payload has its width, a length fits its prefix.
pub open spec fn field_ok(field: FieldView) -> bool {
    &&& 1 <= field.tag <= MAX_TAG
    &&& match field.payload {
        PayloadView::Varint(_) => true,
        PayloadView::Fixed64(b) => b.len() == 8,
        PayloadView::Bytes(b) => b.len() <= u64::MAX,
        PayloadView::Fixed32(b) => b.len() == 4,
    }
}

pub open spec fn fields_ok(fields: Seq<FieldView>) -> bool {
    forall|i: int| 0 <= i < fields.len() ==> field_ok(#[trigger] fields[i])
}

/// What reading a payload of the given wire type from the front of `bytes`
/// gives, and how many bytes it takes.
pub open spec fn parse_payload(wire: nat, bytes: Seq<u8>) -> Option<(PayloadView, nat)> {
    if wire == 0 {
        match parse_varint(bytes) {
            Some((v, n)) => Some((PayloadView::Varint(v), n)),
            None => None,
        }
    } else if wire == 1 {
        if bytes.len() >= 8 {
            Some((PayloadView::Fixed64(bytes.subrange(0, 8)), 8))
        } else {
            None
        }
    } else if wire == 2 {
        match parse_varint(bytes) {
            Some((len, n)) => if len <= bytes.len() - n {
                Some((PayloadView::Bytes(bytes.subrange(n as int, n + len)), n + len as nat))
            } else {
                None
            },
            None => None,
        }
    } else if wire == 5 {
        if bytes.len() >= 4 {
            Some((PayloadView::Fixed32(bytes.subrange(0, 4)), 4))
        } else {
            None
        }
    } else {
        None
    }
}

/// What reading one field from the front of `bytes` gives, and how many bytes
/// it takes. Tag 0, a key beyond 32 bits and the wire types 3, 4, 6 and 7 are
/// refused.
pub open spec fn parse_field(bytes: Seq<u8>) -> Option<(FieldView, nat)> {
    match parse_varint(bytes) {
        None => None,
        Some((key, n)) => if key / 8 == 0 || key / 8 > MAX_TAG {
            None
        } else {
            match parse_payload((key % 8) as nat, bytes.skip(n as int)) {
                Some((payload, m)) => Some(
                    (FieldView { tag: (key / 8) as u32, payload }, n + m),
                ),
                None => None,
            }
        },
    }
}

/// What reading `bytes` as a run of fields gives: every byte must belong to a
/// field.
pub open spec fn parse_fields(bytes: Seq<u8>) -> Option<Seq<FieldView>>
    decreases bytes.len(),
{
    if bytes.len() == 0 {
        Some(Seq::empty())
    } else {
        match parse_field(bytes) {
            Some((field, n)) => if 0 < n <= bytes.len() {
                match parse_fields(bytes.skip(n as int)) {
                    Some(rest) => Some(seq![field] + rest),
                    None => None,
                }
            } else {
                None
            },
            None => None,
        }
    }
}

/// A field that can be read takes at least one byte and no more than there are.
pub proof fn lemma_parse_field_bounds(bytes: Seq<u8>)
    ensures
        parse_field(bytes) matches Some((_, n)) ==> 1 <= n <= bytes.len(),
{
    lemma_parse_varint_bounds(bytes);
    if let Some((key, n)) = parse_varint(bytes) {
        lemma_parse_varint_bounds(bytes.skip(n as int));
    }
}

/// A well-formed field reads back as itself, whatever follows it.
pub proof fn lemma_parse_field_of_bytes(field: FieldView, rest: Seq<u8>)
    requires
        field_ok(field),
    ensures
        parse_field(field_bytes(field) + rest) == Some((field, field_bytes(field).len())),
        field_bytes(field).len() >= 1,
{
    let wire = wire_type(field.payload);
    let key = (field.tag as nat * 8 + wire) as u64;
    let body = payload_bytes(field.payload);
    let all = field_bytes(field) + rest;
    let key_len = varint_bytes(key as nat).len();
    assert(all =~= varint_bytes(key as nat) + (body + rest));
    lemma_parse_varint_of_bytes(key, body + rest);
    assert(key / 8 == field.tag && key % 8 == wire);
    assert(all.skip(key_len as int) =~= body + rest);
    match field.payload {
        PayloadView::Varint(v) => {
            lemma_parse_varint_of_bytes(v, rest);
        },
        PayloadView::Fixed64(b) => {
            assert((body + rest).subrange(0, 8) =~= b);
        },
        PayloadView::Bytes(b) => {
            let len = b.len() as u64;
            let len_len = varint_bytes(len as nat).len();
            assert(body + rest =~= varint_bytes(len as nat) + (b + rest));
            lemma_parse_varint_of_bytes(len, b + rest);
            assert((body + rest).subrange(len_len as int, len_len + len) =~= b);
        },
        PayloadView::Fixed32(b) => {
            assert((body + rest).subrange(0, 4) =~= b);
        },
    }
}

/// A run of well-formed fields reads back as itself.
pub proof fn lemma_parse_fields_of_bytes(fields: Seq<FieldView>)
    requires
        fields_ok(fields),
    ensures
        parse_fields(fields_bytes(fields)) == Some(fields),
    decreases fields.len(),
{
    if fields.len() > 0 {
        let tail = fields.skip(1);
        let tail_bytes = fields_bytes(tail);
        lemma_parse_field_of_bytes(fields[0], tail_bytes);
        let n = field_bytes(fields[0]).len();
        assert(fields_bytes(fields).skip(n as int) =~= tail_bytes);
        assert(fields_ok(tail)) by {
            assert forall|i: int| 0 <= i < tail.len() implies field_ok(#[trigger] tail[i]) by {
                assert(tail[i] == fields[i + 1]);
            }
        }
        lemma_parse_fields_of_bytes(tail);
        assert(seq![fields[0]] + tail =~= fields);
    } else {
        assert(fields =~= Seq::empty());
    }
}

/// Writing two runs of fields one after the other writes their concatenation.
pub proof fn lemma_fields_bytes_concat(a: Seq<FieldView>, b: Seq<FieldView>)
    ensures
        fields_bytes(a + b) == fields_bytes(a) + fields_bytes(b),
    decreases a.len(),
{
    if a.len() == 0 {
        assert(a + b =~= b);
        assert(fields_bytes(a) + fields_bytes(b) =~= fields_bytes(b));
    } else {
        assert((a + b).skip(1) =~= a.skip(1) + b);
        lemma_fields_bytes_concat(a.skip(1), b);
        assert(fields_bytes(a + b) =~= fields_bytes(a) + fields_bytes(b));
    }
}

/// Writing one more field after a run appends that field's bytes.
pub proof fn lemma_fields_bytes_push(a: Seq<FieldView>, f: FieldView)
    ensures
        fields_bytes(a.push(f)) == fields_bytes(a) + field_bytes(f),
{
    assert(a.push(f) =~= a + seq![f]);
    lemma_fields_bytes_concat(a, seq![f]);
    let one = seq![f];
    assert(one.skip(1) =~= Seq::<FieldView>::empty());
    assert(fields_bytes(one.skip(1)) =~= Seq::<u8>::empty());
    assert(fields_bytes(one) =~= field_bytes(one[0]) + fields_bytes(one.skip(1)));
    assert(fields_bytes(one) =~= field_bytes(f));
}

/// Reads the field that starts at `pos` and returns it with the position
/// behind it.
fn read_field(data: &[u8], pos: usize) -> (r: Option<(Field, usize)>)
    requires
        pos <= data@.len(),
    ensures
        match parse_field(data@.skip(pos as int)) {
            Some((field, n)) => r.is_some() && r.unwrap().0@ == field && r.unwrap().1 == pos + n,
            None => r.is_none(),
        },
{
    let total = data.len();
    let here = slice_subrange(data, pos, total);
    proof {
        lemma_parse_varint_bounds(here@);
    }
    let (key, left) = match read_varint(here) {
        Ok(pair) => pair,
        Err(_) => {
            return None;
        },
    };
    let tag64 = key / 8;
    let wire = key % 8;
    if tag64 == 0 || tag64 > MAX_TAG as u64 {
        return None;
    }
    let tag = tag64 as u32;
    let body_at = total - left;
    let body = slice_subrange(data, body_at, total);
    assert(body@ =~= here@.skip((body_at - pos) as int));
    proof {
        lemma_parse_varint_bounds(body@);
    }
    if wire == 0 {
        match read_varint(body) {
            Ok((value, after)) => Some((Field { tag, payload: Payload::Varint(value) }, total - after)),
            Err(_) => None,
        }
    } else if wire == 1 {
        if left >= 8 {
            let raw = slice_to_vec(slice_subrange(data, body_at, body_at + 8));
            assert(raw@ =~= body@.subrange(0, 8));
            Some((Field { tag, payload: Payload::Fixed64(raw) }, body_at + 8))
        } else {
            None
        }
    } else if wire == 2 {
        match read_varint(body) {
            Ok((len, after)) => {
                if len <= after as u64 {
                    let start = total - after;
                    let end = start + len as usize;
                    let raw = slice_to_vec(slice_subrange(data, start, end));
                    assert(raw@ =~= body@.subrange(
                        (start - body_at) as int,
                        (start - body_at) + len,
                    ));
                    Some((Field { tag, payload: Payload::Bytes(raw) }, end))
                } else {
                    None
                }
            },
            Err(_) => None,
        }
    } else if wire == 5 {
        if left >= 4 {
            let raw = slice_to_vec(slice_subrange(data, body_at, body_at + 4));
            assert(raw@ =~= body@.subrange(0, 4));
            Some((Field { tag, payload: Payload::Fixed32(raw) }, body_at + 4))
        } else {
            None
        }
    } else {
        None
    }
}

/// Reads `data` as a run of fields. `None` when some byte belongs to no field.
pub fn read_fields(data: &[u8]) -> (r: Option<Vec<Field>>)
    ensures
        match parse_fields(data@) {
            Some(fields) => r.is_some() && field_views(r.unwrap()@) == fields,
            None => r.is_none(),
        },
{
    let mut out: Vec<Field> = Vec::new();
    let mut pos: usize = 0;
    assert(data@.skip(0) =~= data@);
    assert(field_views(out@) =~= Seq::empty());
    while pos < data.len()
        invariant
            pos <= data@.len(),
            parse_fields(data@) == match parse_fields(data@.skip(pos as int)) {
                Some(rest) => Some(field_views(out@) + rest),
                None => None,
            },
        decreases data@.len() - pos,
    {
        proof {
            lemma_parse_field_bounds(data@.skip(pos as int));
        }
        match read_field(data, pos) {
            Some((field, next)) => {
                proof {
                    let here = data@.skip(pos as int);
                    assert(here.skip((next - pos) as int) =~= data@.skip(next as int));
                    let ghost_views = field_views(out@);
                    assert(field_views(out@.push(field)) =~= ghost_views.push(field@));
                    if let Some(rest) = parse_fields(data@.skip(next as int)) {
                        assert(ghost_views + (seq![field@] + rest) =~= ghost_views.push(field@)
                            + rest);
                    }
                }
                out.push(field);
                pos = next;
            },
            None => {
                return None;
            },
        }
    }
    assert(field_views(out@) + Seq::<FieldView>::empty() =~= field_views(out@));
    Some(out)
}

/// Appends the key of a field with the given tag and wire type.
fn put_key(buf: &mut Vec<u8>, tag: u32, wire: u8)
    requires
        tag <= MAX_TAG,
        wire < 8,
    ensures
        final(buf)@ == old(buf)@ + varint_bytes(tag as nat * 8 + wire as nat),
{
    put_varint(tag as u64 * 8 + wire as u64, buf);
}

/// Appends a varint field.
pub fn put_varint_field(buf: &mut Vec<u8>, tag: u32, value: u64)
    requires
        1 <= tag <= MAX_TAG,
    ensures
        final(buf)@ == old(buf)@ + field_bytes(
            FieldView { tag, payload: PayloadView::Varint(value) },
        ),
{
    put_key(buf, tag, 0);
    put_varint(value, buf);
    assert(buf@ =~= old(buf)@ + field_bytes(
        FieldView { tag, payload: PayloadView::Varint(value) },
    ));
}

/// Appends a length-delimited field that carries `bytes`.
pub fn put_bytes_field(buf: &mut Vec<u8>, tag: u32, bytes: &[u8])
    requires
        1 <= tag <= MAX_TAG,
    ensures
        final(buf)@ == old(buf)@ + field_bytes(
            FieldView { tag, payload: PayloadView::Bytes(bytes@) },
        ),
{
    put_key(buf, tag, 2);
    put_varint(bytes.len() as u64, buf);
    let ghost before = buf@;
    buf.extend_from_slice(bytes);
    assert(buf@ =~= before + bytes@);
    assert(buf@ =~= old(buf)@ + field_bytes(
        FieldView { tag, payload: PayloadView::Bytes(bytes@) },
    ));
}

} // verus!
