//! MessagePack values: the tree that a payload decodes to.

use byteorder::{ByteOrder, LittleEndian};
use vstd::prelude::*;

verus! {

/// A MessagePack integer.
#[derive(Debug, Clone, Copy, PartialEq, Eq, Structural)]
pub enum PackInt {
    /// A non-negative integer.
    Pos(u64),
    /// A negative integer.
    Neg(i64),
}

/// A MessagePack value. Floats are held as their IEEE 754 bits; a string
/// that is not UTF-8 is held as `String(None)`.
#[derive(Debug)]
pub enum PackValue {
    Nil,
    Boolean(bool),
    Integer(PackInt),
    F32(u32),
    F64(u64),
    String(Option<String>),
    Binary(Vec<u8>),
    Array(Vec<PackValue>),
    Dict(Vec<(PackValue, PackValue)>),
    Ext(i8, Vec<u8>),
}

/// What a MessagePack value holds.
pub ghost enum PackView {
    Nil,
    Boolean(bool),
    Integer(PackInt),
    F32(u32),
    F64(u64),
    String(Option<Seq<char>>),
    Binary(Seq<u8>),
    Array(Seq<PackView>),
    Dict(Seq<(PackView, PackView)>),
    Ext(i8, Seq<u8>),
}

/// What a MessagePack value holds.
pub open spec fn pack_view(value: PackValue) -> PackView
    decreases value,
{
    match value {
        PackValue::Nil => PackView::Nil,
        PackValue::Boolean(b) => PackView::Boolean(b),
        PackValue::Integer(n) => PackView::Integer(n),
        PackValue::F32(bits) => PackView::F32(bits),
        PackValue::F64(bits) => PackView::F64(bits),
        PackValue::String(s) => PackView::String(
            match s {
                Some(t) => Some(t@),
                None => None,
            },
        ),
        PackValue::Binary(b) => PackView::Binary(b@),
        PackValue::Array(items) => PackView::Array(
            Seq::new(
                items@.len(),
                |i: int|
                    if 0 <= i < items@.len() {
                        pack_view(items@[i])
                    } else {
                        PackView::Nil
                    },
            ),
        ),
        PackValue::Dict(pairs) => PackView::Dict(
            Seq::new(
                pairs@.len(),
                |i: int|
                    if 0 <= i < pairs@.len() {
                        (pack_view(pairs@[i].0), pack_view(pairs@[i].1))
                    } else {
                        (PackView::Nil, PackView::Nil)
                    },
            ),
        ),
        PackValue::Ext(tag, b) => PackView::Ext(tag, b@),
    }
}

impl View for PackValue {
    type V = PackView;

    open spec fn view(&self) -> PackView {
        pack_view(*self)
    }
}

/// The views of the pairs of a map.
pub open spec fn pair_views(pairs: Seq<(PackValue, PackValue)>) -> Seq<(PackView, PackView)> {
    Seq::new(pairs.len(), |i: int| (pairs[i].0@, pairs[i].1@))
}

/// The views of the items of an array.
pub open spec fn item_views(items: Seq<PackValue>) -> Seq<PackView> {
    Seq::new(items.len(), |i: int| items[i]@)
}

/// The view of a map is the map of the views of its pairs, and the view of
/// an array the array of the views of its items.
pub proof fn lemma_pack_view(value: &PackValue)
    ensures
        match value {
            PackValue::Dict(pairs) => value@ == PackView::Dict(pair_views(pairs@)),
            PackValue::Array(items) => value@ == PackView::Array(item_views(items@)),
            _ => true,
        },
{
    match value {
        PackValue::Dict(pairs) => {
            assert(value@->Dict_0 =~= pair_views(pairs@));
        },
        PackValue::Array(items) => {
            assert(value@->Array_0 =~= item_views(items@));
        },
        _ => {},
    }
}

/// The first MessagePack value that a byte string holds, if it starts with
/// one.
pub uninterp spec fn msgpack_document(bytes: Seq<u8>) -> Option<PackView>;

/// `rmpv::Value`, which is carried between the decoder and the converter.
#[verifier::external_type_specification]
#[verifier::external_body]
pub struct ExRmpValue(rmpv::Value);

/// Moves an integer of `rmpv` into the library's own.
#[verifier::external_body]
fn int_from_rmpv(value: &rmpv::Value) -> PackInt {
    match value.as_u64() {
        Some(u) => PackInt::Pos(u),
        None => PackInt::Neg(value.as_i64().unwrap_or(0)),
    }
}

/// Moves a value of `rmpv` that holds no other value into the library's
/// own, variant by variant.
#[verifier::external_body]
fn leaf_from_rmpv(value: rmpv::Value) -> PackValue {
    match value {
        rmpv::Value::Boolean(b) => PackValue::Boolean(b),
        rmpv::Value::Integer(_) => PackValue::Integer(int_from_rmpv(&value)),
        rmpv::Value::F32(x) => PackValue::F32(x.to_bits()),
        rmpv::Value::F64(x) => PackValue::F64(x.to_bits()),
        rmpv::Value::String(s) => PackValue::String(s.into_str()),
        rmpv::Value::Binary(b) => PackValue::Binary(b),
        rmpv::Value::Ext(tag, b) => PackValue::Ext(tag, b),
        _ => PackValue::Nil,
    }
}

/// Moves a value of `rmpv` into the library's own, variant by variant.
#[verifier::external_body]
fn pack_from_rmpv(value: rmpv::Value) -> PackValue {
    match value {
        rmpv::Value::Array(a) => PackValue::Array(a.into_iter().map(pack_from_rmpv).collect()),
        rmpv::Value::Map(m) => PackValue::Dict(
            m.into_iter().map(|(k, v)| (pack_from_rmpv(k), pack_from_rmpv(v))).collect(),
        ),
        leaf => leaf_from_rmpv(leaf),
    }
}

/// Calls `rmpv::decode::read_value` on the bytes: the first value that they
/// hold, or the decoder's message where they start with none.
#[verifier::external_body]
pub(crate) fn decode_msgpack(bytes: &[u8]) -> (r: Result<PackValue, String>)
    ensures
        r is Ok <==> msgpack_document(bytes@) is Some,
        r is Ok ==> msgpack_document(bytes@) == Some(r.unwrap()@),
{
    let mut cursor = std::io::Cursor::new(bytes);
    match rmpv::decode::read_value(&mut cursor) {
        Ok(value) => Ok(pack_from_rmpv(value)),
        Err(e) => Err(e.to_string()),
    }
}

/// Whether a value can be written: every text in it is UTF-8.
pub open spec fn writable(value: PackView) -> bool
    decreases value,
{
    match value {
        PackView::String(None) => false,
        PackView::Array(items) => forall|i: int|
            0 <= i < items.len() ==> writable(#[trigger] items[i]),
        PackView::Dict(pairs) => forall|i: int|
            0 <= i < pairs.len() ==> writable((#[trigger] pairs[i]).0) && writable(pairs[i].1),
        _ => true,
    }
}

/// The MessagePack encoding of a value, as `rmpv` writes it, if the writer
/// succeeds.
pub uninterp spec fn msgpack_bytes(value: PackView) -> Option<Seq<u8>>;

/// Moves a number of the library into `rmpv`'s own; a float from its bits.
#[verifier::external_body]
fn number_to_rmpv(value: &PackValue) -> rmpv::Value {
    match value {
        PackValue::Integer(PackInt::Pos(u)) => rmpv::Value::from(*u),
        PackValue::Integer(PackInt::Neg(i)) => rmpv::Value::from(*i),
        PackValue::F32(bits) => rmpv::Value::F32(LittleEndian::read_f32(&bits.to_le_bytes())),
        PackValue::F64(bits) => rmpv::Value::F64(LittleEndian::read_f64(&bits.to_le_bytes())),
        _ => rmpv::Value::Nil,
    }
}

/// Moves a value of the library into `rmpv`'s own, variant by variant.
#[verifier::external_body]
fn pack_to_rmpv(value: &PackValue) -> rmpv::Value
    requires
        writable(value@),
{
    match value {
        PackValue::Nil => rmpv::Value::Nil,
        PackValue::Boolean(b) => rmpv::Value::Boolean(*b),
        PackValue::String(Some(s)) => rmpv::Value::from(s.as_str()),
        PackValue::Binary(b) => rmpv::Value::Binary(b.clone()),
        PackValue::Ext(tag, b) => rmpv::Value::Ext(*tag, b.clone()),
        PackValue::Array(a) => rmpv::Value::Array(a.iter().map(pack_to_rmpv).collect()),
        PackValue::Dict(m) => rmpv::Value::Map(
            m.iter().map(|(k, v)| (pack_to_rmpv(k), pack_to_rmpv(v))).collect(),
        ),
        number => number_to_rmpv(number),
    }
}

/// Calls `rmpv::encode::write_value` with a vector as the writer: the bytes
/// that were written, or the writer's message where it fails.
#[verifier::external_body]
pub(crate) fn encode_msgpack(value: &PackValue) -> (r: Result<Vec<u8>, String>)
    requires
        writable(value@),
    ensures
        r is Ok <==> msgpack_bytes(value@) is Some,
        r is Ok ==> msgpack_bytes(value@) == Some(r.unwrap()@),
{
    let mut out = Vec::new();
    match rmpv::encode::write_value(&mut out, &pack_to_rmpv(value)) {
        Ok(()) => Ok(out),
        Err(e) => Err(e.to_string()),
    }
}

} // verus!
