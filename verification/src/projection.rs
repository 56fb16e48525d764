//! Projection: rendering a tag-keyed payload as named JSON through a type
//! descriptor.

use crate::error::{ErrorKind, StoreError};
use crate::json::{element_views, lemma_json_view, member_views, Json, JsonNumber, JsonView};
use crate::metadata::{key_to_tag, spec_key_to_tag};
use crate::pack::{
    decode_msgpack, item_views, lemma_pack_view, msgpack_document, pair_views, PackInt,
    PackValue, PackView,
};
use crate::registry::{latest_version, LabelsView, Registry, RegistryView};
use crate::registry_types::{
    fields_view, tagged, tags_of, FieldSpec, FieldSpecView, ItemsSpec, ItemsSpecView,
    TypeVersionSpec, TypeVersionSpecView,
};
use crate::text::{
    decimal_chars, find_text_key, last_index_of, named, names_of, put_named, str_eq, text_keys,
    u64_to_string,
};
use vstd::prelude::*;

verus! {

/// How bytes are rendered.
#[derive(Debug, Clone, Copy, PartialEq, Eq, Structural)]
pub enum BytesRender {
    Base64,
    Hex,
    LenOnly,
}

/// How 64-bit integers are rendered.
#[derive(Debug, Clone, Copy, PartialEq, Eq, Structural)]
pub enum U64Format {
    String,
    Number,
}

/// How enumerated values are rendered.
#[derive(Debug, Clone, Copy, PartialEq, Eq, Structural)]
pub enum EnumRender {
    Label,
    Number,
    Both,
}

/// How times are rendered.
#[derive(Debug, Clone, Copy, PartialEq, Eq, Structural)]
pub enum TimeRender {
    Iso,
    UnixMs,
}

/// The options of a projection.
#[derive(Debug, Clone, Copy)]
pub struct RenderOptions {
    pub bytes_render: BytesRender,
    pub u64_format: U64Format,
    pub enum_render: EnumRender,
    pub time_render: TimeRender,
    pub include_unknown: bool,
}

/// A projected payload: the named data, and what was found under tags that
/// the descriptor does not know.
#[derive(Debug)]
pub struct ProjectionResult {
    pub data: Json,
    pub unknown: Option<Json>,
}

/// The standard base64 text of a byte string, with padding.
pub uninterp spec fn base64_text(bytes: Seq<u8>) -> Seq<char>;

/// The RFC 3339 text of the time that lies a number of milliseconds from the
/// Unix epoch, in UTC; `None` where the time is out of range.
pub uninterp spec fn rfc3339_text(millis: i64) -> Option<Seq<char>>;

/// The lowercase hex digit of a number below 16.
pub open spec fn hex_digit(n: u8) -> char {
    if n < 10 {
        (('0' as u8 + n) as u8) as char
    } else {
        (('a' as u8 + (n - 10)) as u8) as char
    }
}

/// The lowercase hex text of a byte string: two digits for each byte.
pub open spec fn hex_text(bytes: Seq<u8>) -> Seq<char>
    decreases bytes.len(),
{
    if bytes.len() == 0 {
        Seq::empty()
    } else {
        hex_text(bytes.drop_last()).push(hex_digit(bytes.last() / 16)).push(
            hex_digit(bytes.last() % 16),
        )
    }
}

/// Calls `encode` of base64's `STANDARD` engine. A slice is never so long
/// that the length of its encoding overflows.
#[verifier::external_body]
fn base64_encode(bytes: &[u8]) -> (text: String)
    ensures
        text@ == base64_text(bytes@),
{
    base64::Engine::encode(&base64::engine::general_purpose::STANDARD, bytes)
}

/// Calls `hex::encode`, which writes two lowercase hex digits for each byte.
#[verifier::external_body]
fn hex_encode(bytes: &[u8]) -> (text: String)
    ensures
        text@ == hex_text(bytes@),
{
    hex::encode(bytes)
}

/// Calls chrono's `DateTime::from_timestamp_millis` and `to_rfc3339`: the
/// RFC 3339 text of the time in UTC, or `None` where the number of
/// milliseconds is out of chrono's range.
#[verifier::external_body]
fn rfc3339_from_millis(millis: i64) -> (text: Option<String>)
    ensures
        crate::text::opt_text(text) == rfc3339_text(millis),
{
    chrono::DateTime::from_timestamp_millis(millis).map(|ts| ts.to_rfc3339())
}

/// The JSON number of a signed integer.
pub open spec fn json_int(i: i64) -> JsonNumber {
    if i >= 0 {
        JsonNumber::PosInt(i as u64)
    } else {
        JsonNumber::NegInt(i)
    }
}

/// The unsigned number of a value, if it is a non-negative integer.
pub open spec fn spec_value_to_u64(v: PackView) -> Option<u64> {
    match v {
        PackView::Integer(PackInt::Pos(u)) => Some(u),
        _ => None,
    }
}

/// The signed number of a value, if it is an integer that fits.
pub open spec fn spec_value_to_i64(v: PackView) -> Option<i64> {
    match v {
        PackView::Integer(PackInt::Pos(u)) => if u <= i64::MAX as u64 {
            Some(u as i64)
        } else {
            None
        },
        PackView::Integer(PackInt::Neg(i)) => Some(i),
        _ => None,
    }
}

/// A 64-bit unsigned integer, as a text or as a number.
pub open spec fn render_u64_raw(u: u64, opts: RenderOptions) -> JsonView {
    match opts.u64_format {
        U64Format::String => JsonView::String(decimal_chars(u as nat)),
        U64Format::Number => JsonView::Number(JsonNumber::PosInt(u)),
    }
}

/// Bytes, as base64, as hex or as their length; null for another value.
pub open spec fn render_bytes(v: PackView, opts: RenderOptions) -> JsonView {
    match v {
        PackView::Binary(b) => match opts.bytes_render {
            BytesRender::Base64 => JsonView::String(base64_text(b)),
            BytesRender::Hex => JsonView::String(hex_text(b)),
            BytesRender::LenOnly => JsonView::Number(JsonNumber::PosInt(b.len() as u64)),
        },
        _ => JsonView::Null,
    }
}

/// A time in milliseconds, as RFC 3339 text or as a number; null for a value
/// that is no integer, or a time out of range.
pub open spec fn render_time(v: PackView, opts: RenderOptions) -> JsonView {
    match spec_value_to_i64(v) {
        Some(ms) => match opts.time_render {
            TimeRender::UnixMs => JsonView::Number(json_int(ms)),
            TimeRender::Iso => match rfc3339_text(ms) {
                Some(text) => JsonView::String(text),
                None => JsonView::Null,
            },
        },
        None => JsonView::Null,
    }
}

/// Whether the bits of a single-precision float stand for a finite number.
pub open spec fn finite32(bits: u32) -> bool {
    (bits >> 23) & 0xff != 0xff
}

/// Whether the bits of a double-precision float stand for a finite number.
pub open spec fn finite64(bits: u64) -> bool {
    (bits >> 52) & 0x7ff != 0x7ff
}

/// The key that a map key is rendered as: its text, the digits of a
/// non-negative integer, or the empty text.
pub open spec fn render_key(k: PackView) -> Seq<char> {
    match k {
        PackView::String(Some(s)) => s,
        PackView::Integer(PackInt::Pos(u)) => decimal_chars(u as nat),
        _ => Seq::empty(),
    }
}

/// A value rendered without a descriptor.
pub open spec fn render_value(v: PackView, opts: RenderOptions) -> JsonView
    decreases v, 1nat, 0nat,
{
    match v {
        PackView::Nil => JsonView::Null,
        PackView::Boolean(b) => JsonView::Bool(b),
        PackView::Integer(PackInt::Pos(u)) => render_u64_raw(u, opts),
        PackView::Integer(PackInt::Neg(i)) => JsonView::Number(JsonNumber::NegInt(i)),
        PackView::F32(bits) => if finite32(bits) {
            JsonView::Number(JsonNumber::Float32(bits))
        } else {
            JsonView::Number(JsonNumber::PosInt(0))
        },
        PackView::F64(bits) => if finite64(bits) {
            JsonView::Number(JsonNumber::Float(bits))
        } else {
            JsonView::Number(JsonNumber::PosInt(0))
        },
        PackView::String(Some(s)) => JsonView::String(s),
        PackView::String(None) => JsonView::String(Seq::empty()),
        PackView::Binary(_) => render_bytes(v, opts),
        PackView::Array(items) => JsonView::Array(
            Seq::new(
                items.len(),
                |i: int|
                    if 0 <= i < items.len() {
                        render_value(items[i], opts)
                    } else {
                        JsonView::Null
                    },
            ),
        ),
        PackView::Dict(pairs) => JsonView::Object(render_pairs(v, pairs.len(), opts)),
        PackView::Ext(_, _) => JsonView::Null,
    }
}

/// The first `n` pairs of a map rendered without a descriptor, as members of
/// an object: a later pair with the same key replaces an earlier.
pub open spec fn render_pairs(v: PackView, n: nat, opts: RenderOptions) -> Seq<(Seq<char>, JsonView)>
    decreases v, 0nat, n,
{
    match v {
        PackView::Dict(pairs) => if n == 0 || n > pairs.len() {
            Seq::empty()
        } else {
            put_named(
                render_pairs(v, (n - 1) as nat, opts),
                render_key(pairs[n - 1].0),
                render_value(pairs[n - 1].1, opts),
            )
        },
        _ => Seq::empty(),
    }
}

/// What a registry says when rendering: its types and its enumerations.
pub ghost struct Schema {
    pub types: Seq<(Seq<char>, crate::registry_types::TypeSpecView)>,
    pub enums: Seq<(Seq<char>, LabelsView)>,
}

/// The schema of a registry.
pub open spec fn schema_of(r: RegistryView) -> Schema {
    Schema { types: r.types, enums: r.enums }
}

/// The label of an enumerated value, where the field refers to an enum that
/// the schema holds, the value is a non-negative integer, and the enum has a
/// label for it.
pub open spec fn enum_label(v: PackView, field: FieldSpecView, schema: Schema) -> Option<
    (u64, Seq<char>),
> {
    match (field.enum_ref, spec_value_to_u64(v)) {
        (Some(e), Some(num)) => match named(schema.enums, e) {
            Some(labels) => match named(labels, decimal_chars(num as nat)) {
                Some(label) => Some((num, label)),
                None => None,
            },
            None => None,
        },
        _ => None,
    }
}

/// An enumerated value: its label, its number, or both.
pub open spec fn render_enum(num: u64, label: Seq<char>, opts: RenderOptions) -> JsonView {
    match opts.enum_render {
        EnumRender::Label => JsonView::String(label),
        EnumRender::Number => JsonView::Number(JsonNumber::PosInt(num)),
        EnumRender::Both => JsonView::Object(
            seq![
                ("label"@, JsonView::String(label)),
                ("value"@, JsonView::Number(JsonNumber::PosInt(num))),
            ],
        ),
    }
}

/// The place of the last pair of a map whose key stands for the tag.
pub open spec fn last_tag_index(pairs: Seq<(PackView, PackView)>, tag: u64) -> Option<int>
    decreases pairs.len(),
{
    if pairs.len() == 0 {
        None
    } else if spec_key_to_tag(pairs.last().0) == Some(tag) {
        Some(pairs.len() - 1)
    } else {
        last_tag_index(pairs.drop_last(), tag)
    }
}

/// The type that a field whose type is `ref` or `map` refers to.
pub open spec fn referenced_type(field: FieldSpecView) -> Option<Seq<char>> {
    if field.type_ref is Some && (field.field_type == "ref"@ || field.field_type == "map"@) {
        field.type_ref
    } else {
        None
    }
}

/// A field that stands for the items of an array of a base type.
pub open spec fn item_field(item_type: Seq<char>) -> FieldSpecView {
    FieldSpecView {
        name: Seq::empty(),
        field_type: item_type,
        enum_ref: None,
        type_ref: None,
        optional: false,
        items: None,
    }
}

/// A value rendered as a field: by its enum where that applies, else by the
/// type it refers to, else by its base type.
pub open spec fn render_field(
    v: PackView,
    field: FieldSpecView,
    schema: Schema,
    opts: RenderOptions,
) -> JsonView
    decreases v, 3nat, 0nat,
{
    match enum_label(v, field, schema) {
        Some((num, label)) => render_enum(num, label, opts),
        None => match referenced_type(field) {
            Some(type_ref) => render_type_ref(v, type_ref, schema, opts),
            None => {
                let t = field.field_type;
                if t == "u64"@ || t == "uint64"@ || t == "i64"@ || t == "int64"@ {
                    match spec_value_to_u64(v) {
                        Some(u) => render_u64_raw(u, opts),
                        None => JsonView::Null,
                    }
                } else if t == "u32"@ || t == "uint32"@ || t == "u8"@ || t == "uint8"@ || t
                    == "int32"@ {
                    match spec_value_to_i64(v) {
                        Some(i) => JsonView::Number(json_int(i)),
                        None => JsonView::Null,
                    }
                } else if t == "string"@ {
                    match v {
                        PackView::String(Some(s)) => JsonView::String(s),
                        PackView::String(None) => JsonView::String(Seq::empty()),
                        _ => JsonView::Null,
                    }
                } else if t == "bool"@ {
                    match v {
                        PackView::Boolean(b) => JsonView::Bool(b),
                        _ => JsonView::Null,
                    }
                } else if t == "bytes"@ || t == "typed_blob"@ {
                    render_bytes(v, opts)
                } else if t == "array"@ {
                    render_array(v, field.items, schema, opts)
                } else if t == "unix_ms"@ || t == "time_ms"@ || t == "timestamp_ms"@ {
                    render_time(v, opts)
                } else {
                    render_value(v, opts)
                }
            },
        },
    }
}

/// A value rendered through the latest version of a type: an object of its
/// fields; without a descriptor where the schema does not hold the type or
/// the value is no map.
pub open spec fn render_type_ref(
    v: PackView,
    type_ref: Seq<char>,
    schema: Schema,
    opts: RenderOptions,
) -> JsonView
    decreases v, 2nat, 0nat,
{
    match named(schema.types, type_ref) {
        Some(t) => match latest_version(t.versions) {
            Some(version) => match v {
                PackView::Dict(_) => JsonView::Object(
                    render_fields(v, version.fields, version.fields.len(), schema, opts),
                ),
                _ => render_value(v, opts),
            },
            None => render_value(v, opts),
        },
        None => render_value(v, opts),
    }
}

/// The first `n` fields of a descriptor rendered from a map, as members of
/// an object: a field is rendered from the last pair whose key stands for
/// its tag, and left out where there is none.
pub open spec fn render_fields(
    v: PackView,
    fields: Seq<(u64, FieldSpecView)>,
    n: nat,
    schema: Schema,
    opts: RenderOptions,
) -> Seq<(Seq<char>, JsonView)>
    decreases v, 1nat, n,
{
    match v {
        PackView::Dict(pairs) => if n == 0 || n > fields.len() {
            Seq::empty()
        } else {
            let front = render_fields(v, fields, (n - 1) as nat, schema, opts);
            match last_tag_index(pairs, fields[n - 1].0) {
                Some(i) => if 0 <= i < pairs.len() {
                    put_named(
                        front,
                        fields[n - 1].1.name,
                        render_field(pairs[i].1, fields[n - 1].1, schema, opts),
                    )
                } else {
                    front
                },
                None => front,
            }
        },
        _ => Seq::empty(),
    }
}

/// An array rendered item by item: by the base type or the referenced type
/// of its items, or without a descriptor; null for a value that is no array.
pub open spec fn render_array(
    v: PackView,
    items_spec: Option<ItemsSpecView>,
    schema: Schema,
    opts: RenderOptions,
) -> JsonView
    decreases v, 2nat, 0nat,
{
    match v {
        PackView::Array(items) => JsonView::Array(
            Seq::new(
                items.len(),
                |i: int|
                    if 0 <= i < items.len() {
                        match items_spec {
                            Some(ItemsSpecView::Simple(t)) => render_field(
                                items[i],
                                item_field(t),
                                schema,
                                opts,
                            ),
                            Some(ItemsSpecView::Ref(r)) => render_type_ref(
                                items[i],
                                r,
                                schema,
                                opts,
                            ),
                            None => render_value(items[i], opts),
                        }
                    } else {
                        JsonView::Null
                    },
            ),
        ),
        _ => JsonView::Null,
    }
}

/// The first `n` pairs of a map whose tags the descriptor does not know,
/// rendered without a descriptor under the digits of their tags.
pub open spec fn render_unknown(
    pairs: Seq<(PackView, PackView)>,
    fields: Seq<(u64, FieldSpecView)>,
    n: nat,
    opts: RenderOptions,
) -> Seq<(Seq<char>, JsonView)>
    decreases n,
{
    if n == 0 || n > pairs.len() {
        Seq::empty()
    } else {
        let front = render_unknown(pairs, fields, (n - 1) as nat, opts);
        match spec_key_to_tag(pairs[n - 1].0) {
            Some(tag) => if tagged(fields, tag) is None {
                put_named(front, decimal_chars(tag as nat), render_value(pairs[n - 1].1, opts))
            } else {
                front
            },
            None => front,
        }
    }
}

/// What a projection holds.
pub ghost struct ProjectionView {
    pub data: JsonView,
    pub unknown: Option<JsonView>,
}

impl View for ProjectionResult {
    type V = ProjectionView;

    open spec fn view(&self) -> ProjectionView {
        ProjectionView {
            data: self.data@,
            unknown: match self.unknown {
                Some(u) => Some(u@),
                None => None,
            },
        }
    }
}

/// The projection of a decoded payload: `None` where the payload is no map.
pub open spec fn projected(
    payload: PackView,
    descriptor: TypeVersionSpecView,
    schema: Schema,
    opts: RenderOptions,
) -> Option<ProjectionView> {
    match payload {
        PackView::Dict(pairs) => Some(
            ProjectionView {
                data: JsonView::Object(
                    render_fields(
                        payload,
                        descriptor.fields,
                        descriptor.fields.len(),
                        schema,
                        opts,
                    ),
                ),
                unknown: if opts.include_unknown {
                    Some(
                        JsonView::Object(
                            render_unknown(pairs, descriptor.fields, pairs.len(), opts),
                        ),
                    )
                } else {
                    None
                },
            },
        ),
        _ => None,
    }
}

/// The projection of the bytes of a payload: `None` where they do not
/// decode to a map.
pub open spec fn spec_project_msgpack(
    payload: Seq<u8>,
    descriptor: TypeVersionSpecView,
    schema: Schema,
    opts: RenderOptions,
) -> Option<ProjectionView> {
    match msgpack_document(payload) {
        Some(value) => projected(value, descriptor, schema, opts),
        None => None,
    }
}

/// The unsigned number of a value, if it is a non-negative integer.
pub fn value_to_u64(v: &PackValue) -> (r: Option<u64>)
    ensures
        r == spec_value_to_u64(v@),
{
    match v {
        PackValue::Integer(PackInt::Pos(u)) => Some(*u),
        _ => None,
    }
}

/// The signed number of a value, if it is an integer that fits.
pub fn value_to_i64(v: &PackValue) -> (r: Option<i64>)
    ensures
        r == spec_value_to_i64(v@),
{
    match v {
        PackValue::Integer(PackInt::Pos(u)) => if *u <= i64::MAX as u64 {
            Some(*u as i64)
        } else {
            None
        },
        PackValue::Integer(PackInt::Neg(i)) => Some(*i),
        _ => None,
    }
}

/// The JSON number of a signed integer.
pub fn json_from_i64(i: i64) -> (n: Json)
    ensures
        n@ == JsonView::Number(json_int(i)),
{
    if i >= 0 {
        Json::Number(JsonNumber::PosInt(i as u64))
    } else {
        Json::Number(JsonNumber::NegInt(i))
    }
}

fn render_u64_raw_json(u: u64, opts: &RenderOptions) -> (r: Json)
    ensures
        r@ == render_u64_raw(u, *opts),
{
    match opts.u64_format {
        U64Format::String => Json::String(u64_to_string(u)),
        U64Format::Number => Json::Number(JsonNumber::PosInt(u)),
    }
}

fn render_bytes_json(v: &PackValue, opts: &RenderOptions) -> (r: Json)
    ensures
        r@ == render_bytes(v@, *opts),
{
    match v {
        PackValue::Binary(b) => match opts.bytes_render {
            BytesRender::Base64 => Json::String(base64_encode(b.as_slice())),
            BytesRender::Hex => Json::String(hex_encode(b.as_slice())),
            BytesRender::LenOnly => Json::Number(JsonNumber::PosInt(b.len() as u64)),
        },
        _ => Json::Null,
    }
}

fn render_time_json(v: &PackValue, opts: &RenderOptions) -> (r: Json)
    ensures
        r@ == render_time(v@, *opts),
{
    match value_to_i64(v) {
        Some(ms) => match opts.time_render {
            TimeRender::UnixMs => json_from_i64(ms),
            TimeRender::Iso => match rfc3339_from_millis(ms) {
                Some(text) => Json::String(text),
                None => Json::Null,
            },
        },
        None => Json::Null,
    }
}

/// Puts a member into an object: in the place of the member with that key
/// or, where there is none, at the end.
pub fn put_member(members: &mut Vec<(String, Json)>, key: String, value: Json)
    ensures
        member_views(final(members)@) == put_named(member_views(old(members)@), key@, value@),
{
    let ghost before = member_views(members@);
    assert(names_of(before) =~= text_keys(members@));
    match find_text_key(members, key.as_str()) {
        Some(at) => {
            members[at] = (key, value);
            assert(member_views(members@) =~= before.update(at as int, (key@, value@)));
        },
        None => {
            members.push((key, value));
            assert(member_views(members@) =~= before.push((key@, value@)));
        },
    }
}

/// The place of the last pair whose key stands for the tag.
fn find_last_tag(pairs: &Vec<(PackValue, PackValue)>, tag: u64) -> (place: Option<usize>)
    ensures
        match place {
            Some(i) => i < pairs.len() && last_tag_index(pair_views(pairs@), tag) == Some(
                i as int,
            ),
            None => last_tag_index(pair_views(pairs@), tag) is None,
        },
{
    let ghost all = pair_views(pairs@);
    let mut i: usize = pairs.len();
    assert(all.take(i as int) =~= all);
    while i > 0
        invariant
            i <= pairs.len(),
            all == pair_views(pairs@),
            last_tag_index(all.take(i as int), tag) == last_tag_index(all, tag),
        decreases i,
    {
        assert(all.take(i as int).drop_last() =~= all.take(i - 1));
        i -= 1;
        if key_to_tag(&pairs[i].0) == Some(tag) {
            return Some(i);
        }
    }
    None
}

fn render_key_text(k: &PackValue) -> (r: String)
    ensures
        r@ == render_key(k@),
{
    match k {
        PackValue::String(Some(s)) => s.clone(),
        PackValue::Integer(PackInt::Pos(u)) => u64_to_string(*u),
        _ => String::new(),
    }
}

fn float32_is_finite(bits: u32) -> (r: bool)
    ensures
        r == finite32(bits),
{
    (bits >> 23) & 0xff != 0xff
}

fn float64_is_finite(bits: u64) -> (r: bool)
    ensures
        r == finite64(bits),
{
    (bits >> 52) & 0x7ff != 0x7ff
}

/// Renders a value without a descriptor: see `render_value`.
pub fn render_value_json(v: &PackValue, opts: &RenderOptions) -> (r: Json)
    ensures
        r@ == render_value(v@, *opts),
    decreases v,
{
    match v {
        PackValue::Nil => Json::Null,
        PackValue::Boolean(b) => Json::Bool(*b),
        PackValue::Integer(PackInt::Pos(u)) => render_u64_raw_json(*u, opts),
        PackValue::Integer(PackInt::Neg(i)) => Json::Number(JsonNumber::NegInt(*i)),
        PackValue::F32(bits) => if float32_is_finite(*bits) {
            Json::Number(JsonNumber::Float32(*bits))
        } else {
            Json::Number(JsonNumber::PosInt(0))
        },
        PackValue::F64(bits) => if float64_is_finite(*bits) {
            Json::Number(JsonNumber::Float(*bits))
        } else {
            Json::Number(JsonNumber::PosInt(0))
        },
        PackValue::String(Some(s)) => Json::String(s.clone()),
        PackValue::String(None) => Json::String(String::new()),
        PackValue::Binary(_) => render_bytes_json(v, opts),
        PackValue::Array(items) => {
            proof {
                lemma_pack_view(v);
            }
            let mut out: Vec<Json> = Vec::with_capacity(items.len());
            let mut i: usize = 0;
            while i < items.len()
                invariant
                    i <= items.len(),
                    out@.len() == i,
                    decreases_to!(v => items),
                    forall|j: int| 0 <= j < i ==> out@[j]@ == render_value(items@[j]@, *opts),
                decreases items.len() - i,
            {
                proof {
                    vstd::std_specs::vec::axiom_vec_index_decreases(*items, i as int);
                }
                out.push(render_value_json(&items[i], opts));
                i += 1;
            }
            let r = Json::Array(out);
            proof {
                lemma_json_view(&r);
                assert(r@->Array_0 =~= render_value(v@, *opts)->Array_0);
            }
            r
        },
        PackValue::Dict(pairs) => {
            proof {
                lemma_pack_view(v);
            }
            let mut out: Vec<(String, Json)> = Vec::new();
            let mut i: usize = 0;
            assert(member_views(out@) =~= Seq::empty());
            while i < pairs.len()
                invariant
                    i <= pairs.len(),
                    decreases_to!(v => pairs),
                    v@ == PackView::Dict(pair_views(pairs@)),
                    member_views(out@) == render_pairs(v@, i as nat, *opts),
                decreases pairs.len() - i,
            {
                proof {
                    vstd::std_specs::vec::axiom_vec_index_decreases(*pairs, i as int);
                }
                let key = render_key_text(&pairs[i].0);
                let value = render_value_json(&pairs[i].1, opts);
                put_member(&mut out, key, value);
                i += 1;
            }
            let r = Json::Object(out);
            proof {
                lemma_json_view(&r);
            }
            r
        },
        PackValue::Ext(_, _) => Json::Null,
    }
}

/// The label of an enumerated value: see `enum_label`.
fn find_enum_label(v: &PackValue, field: &FieldSpec, registry: &Registry) -> (r: Option<
    (u64, String),
>)
    ensures
        match r {
            Some((num, label)) => enum_label(v@, field@, schema_of(registry@)) == Some(
                (num, label@),
            ),
            None => enum_label(v@, field@, schema_of(registry@)) is None,
        },
{
    let enum_ref = match &field.enum_ref {
        Some(e) => e,
        None => {
            return None;
        },
    };
    let num = match value_to_u64(v) {
        Some(n) => n,
        None => {
            return None;
        },
    };
    let labels = match registry.get_enum(enum_ref.as_str()) {
        Some(l) => l,
        None => {
            return None;
        },
    };
    let code = u64_to_string(num);
    assert(names_of(crate::bundle::labels_view(labels@)) =~= text_keys(labels@));
    match find_text_key(labels, code.as_str()) {
        Some(at) => Some((num, labels[at].1.clone())),
        None => None,
    }
}

fn render_enum_json(num: u64, label: String, opts: &RenderOptions) -> (r: Json)
    ensures
        r@ == render_enum(num, label@, *opts),
{
    match opts.enum_render {
        EnumRender::Label => Json::String(label),
        EnumRender::Number => Json::Number(JsonNumber::PosInt(num)),
        EnumRender::Both => {
            let mut obj: Vec<(String, Json)> = Vec::new();
            obj.push(("label".to_string(), Json::String(label)));
            obj.push(("value".to_string(), Json::Number(JsonNumber::PosInt(num))));
            let r = Json::Object(obj);
            proof {
                lemma_json_view(&r);
                assert(r@->Object_0 =~= render_enum(num, label@, *opts)->Object_0);
            }
            r
        },
    }
}

/// Renders a value as a field: see `render_field`.
pub fn render_field_json(
    v: &PackValue,
    field: &FieldSpec,
    registry: &Registry,
    opts: &RenderOptions,
) -> (r: Json)
    ensures
        r@ == render_field(v@, field@, schema_of(registry@), *opts),
    decreases v, 3nat,
{
    if let Some((num, label)) = find_enum_label(v, field, registry) {
        return render_enum_json(num, label, opts);
    }
    let t = field.field_type.as_str();
    if let Some(type_ref) = &field.type_ref {
        if str_eq(t, "ref") || str_eq(t, "map") {
            return render_type_ref_json(v, type_ref.as_str(), registry, opts);
        }
    }
    if str_eq(t, "u64") || str_eq(t, "uint64") || str_eq(t, "i64") || str_eq(t, "int64") {
        match value_to_u64(v) {
            Some(u) => render_u64_raw_json(u, opts),
            None => Json::Null,
        }
    } else if str_eq(t, "u32") || str_eq(t, "uint32") || str_eq(t, "u8") || str_eq(t, "uint8")
        || str_eq(t, "int32") {
        match value_to_i64(v) {
            Some(i) => json_from_i64(i),
            None => Json::Null,
        }
    } else if str_eq(t, "string") {
        match v {
            PackValue::String(Some(s)) => Json::String(s.clone()),
            PackValue::String(None) => Json::String(String::new()),
            _ => Json::Null,
        }
    } else if str_eq(t, "bool") {
        match v {
            PackValue::Boolean(b) => Json::Bool(*b),
            _ => Json::Null,
        }
    } else if str_eq(t, "bytes") || str_eq(t, "typed_blob") {
        render_bytes_json(v, opts)
    } else if str_eq(t, "array") {
        render_array_json(v, &field.items, registry, opts)
    } else if str_eq(t, "unix_ms") || str_eq(t, "time_ms") || str_eq(t, "timestamp_ms") {
        render_time_json(v, opts)
    } else {
        render_value_json(v, opts)
    }
}

/// Renders the fields of a descriptor from the pairs of a map: see
/// `render_fields`.
fn render_fields_json(
    v: &PackValue,
    fields: &Vec<(u64, FieldSpec)>,
    registry: &Registry,
    opts: &RenderOptions,
) -> (r: Json)
    requires
        v is Dict,
    ensures
        r@ == JsonView::Object(
            render_fields(
                v@,
                fields_view(fields@),
                fields@.len() as nat,
                schema_of(registry@),
                *opts,
            ),
        ),
    decreases v, 1nat,
{
    let pairs = match v {
        PackValue::Dict(pairs) => pairs,
        _ => {
            return Json::Null;
        },
    };
    proof {
        lemma_pack_view(v);
    }
    let ghost fv = fields_view(fields@);
    let mut out: Vec<(String, Json)> = Vec::new();
    let mut k: usize = 0;
    assert(member_views(out@) =~= Seq::empty());
    while k < fields.len()
        invariant
            k <= fields.len(),
            decreases_to!(v => pairs),
            v@ == PackView::Dict(pair_views(pairs@)),
            fv == fields_view(fields@),
            member_views(out@) == render_fields(v@, fv, k as nat, schema_of(registry@), *opts),
        decreases fields.len() - k,
    {
        if let Some(i) = find_last_tag(pairs, fields[k].0) {
            proof {
                vstd::std_specs::vec::axiom_vec_index_decreases(*pairs, i as int);
            }
            let rendered = render_field_json(&pairs[i].1, &fields[k].1, registry, opts);
            put_member(&mut out, fields[k].1.name.clone(), rendered);
        }
        k += 1;
    }
    let r = Json::Object(out);
    proof {
        lemma_json_view(&r);
    }
    r
}

/// Renders a value through the latest version of a type: see
/// `render_type_ref`.
pub fn render_type_ref_json(
    v: &PackValue,
    type_ref: &str,
    registry: &Registry,
    opts: &RenderOptions,
) -> (r: Json)
    ensures
        r@ == render_type_ref(v@, type_ref@, schema_of(registry@), *opts),
    decreases v, 2nat,
{
    let version = match registry.get_latest_type_version(type_ref) {
        Some(version) => version,
        None => {
            return render_value_json(v, opts);
        },
    };
    match v {
        PackValue::Dict(_) => render_fields_json(v, &version.fields, registry, opts),
        _ => render_value_json(v, opts),
    }
}

/// Renders an array item by item: see `render_array`.
pub fn render_array_json(
    v: &PackValue,
    items_spec: &Option<ItemsSpec>,
    registry: &Registry,
    opts: &RenderOptions,
) -> (r: Json)
    ensures
        r@ == render_array(
            v@,
            crate::registry_types::opt_items(*items_spec),
            schema_of(registry@),
            *opts,
        ),
    decreases v, 2nat,
{
    let items = match v {
        PackValue::Array(items) => items,
        _ => {
            return Json::Null;
        },
    };
    proof {
        lemma_pack_view(v);
    }
    let ghost spec = crate::registry_types::opt_items(*items_spec);
    let ghost schema = schema_of(registry@);
    let mut out: Vec<Json> = Vec::with_capacity(items.len());
    let mut i: usize = 0;
    while i < items.len()
        invariant
            i <= items.len(),
            out@.len() == i,
            decreases_to!(v => items),
            spec == crate::registry_types::opt_items(*items_spec),
            schema == schema_of(registry@),
            forall|j: int|
                0 <= j < i ==> out@[j]@ == (match spec {
                    Some(ItemsSpecView::Simple(t)) => render_field(
                        items@[j]@,
                        item_field(t),
                        schema,
                        *opts,
                    ),
                    Some(ItemsSpecView::Ref(r)) => render_type_ref(items@[j]@, r, schema, *opts),
                    None => render_value(items@[j]@, *opts),
                }),
        decreases items.len() - i,
    {
        proof {
            vstd::std_specs::vec::axiom_vec_index_decreases(*items, i as int);
        }
        let rendered = match items_spec {
            Some(ItemsSpec::Simple(item_type)) => {
                let item_spec = FieldSpec {
                    name: String::new(),
                    field_type: item_type.clone(),
                    enum_ref: None,
                    type_ref: None,
                    optional: false,
                    items: None,
                };
                render_field_json(&items[i], &item_spec, registry, opts)
            },
            Some(ItemsSpec::Ref(type_ref)) => render_type_ref_json(
                &items[i],
                type_ref.as_str(),
                registry,
                opts,
            ),
            None => render_value_json(&items[i], opts),
        };
        out.push(rendered);
        i += 1;
    }
    let r = Json::Array(out);
    proof {
        lemma_json_view(&r);
        assert(r@->Array_0 =~= render_array(v@, spec, schema, *opts)->Array_0);
    }
    r
}

/// Renders the pairs of a map whose tags the descriptor does not know: see
/// `render_unknown`.
fn render_unknown_json(
    pairs: &Vec<(PackValue, PackValue)>,
    fields: &Vec<(u64, FieldSpec)>,
    opts: &RenderOptions,
) -> (r: Json)
    ensures
        r@ == JsonView::Object(
            render_unknown(
                pair_views(pairs@),
                fields_view(fields@),
                pairs@.len() as nat,
                *opts,
            ),
        ),
{
    let ghost pv = pair_views(pairs@);
    let ghost fv = fields_view(fields@);
    let mut out: Vec<(String, Json)> = Vec::new();
    let mut i: usize = 0;
    assert(member_views(out@) =~= Seq::empty());
    while i < pairs.len()
        invariant
            i <= pairs.len(),
            pv == pair_views(pairs@),
            fv == fields_view(fields@),
            member_views(out@) == render_unknown(pv, fv, i as nat, *opts),
        decreases pairs.len() - i,
    {
        if let Some(tag) = key_to_tag(&pairs[i].0) {
            if crate::registry_types::find_field(fields, tag).is_none() {
                let rendered = render_value_json(&pairs[i].1, opts);
                put_member(&mut out, u64_to_string(tag), rendered);
            }
        }
        i += 1;
    }
    let r = Json::Object(out);
    proof {
        lemma_json_view(&r);
    }
    r
}

/// Projects a decoded payload through a descriptor: see `projected`.
///
/// Fails with `InvalidInput` where the payload is no map.
pub fn project_value(
    payload: &PackValue,
    descriptor: &TypeVersionSpec,
    registry: &Registry,
    opts: &RenderOptions,
) -> (r: Result<ProjectionResult, StoreError>)
    ensures
        match r {
            Ok(p) => projected(payload@, descriptor@, schema_of(registry@), *opts) == Some(p@),
            Err(e) => projected(payload@, descriptor@, schema_of(registry@), *opts) is None
                && e.kind() == ErrorKind::InvalidInput,
        },
{
    let pairs = match payload {
        PackValue::Dict(pairs) => pairs,
        _ => {
            return Err(StoreError::InvalidInput("payload is not a map".to_string()));
        },
    };
    proof {
        lemma_pack_view(payload);
    }
    let data = render_fields_json(payload, &descriptor.fields, registry, opts);
    let unknown = if opts.include_unknown {
        Some(render_unknown_json(pairs, &descriptor.fields, opts))
    } else {
        None
    };
    Ok(ProjectionResult { data, unknown })
}

/// Projects the bytes of a payload through a descriptor: decodes them and
/// renders the fields of the descriptor that the payload holds and, where
/// the options ask for it, what it holds under other tags.
///
/// Fails with `InvalidInput` where the bytes do not decode to a map.
pub fn project_msgpack(
    payload: &[u8],
    descriptor: &TypeVersionSpec,
    registry: &Registry,
    options: &RenderOptions,
) -> (r: Result<ProjectionResult, StoreError>)
    ensures
        match r {
            Ok(p) => spec_project_msgpack(
                payload@,
                descriptor@,
                schema_of(registry@),
                *options,
            ) == Some(p@),
            Err(e) => spec_project_msgpack(
                payload@,
                descriptor@,
                schema_of(registry@),
                *options,
            ) is None && e.kind() == ErrorKind::InvalidInput,
        },
{
    match decode_msgpack(payload) {
        Ok(value) => project_value(&value, descriptor, registry, options),
        Err(msg) => Err(StoreError::InvalidInput(msg)),
    }
}

/// Projecting is a function of what is projected: two projections of the
/// same bytes under the same descriptor, schema and options are the same
/// value, and are written as the same JSON text.
pub proof fn lemma_projection_deterministic(
    payload: Seq<u8>,
    descriptor: TypeVersionSpecView,
    schema: Schema,
    opts: RenderOptions,
    first: ProjectionView,
    second: ProjectionView,
)
    requires
        spec_project_msgpack(payload, descriptor, schema, opts) == Some(first),
        spec_project_msgpack(payload, descriptor, schema, opts) == Some(second),
    ensures
        first == second,
        crate::json::json_text(first.data) == crate::json::json_text(second.data),
{
}

} // verus!
