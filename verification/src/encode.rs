//! Encoding a JSON payload as a MessagePack tag map. Under a type descriptor
//! the members of an object are written under the tags of the fields that
//! they name; without one a value keeps its shape.

use crate::error::{ErrorKind, StoreError};
use crate::json::{element_views, lemma_json_view, member_views, Json, JsonNumber, JsonView};
use crate::order::{descending_of, sort_descending};
use crate::pack::{
    encode_msgpack, lemma_pack_view, msgpack_bytes, pair_views, item_views, writable, PackInt,
    PackValue, PackView,
};
use crate::projection::{schema_of, Schema};
use crate::bundle::labels_view;
use crate::registry::{latest_version, LabelsView, Registry};
use crate::registry_types::{
    fields_view, find_field, opt_items, tagged, tags_of, version_index, FieldSpec, FieldSpecView,
    ItemsSpec, ItemsSpecView, TypeVersionSpec, TypeVersionSpecView,
};
use crate::text::{
    concat3, find_text_key, last_index_of, named, names_of, opt_text, parse_i64, parse_u64,
    spec_parse_i64, spec_parse_u64, str_eq, text_keys,
};
use vstd::prelude::*;
use vstd::utf8::encode_utf8;

verus! {

/// Whether, from an offset up to which they are the same, a byte string is
/// a prefix of another or has the smaller byte where they first differ.
pub open spec fn bytes_le_from(a: Seq<u8>, b: Seq<u8>, i: int) -> bool
    decreases a.len() - i,
{
    if i < 0 || i >= a.len() {
        true
    } else if i >= b.len() {
        false
    } else if a[i] != b[i] {
        a[i] < b[i]
    } else {
        bytes_le_from(a, b, i + 1)
    }
}

/// Whether a text does not stand behind another in the order of texts,
/// which is the lexicographic order of their UTF-8 bytes.
pub open spec fn text_le(a: Seq<char>, b: Seq<char>) -> bool {
    bytes_le_from(encode_utf8(a), encode_utf8(b), 0)
}

/// Whether a text does not stand behind another in the order of texts.
pub fn text_not_after(a: &str, b: &str) -> (r: bool)
    ensures
        r == text_le(a@, b@),
{
    let x = a.as_bytes();
    let y = b.as_bytes();
    let mut i: usize = 0;
    while i < x.len()
        invariant
            i <= x.len(),
            x@ == encode_utf8(a@),
            y@ == encode_utf8(b@),
            bytes_le_from(x@, y@, i as int) == text_le(a@, b@),
        decreases x.len() - i,
    {
        if i >= y.len() {
            return false;
        }
        if x[i] != y[i] {
            return x[i] < y[i];
        }
        i += 1;
    }
    true
}

/// Of two byte strings, one does not stand behind the other.
pub proof fn lemma_bytes_le_total(a: Seq<u8>, b: Seq<u8>, i: int)
    requires
        0 <= i,
    ensures
        bytes_le_from(a, b, i) || bytes_le_from(b, a, i),
    decreases a.len() - i,
{
    if i < a.len() && i < b.len() && a[i] == b[i] {
        lemma_bytes_le_total(a, b, i + 1);
    }
}

/// The order of byte strings is transitive.
pub proof fn lemma_bytes_le_transitive(a: Seq<u8>, b: Seq<u8>, c: Seq<u8>, i: int)
    requires
        0 <= i,
        bytes_le_from(a, b, i),
        bytes_le_from(b, c, i),
    ensures
        bytes_le_from(a, c, i),
    decreases a.len() - i,
{
    if i < a.len() && i < b.len() && i < c.len() && a[i] == b[i] && b[i] == c[i] {
        lemma_bytes_le_transitive(a, b, c, i + 1);
    }
}

/// The key at a place of a list, or the empty text where the list has no
/// such place.
pub open spec fn key_at(keys: Seq<Seq<char>>, place: int) -> Seq<char> {
    if 0 <= place < keys.len() {
        keys[place]
    } else {
        Seq::empty()
    }
}

/// Where a place goes among the first `m` of a list of places that is in
/// the order of the keys: behind the last whose key does not stand behind
/// its own.
pub open spec fn insert_at(keys: Seq<Seq<char>>, places: Seq<int>, place: int, m: nat) -> nat
    decreases m,
{
    if m == 0 || m > places.len() {
        0
    } else if text_le(key_at(keys, places[m - 1]), key_at(keys, place)) {
        m
    } else {
        insert_at(keys, places, place, (m - 1) as nat)
    }
}

/// The first `n` places of a list of keys in the order of their keys; where
/// two keys are the same, the earlier place comes first.
pub open spec fn sorted_places(keys: Seq<Seq<char>>, n: nat) -> Seq<int>
    decreases n,
{
    if n == 0 || n > keys.len() {
        Seq::empty()
    } else {
        let front = sorted_places(keys, (n - 1) as nat);
        front.insert(insert_at(keys, front, n - 1, front.len()) as int, n - 1)
    }
}

/// Whether a list of places is in the order of the keys.
pub open spec fn in_key_order(keys: Seq<Seq<char>>, places: Seq<int>) -> bool {
    forall|a: int, b: int|
        0 <= a < b < places.len() ==> text_le(
            key_at(keys, #[trigger] places[a]),
            key_at(keys, #[trigger] places[b]),
        )
}

/// Where a place goes lies within the places that were looked at; the keys
/// before it do not stand behind its key, and the keys from it on do.
pub proof fn lemma_insert_at(keys: Seq<Seq<char>>, places: Seq<int>, place: int, m: nat)
    requires
        m <= places.len(),
    ensures
        insert_at(keys, places, place, m) <= m,
        insert_at(keys, places, place, m) > 0 ==> text_le(
            key_at(keys, places[insert_at(keys, places, place, m) - 1]),
            key_at(keys, place),
        ),
        forall|k: int|
            insert_at(keys, places, place, m) <= k < m ==> !text_le(
                key_at(keys, #[trigger] places[k]),
                key_at(keys, place),
            ),
    decreases m,
{
    if m > 0 && !text_le(key_at(keys, places[m - 1]), key_at(keys, place)) {
        lemma_insert_at(keys, places, place, (m - 1) as nat);
    }
}

/// The places in the order of their keys are the first `n` places, each
/// once, and their keys do not descend.
pub proof fn lemma_sorted_places(keys: Seq<Seq<char>>, n: nat)
    requires
        n <= keys.len(),
    ensures
        sorted_places(keys, n).len() == n,
        forall|k: int| 0 <= k < n ==> 0 <= #[trigger] sorted_places(keys, n)[k] < n,
        sorted_places(keys, n).no_duplicates(),
        in_key_order(keys, sorted_places(keys, n)),
    decreases n,
{
    if n > 0 {
        let front = sorted_places(keys, (n - 1) as nat);
        lemma_sorted_places(keys, (n - 1) as nat);
        let p = insert_at(keys, front, n - 1, front.len()) as int;
        lemma_insert_at(keys, front, n - 1, front.len());
        let all = sorted_places(keys, n);
        assert(all == front.insert(p, n - 1));
        let new_key = key_at(keys, n - 1);
        assert forall|a: int, b: int| 0 <= a < b < all.len() implies text_le(
            key_at(keys, #[trigger] all[a]),
            key_at(keys, #[trigger] all[b]),
        ) by {
            if b < p {
                assert(all[a] == front[a] && all[b] == front[b]);
            } else if b == p {
                assert(all[a] == front[a]);
                if a < p - 1 {
                    assert(text_le(key_at(keys, front[a]), key_at(keys, front[p - 1])));
                    lemma_bytes_le_transitive(
                        encode_utf8(key_at(keys, front[a])),
                        encode_utf8(key_at(keys, front[p - 1])),
                        encode_utf8(new_key),
                        0,
                    );
                }
            } else if a < p {
                assert(all[a] == front[a] && all[b] == front[b - 1]);
                assert(text_le(key_at(keys, front[a]), key_at(keys, front[b - 1])));
            } else if a == p {
                assert(all[b] == front[b - 1]);
                assert(!text_le(key_at(keys, front[b - 1]), new_key));
                lemma_bytes_le_total(
                    encode_utf8(key_at(keys, front[b - 1])),
                    encode_utf8(new_key),
                    0,
                );
            } else {
                assert(all[a] == front[a - 1] && all[b] == front[b - 1]);
            }
        }
        assert forall|a: int, b: int| 0 <= a < all.len() && 0 <= b < all.len() && a != b implies all[a]
            != all[b] by {
            let fa = if a < p { a } else { a - 1 };
            let fb = if b < p { b } else { b - 1 };
            if a != p && b != p {
                assert(all[a] == front[fa] && all[b] == front[fb]);
            } else if a == p {
                assert(all[b] == front[fb]);
            } else {
                assert(all[a] == front[fa]);
            }
        }
    }
}

/// A list of places as numbers.
pub open spec fn as_ints(places: Seq<usize>) -> Seq<int> {
    Seq::new(places.len(), |i: int| places[i] as int)
}

/// The places of the pairs of a list in the order of their keys.
pub fn places_in_key_order<V>(list: &Vec<(String, V)>) -> (places: Vec<usize>)
    ensures
        as_ints(places@) == sorted_places(text_keys(list@), list@.len()),
        places@.len() == list@.len(),
        forall|k: int| 0 <= k < places@.len() ==> #[trigger] places@[k] < list@.len(),
{
    let ghost keys = text_keys(list@);
    let mut places: Vec<usize> = Vec::with_capacity(list.len());
    let mut i: usize = 0;
    assert(as_ints(places@) =~= sorted_places(keys, 0));
    while i < list.len()
        invariant
            i <= list.len(),
            keys == text_keys(list@),
            places@.len() == i,
            as_ints(places@) == sorted_places(keys, i as nat),
            forall|k: int| 0 <= k < places@.len() ==> #[trigger] places@[k] < i,
        decreases list.len() - i,
    {
        let ghost front = as_ints(places@);
        let mut p: usize = places.len();
        while p > 0 && !text_not_after(list[places[p - 1]].0.as_str(), list[i].0.as_str())
            invariant
                p <= places.len(),
                i < list.len(),
                keys == text_keys(list@),
                front == as_ints(places@),
                forall|k: int| 0 <= k < places@.len() ==> #[trigger] places@[k] < i,
                insert_at(keys, front, i as int, p as nat) == insert_at(
                    keys,
                    front,
                    i as int,
                    front.len(),
                ),
            decreases p,
        {
            assert(front[p - 1] == places@[p - 1] as int);
            p -= 1;
        }
        proof {
            if p > 0 {
                assert(front[p - 1] == places@[p - 1] as int);
            }
            assert(insert_at(keys, front, i as int, p as nat) == p);
        }
        places.insert(p, i);
        assert(as_ints(places@) =~= front.insert(p as int, i as int));
        i += 1;
    }
    places
}

/// The key of a map that stands for the key of an object: the number that
/// the text spells where it spells one, else the text.
pub open spec fn plain_key(key: Seq<char>) -> PackView {
    match spec_parse_u64(key) {
        Some(n) => PackView::Integer(PackInt::Pos(n)),
        None => PackView::String(Some(key)),
    }
}

/// The value that stands for a JSON number: an integer, or a float with the
/// same bits.
pub open spec fn plain_number(n: JsonNumber) -> PackView {
    match n {
        JsonNumber::PosInt(u) => PackView::Integer(PackInt::Pos(u)),
        JsonNumber::NegInt(i) => if i >= 0 {
            PackView::Integer(PackInt::Pos(i as u64))
        } else {
            PackView::Integer(PackInt::Neg(i))
        },
        JsonNumber::Float(bits) => PackView::F64(bits),
        JsonNumber::Float32(bits) => PackView::F32(bits),
    }
}

/// The value that stands for a JSON value where no descriptor says more:
/// one of the same shape. An object becomes a map with its members in the
/// order of their keys.
pub open spec fn plain_value(v: JsonView) -> PackView
    decreases v,
{
    match v {
        JsonView::Null => PackView::Nil,
        JsonView::Bool(b) => PackView::Boolean(b),
        JsonView::Number(n) => plain_number(n),
        JsonView::String(s) => PackView::String(Some(s)),
        JsonView::Array(items) => PackView::Array(
            Seq::new(
                items.len(),
                |i: int|
                    if 0 <= i < items.len() {
                        plain_value(items[i])
                    } else {
                        PackView::Nil
                    },
            ),
        ),
        JsonView::Object(members) => PackView::Dict(
            Seq::new(
                members.len(),
                |k: int|
                    {
                        let at = sorted_places(names_of(members), members.len())[k];
                        if 0 <= at < members.len() {
                            (plain_key(members[at].0), plain_value(members[at].1))
                        } else {
                            (PackView::Nil, PackView::Nil)
                        }
                    },
            ),
        ),
    }
}

/// The key of a map that stands for the key of an object.
pub fn plain_key_pack(key: &str) -> (r: PackValue)
    ensures
        r@ == plain_key(key@),
        writable(r@),
{
    match parse_u64(key) {
        Some(n) => PackValue::Integer(PackInt::Pos(n)),
        None => PackValue::String(Some(key.to_string())),
    }
}

/// The value that stands for a JSON value where no descriptor says more:
/// see `plain_value`.
pub fn json_to_msgpack_value(v: &Json) -> (r: PackValue)
    ensures
        r@ == plain_value(v@),
        writable(r@),
    decreases v,
{
    match v {
        Json::Null => PackValue::Nil,
        Json::Bool(b) => PackValue::Boolean(*b),
        Json::Number(JsonNumber::PosInt(u)) => PackValue::Integer(PackInt::Pos(*u)),
        Json::Number(JsonNumber::NegInt(i)) => if *i >= 0 {
            PackValue::Integer(PackInt::Pos(*i as u64))
        } else {
            PackValue::Integer(PackInt::Neg(*i))
        },
        Json::Number(JsonNumber::Float(bits)) => PackValue::F64(*bits),
        Json::Number(JsonNumber::Float32(bits)) => PackValue::F32(*bits),
        Json::String(s) => PackValue::String(Some(s.clone())),
        Json::Array(items) => {
            proof {
                lemma_json_view(v);
            }
            let mut out: Vec<PackValue> = Vec::with_capacity(items.len());
            let mut i: usize = 0;
            while i < items.len()
                invariant
                    i <= items.len(),
                    out@.len() == i,
                    decreases_to!(v => items),
                    forall|j: int|
                        0 <= j < i ==> (#[trigger] out@[j])@ == plain_value(items@[j]@) && writable(
                            out@[j]@,
                        ),
                decreases items.len() - i,
            {
                proof {
                    vstd::std_specs::vec::axiom_vec_index_decreases(*items, i as int);
                }
                out.push(json_to_msgpack_value(&items[i]));
                i += 1;
            }
            let r = PackValue::Array(out);
            proof {
                lemma_pack_view(&r);
                assert(r@->Array_0 =~= plain_value(v@)->Array_0);
            }
            r
        },
        Json::Object(members) => {
            proof {
                lemma_json_view(v);
            }
            let places = places_in_key_order(members);
            let ghost views = crate::json::member_views(members@);
            assert(names_of(views) =~= text_keys(members@));
            let mut out: Vec<(PackValue, PackValue)> = Vec::with_capacity(members.len());
            let mut k: usize = 0;
            while k < places.len()
                invariant
                    k <= places.len(),
                    out@.len() == k,
                    places@.len() == members@.len(),
                    decreases_to!(v => members),
                    views == crate::json::member_views(members@),
                    as_ints(places@) == sorted_places(names_of(views), views.len()),
                    forall|j: int| 0 <= j < places@.len() ==> #[trigger] places@[j] < members@.len(),
                    forall|j: int|
                        0 <= j < k ==> {
                            &&& (#[trigger] out@[j]).0@ == plain_key(views[places@[j] as int].0)
                            &&& out@[j].1@ == plain_value(views[places@[j] as int].1)
                            &&& writable(out@[j].0@)
                            &&& writable(out@[j].1@)
                        },
                decreases places.len() - k,
            {
                let at = places[k];
                proof {
                    vstd::std_specs::vec::axiom_vec_index_decreases(*members, at as int);
                }
                let key = plain_key_pack(members[at].0.as_str());
                let value = json_to_msgpack_value(&members[at].1);
                out.push((key, value));
                k += 1;
            }
            let r = PackValue::Dict(out);
            proof {
                lemma_pack_view(&r);
                assert forall|j: int| 0 <= j < out@.len() implies r@->Dict_0[j] == plain_value(
                    v@,
                )->Dict_0[j] by {
                    assert(as_ints(places@)[j] == places@[j] as int);
                }
                assert(r@->Dict_0 =~= plain_value(v@)->Dict_0);
            }
            r
        },
    }
}

/// The unsigned number that a JSON value holds: a non-negative integer, or
/// a text that spells one.
pub open spec fn spec_json_u64(v: JsonView) -> Option<u64> {
    match v {
        JsonView::String(s) => spec_parse_u64(s),
        JsonView::Number(JsonNumber::PosInt(u)) => Some(u),
        JsonView::Number(JsonNumber::NegInt(i)) => if i >= 0 {
            Some(i as u64)
        } else {
            None
        },
        _ => None,
    }
}

/// The signed number that a JSON value holds: an integer that fits, or a
/// text that spells one.
pub open spec fn spec_json_i64(v: JsonView) -> Option<i64> {
    match v {
        JsonView::String(s) => spec_parse_i64(s),
        JsonView::Number(JsonNumber::NegInt(i)) => Some(i),
        JsonView::Number(JsonNumber::PosInt(u)) => if u <= i64::MAX as u64 {
            Some(u as i64)
        } else {
            None
        },
        _ => None,
    }
}

/// The unsigned number that a JSON value holds.
pub fn parse_json_u64_opt(v: &Json) -> (n: Option<u64>)
    ensures
        n == spec_json_u64(v@),
{
    match v {
        Json::String(s) => parse_u64(s.as_str()),
        Json::Number(JsonNumber::PosInt(u)) => Some(*u),
        Json::Number(JsonNumber::NegInt(i)) => if *i >= 0 {
            Some(*i as u64)
        } else {
            None
        },
        _ => None,
    }
}

/// The signed number that a JSON value holds.
pub fn parse_json_i64_opt(v: &Json) -> (n: Option<i64>)
    ensures
        n == spec_json_i64(v@),
{
    match v {
        Json::String(s) => parse_i64(s.as_str()),
        Json::Number(JsonNumber::NegInt(i)) => Some(*i),
        Json::Number(JsonNumber::PosInt(u)) => if *u <= i64::MAX as u64 {
            Some(*u as i64)
        } else {
            None
        },
        _ => None,
    }
}

/// The bytes that a text in standard base64, with padding, stands for, if
/// it is such a text.
pub uninterp spec fn base64_bytes(text: Seq<char>) -> Option<Seq<u8>>;

/// Calls `decode` of base64's `STANDARD` engine: the bytes that the text
/// stands for, or `None` where the decoder refuses it.
#[verifier::external_body]
fn base64_decode(text: &str) -> (bytes: Option<Vec<u8>>)
    ensures
        match bytes {
            Some(b) => base64_bytes(text@) == Some(b@),
            None => base64_bytes(text@) is None,
        },
{
    base64::Engine::decode(&base64::engine::general_purpose::STANDARD, text).ok()
}

/// The number that a hex digit stands for, in either case.
pub open spec fn hex_digit_value(c: u8) -> Option<u8> {
    if 0x30 <= c <= 0x39 {
        Some((c - 0x30) as u8)
    } else if 0x41 <= c <= 0x46 {
        Some((c - 0x41 + 10) as u8)
    } else if 0x61 <= c <= 0x66 {
        Some((c - 0x61 + 10) as u8)
    } else {
        None
    }
}

/// The bytes that a hex text stands for: one for every two digits. `None`
/// where the number of its characters is odd or one is no hex digit.
pub open spec fn hex_bytes(text: Seq<u8>) -> Option<Seq<u8>>
    decreases text.len(),
{
    if text.len() == 0 {
        Some(Seq::empty())
    } else if text.len() % 2 != 0 {
        None
    } else {
        match (
            hex_bytes(text.subrange(0, text.len() - 2)),
            hex_digit_value(text[text.len() - 2]),
            hex_digit_value(text[text.len() - 1]),
        ) {
            (Some(front), Some(high), Some(low)) => Some(front.push((high * 16 + low) as u8)),
            _ => None,
        }
    }
}

/// Calls `hex::decode`, which reads two hex digits of either case for each
/// byte and refuses a text of odd length or with another character.
#[verifier::external_body]
fn hex_decode(text: &str) -> (bytes: Option<Vec<u8>>)
    ensures
        match bytes {
            Some(b) => hex_bytes(encode_utf8(text@)) == Some(b@),
            None => hex_bytes(encode_utf8(text@)) is None,
        },
{
    hex::decode(text).ok()
}

/// The byte that a JSON value holds: a number up to 255.
pub open spec fn spec_json_byte(v: JsonView) -> Option<u8> {
    match spec_json_u64(v) {
        Some(n) => if n <= 255 {
            Some(n as u8)
        } else {
            None
        },
        None => None,
    }
}

/// The bytes that the first `n` items of an array hold, if each holds one.
pub open spec fn byte_items(items: Seq<JsonView>, n: nat) -> Option<Seq<u8>>
    decreases n,
{
    if n == 0 || n > items.len() {
        Some(Seq::empty())
    } else {
        match (byte_items(items, (n - 1) as nat), spec_json_byte(items[n - 1])) {
            (Some(front), Some(byte)) => Some(front.push(byte)),
            _ => None,
        }
    }
}

/// Where the first items of an array hold no bytes, neither do more of
/// them.
pub proof fn lemma_byte_items_none(items: Seq<JsonView>, n: nat, m: nat)
    requires
        n <= m <= items.len(),
        byte_items(items, n) is None,
    ensures
        byte_items(items, m) is None,
    decreases m,
{
    if n < m {
        lemma_byte_items_none(items, n, (m - 1) as nat);
    }
}

/// The bytes that a JSON value stands for. A text is read as base64, else
/// as hex, else as its own bytes; an array holds one byte in each item; an
/// object holds a text in base64 under `base64`, or one in hex under `hex`.
pub open spec fn spec_bytes_value(v: JsonView) -> Option<Seq<u8>> {
    match v {
        JsonView::String(s) => match base64_bytes(s) {
            Some(b) => Some(b),
            None => match hex_bytes(encode_utf8(s)) {
                Some(b) => Some(b),
                None => Some(encode_utf8(s)),
            },
        },
        JsonView::Array(items) => byte_items(items, items.len()),
        JsonView::Object(members) => match named(members, "base64"@) {
            Some(JsonView::String(text)) => base64_bytes(text),
            _ => match named(members, "hex"@) {
                Some(JsonView::String(text)) => hex_bytes(encode_utf8(text)),
                _ => None,
            },
        },
        _ => None,
    }
}

/// The bytes that a JSON value stands for: see `spec_bytes_value`. Fails
/// with `InvalidInput` where it stands for none.
pub fn parse_bytes_value(v: &Json) -> (r: Result<Vec<u8>, StoreError>)
    ensures
        match r {
            Ok(bytes) => spec_bytes_value(v@) == Some(bytes@),
            Err(e) => spec_bytes_value(v@) is None && e.kind() == ErrorKind::InvalidInput,
        },
{
    match v {
        Json::String(s) => {
            if let Some(bytes) = base64_decode(s.as_str()) {
                return Ok(bytes);
            }
            if let Some(bytes) = hex_decode(s.as_str()) {
                return Ok(bytes);
            }
            Ok(crate::wire::slice_to_vec(s.as_str().as_bytes()))
        },
        Json::Array(items) => {
            proof {
                lemma_json_view(v);
            }
            let ghost views = crate::json::element_views(items@);
            let mut out: Vec<u8> = Vec::with_capacity(items.len());
            let mut i: usize = 0;
            while i < items.len()
                invariant
                    i <= items.len(),
                    views == crate::json::element_views(items@),
                    v@ == JsonView::Array(views),
                    byte_items(views, i as nat) == Some(out@),
                decreases items.len() - i,
            {
                assert(views[i as int] == items@[i as int]@);
                let num = match parse_json_u64_opt(&items[i]) {
                    Some(num) => num,
                    None => {
                        proof {
                            lemma_byte_items_none(views, (i + 1) as nat, views.len());
                        }
                        return Err(StoreError::InvalidInput("invalid byte array value".to_string()));
                    },
                };
                if num > 255 {
                    proof {
                        lemma_byte_items_none(views, (i + 1) as nat, views.len());
                    }
                    return Err(StoreError::InvalidInput("byte out of range".to_string()));
                }
                out.push(num as u8);
                i += 1;
            }
            Ok(out)
        },
        Json::Object(members) => {
            proof {
                lemma_json_view(v);
            }
            assert(names_of(member_views(members@)) =~= text_keys(members@));
            if let Some(at) = find_text_key(members, "base64") {
                if let Json::String(text) = &members[at].1 {
                    return match base64_decode(text.as_str()) {
                        Some(bytes) => Ok(bytes),
                        None => Err(StoreError::InvalidInput("invalid base64 bytes".to_string())),
                    };
                }
            }
            if let Some(at) = find_text_key(members, "hex") {
                if let Json::String(text) = &members[at].1 {
                    return match hex_decode(text.as_str()) {
                        Some(bytes) => Ok(bytes),
                        None => Err(StoreError::InvalidInput("invalid hex bytes".to_string())),
                    };
                }
            }
            Err(StoreError::InvalidInput("bytes object must contain base64 or hex".to_string()))
        },
        _ => Err(StoreError::InvalidInput("invalid bytes value".to_string())),
    }
}

/// The integer that stands for a signed number.
pub open spec fn pack_int(i: i64) -> PackView {
    if i >= 0 {
        PackView::Integer(PackInt::Pos(i as u64))
    } else {
        PackView::Integer(PackInt::Neg(i))
    }
}

/// Whether a base type is one of the unsigned integers.
pub open spec fn is_unsigned_type(t: Seq<char>) -> bool {
    t == "u64"@ || t == "uint64"@ || t == "u32"@ || t == "uint32"@ || t == "u8"@ || t == "uint8"@
}

/// Whether a base type is one of the signed integers or of the times.
pub open spec fn is_signed_type(t: Seq<char>) -> bool {
    t == "int64"@ || t == "int32"@ || t == "unix_ms"@ || t == "time_ms"@ || t == "timestamp_ms"@
}

/// The value that stands for a JSON value of a base type: a text, a
/// boolean, an integer or bytes where the type asks for one and the value
/// holds one, `None` where it holds none; for another type, a value of the
/// same shape.
pub open spec fn spec_encode_value_for_type(v: JsonView, t: Seq<char>) -> Option<PackView> {
    if t == "string"@ {
        match v {
            JsonView::String(s) => Some(PackView::String(Some(s))),
            _ => None,
        }
    } else if t == "bool"@ {
        match v {
            JsonView::Bool(b) => Some(PackView::Boolean(b)),
            _ => None,
        }
    } else if is_unsigned_type(t) {
        match spec_json_u64(v) {
            Some(n) => Some(PackView::Integer(PackInt::Pos(n))),
            None => None,
        }
    } else if is_signed_type(t) {
        match spec_json_i64(v) {
            Some(i) => Some(pack_int(i)),
            None => None,
        }
    } else if t == "bytes"@ || t == "typed_blob"@ {
        match spec_bytes_value(v) {
            Some(b) => Some(PackView::Binary(b)),
            None => None,
        }
    } else {
        Some(plain_value(v))
    }
}

fn int_to_pack(i: i64) -> (r: PackValue)
    ensures
        r@ == pack_int(i),
{
    if i >= 0 {
        PackValue::Integer(PackInt::Pos(i as u64))
    } else {
        PackValue::Integer(PackInt::Neg(i))
    }
}

/// The value that stands for a JSON value of a base type: see
/// `spec_encode_value_for_type`. Fails with `InvalidInput` where the value
/// does not hold what the type asks for.
pub fn encode_value_for_type(v: &Json, field_type: &str) -> (r: Result<PackValue, StoreError>)
    ensures
        match r {
            Ok(p) => spec_encode_value_for_type(v@, field_type@) == Some(p@) && writable(p@),
            Err(e) => spec_encode_value_for_type(v@, field_type@) is None && e.kind()
                == ErrorKind::InvalidInput,
        },
{
    let t = field_type;
    if str_eq(t, "string") {
        match v {
            Json::String(s) => Ok(PackValue::String(Some(s.clone()))),
            _ => Err(StoreError::InvalidInput("expected string".to_string())),
        }
    } else if str_eq(t, "bool") {
        match v {
            Json::Bool(b) => Ok(PackValue::Boolean(*b)),
            _ => Err(StoreError::InvalidInput("expected bool".to_string())),
        }
    } else if str_eq(t, "u64") || str_eq(t, "uint64") || str_eq(t, "u32") || str_eq(t, "uint32")
        || str_eq(t, "u8") || str_eq(t, "uint8") {
        match parse_json_u64_opt(v) {
            Some(n) => Ok(PackValue::Integer(PackInt::Pos(n))),
            None => Err(StoreError::InvalidInput("expected integer".to_string())),
        }
    } else if str_eq(t, "int64") || str_eq(t, "int32") || str_eq(t, "unix_ms") || str_eq(
        t,
        "time_ms",
    ) || str_eq(t, "timestamp_ms") {
        match parse_json_i64_opt(v) {
            Some(i) => Ok(int_to_pack(i)),
            None => Err(StoreError::InvalidInput("expected integer".to_string())),
        }
    } else if str_eq(t, "bytes") || str_eq(t, "typed_blob") {
        match parse_bytes_value(v) {
            Ok(b) => Ok(PackValue::Binary(b)),
            Err(e) => Err(e),
        }
    } else {
        Ok(json_to_msgpack_value(v))
    }
}

/// The first place from `from` on at which an enumeration holds a label.
pub open spec fn label_index(labels: LabelsView, label: Seq<char>, from: int) -> Option<int>
    decreases labels.len() - from,
{
    if from < 0 || from >= labels.len() {
        None
    } else if labels[from].1 == label {
        Some(from)
    } else {
        label_index(labels, label, from + 1)
    }
}

/// The number of a value of an enumerated field: the number that the value
/// holds; else, for a text, the number under which the enumeration holds it
/// as a label first. `Some(None)` where the text is no label of the
/// enumeration or stands under no number, `None` where the field has no
/// enumeration or the value is neither a number nor a text.
pub open spec fn enum_number(v: JsonView, field: FieldSpecView, schema: Schema) -> Option<
    Option<u64>,
> {
    match field.enum_ref {
        Some(e) => match spec_json_u64(v) {
            Some(num) => Some(Some(num)),
            None => match v {
                JsonView::String(label) => Some(
                    match named(schema.enums, e) {
                        Some(labels) => match label_index(labels, label, 0) {
                            Some(i) => spec_parse_u64(labels[i].0),
                            None => None,
                        },
                        None => None,
                    },
                ),
                _ => None,
            },
        },
        None => None,
    }
}

/// The value that stands for a member of an object under the field that it
/// names: nothing for null; the number of an enumerated value; the items
/// of an array, each by the items of the field; the map of a referenced
/// type; else the value of the base type. The error is that of the first
/// part that fails.
pub open spec fn encode_field(v: JsonView, field: FieldSpecView, schema: Schema) -> Result<
    PackView,
    ErrorKind,
>
    decreases v, 4nat, 0nat,
{
    if v is Null {
        Ok(PackView::Nil)
    } else {
        match enum_number(v, field, schema) {
            Some(Some(n)) => Ok(PackView::Integer(PackInt::Pos(n))),
            Some(None) => Err(ErrorKind::InvalidInput),
            None => {
                let t = field.field_type;
                if t == "array"@ {
                    match v {
                        JsonView::Array(items) => match encode_items(
                            v,
                            field.items,
                            schema,
                            items.len(),
                        ) {
                            Ok(out) => Ok(PackView::Array(out)),
                            Err(e) => Err(e),
                        },
                        _ => Err(ErrorKind::InvalidInput),
                    }
                } else if t == "ref"@ {
                    match field.type_ref {
                        Some(type_ref) => encode_ref(v, type_ref, schema),
                        None => Ok(plain_value(v)),
                    }
                } else {
                    match spec_encode_value_for_type(v, t) {
                        Some(p) => Ok(p),
                        None => Err(ErrorKind::InvalidInput),
                    }
                }
            },
        }
    }
}

/// The values that stand for the first `n` items of an array: each by the
/// base type or the referenced type of the items, or in its own shape.
pub open spec fn encode_items(
    v: JsonView,
    items_spec: Option<ItemsSpecView>,
    schema: Schema,
    n: nat,
) -> Result<Seq<PackView>, ErrorKind>
    decreases v, 3nat, n,
{
    match v {
        JsonView::Array(items) => if n == 0 || n > items.len() {
            Ok(Seq::empty())
        } else {
            match encode_items(v, items_spec, schema, (n - 1) as nat) {
                Ok(front) => {
                    let encoded = match items_spec {
                        Some(ItemsSpecView::Simple(t)) => match spec_encode_value_for_type(
                            items[n - 1],
                            t,
                        ) {
                            Some(p) => Ok(p),
                            None => Err(ErrorKind::InvalidInput),
                        },
                        Some(ItemsSpecView::Ref(r)) => encode_ref(items[n - 1], r, schema),
                        None => Ok(plain_value(items[n - 1])),
                    };
                    match encoded {
                        Ok(p) => Ok(front.push(p)),
                        Err(e) => Err(e),
                    }
                },
                Err(e) => Err(e),
            }
        },
        _ => Ok(Seq::empty()),
    }
}

/// The map that stands for an object under the latest version of a type:
/// `InvalidInput` for a value that is no object, `NotFound` where the
/// schema holds no version of the type.
pub open spec fn encode_ref(v: JsonView, type_ref: Seq<char>, schema: Schema) -> Result<
    PackView,
    ErrorKind,
>
    decreases v, 2nat, 0nat,
{
    match v {
        JsonView::Object(_) => match named(schema.types, type_ref) {
            Some(t) => match latest_version(t.versions) {
                Some(version) => encode_object(v, version.fields, schema),
                None => Err(ErrorKind::NotFound),
            },
            None => Err(ErrorKind::NotFound),
        },
        _ => Err(ErrorKind::InvalidInput),
    }
}

/// Whether one of the fields has this name.
pub open spec fn names_a_field(fields: Seq<(u64, FieldSpecView)>, name: Seq<char>) -> bool {
    exists|i: int| 0 <= i < fields.len() && (#[trigger] fields[i]).1.name == name
}

/// The pairs that stand for those of the first `n` members of an object
/// that name no field: each in its own shape, under its key.
pub open spec fn unknown_members(
    members: Seq<(Seq<char>, JsonView)>,
    fields: Seq<(u64, FieldSpecView)>,
    n: nat,
) -> Seq<(PackView, PackView)>
    decreases n,
{
    if n == 0 || n > members.len() {
        Seq::empty()
    } else {
        let front = unknown_members(members, fields, (n - 1) as nat);
        if names_a_field(fields, members[n - 1].0) {
            front
        } else {
            front.push((plain_key(members[n - 1].0), plain_value(members[n - 1].1)))
        }
    }
}

/// The map that stands for an object under a descriptor: the members that
/// name a field, under the tags of their fields and in the ascending order
/// of the tags, and then the members that name none. `InvalidInput` for a
/// value that is no object, or where a field that is not optional has no
/// member.
pub open spec fn encode_object(
    v: JsonView,
    fields: Seq<(u64, FieldSpecView)>,
    schema: Schema,
) -> Result<PackView, ErrorKind>
    decreases v, 1nat, 0nat,
{
    match v {
        JsonView::Object(members) => {
            let tags = descending_of(tags_of(fields));
            match encode_fields(v, fields, tags, tags.len(), schema) {
                Ok(known) => Ok(
                    PackView::Dict(known + unknown_members(members, fields, members.len())),
                ),
                Err(e) => Err(e),
            }
        },
        _ => Err(ErrorKind::InvalidInput),
    }
}

/// The pairs that stand for the members of an object that name the fields
/// of the `n` lowest tags; `tags` holds the tags in descending order.
pub open spec fn encode_fields(
    v: JsonView,
    fields: Seq<(u64, FieldSpecView)>,
    tags: Seq<u64>,
    n: nat,
    schema: Schema,
) -> Result<Seq<(PackView, PackView)>, ErrorKind>
    decreases v, 0nat, n,
{
    match v {
        JsonView::Object(members) => if n == 0 || n > tags.len() {
            Ok(Seq::empty())
        } else {
            match encode_fields(v, fields, tags, (n - 1) as nat, schema) {
                Ok(front) => {
                    let tag = tags[tags.len() - n];
                    match tagged(fields, tag) {
                        Some(field) => match last_index_of(names_of(members), field.name) {
                            Some(i) => if 0 <= i < members.len() {
                                match encode_field(members[i].1, field, schema) {
                                    Ok(p) => Ok(
                                        front.push((PackView::Integer(PackInt::Pos(tag)), p)),
                                    ),
                                    Err(e) => Err(e),
                                }
                            } else {
                                Ok(front)
                            },
                            None => if field.optional {
                                Ok(front)
                            } else {
                                Err(ErrorKind::InvalidInput)
                            },
                        },
                        None => Ok(front),
                    }
                },
                Err(e) => Err(e),
            }
        },
        _ => Ok(Seq::empty()),
    }
}

/// Where the first items of an array fail, more of them fail in the same
/// way.
pub proof fn lemma_encode_items_fail(
    v: JsonView,
    items_spec: Option<ItemsSpecView>,
    schema: Schema,
    n: nat,
    m: nat,
)
    requires
        v is Array,
        n <= m <= v->Array_0.len(),
        encode_items(v, items_spec, schema, n) is Err,
    ensures
        encode_items(v, items_spec, schema, m) == encode_items(v, items_spec, schema, n),
    decreases m,
{
    if n < m {
        lemma_encode_items_fail(v, items_spec, schema, n, (m - 1) as nat);
    }
}

/// Where the fields of the lowest tags fail, more of them fail in the same
/// way.
pub proof fn lemma_encode_fields_fail(
    v: JsonView,
    fields: Seq<(u64, FieldSpecView)>,
    tags: Seq<u64>,
    schema: Schema,
    n: nat,
    m: nat,
)
    requires
        v is Object,
        n <= m <= tags.len(),
        encode_fields(v, fields, tags, n, schema) is Err,
    ensures
        encode_fields(v, fields, tags, m, schema) == encode_fields(v, fields, tags, n, schema),
    decreases m,
{
    if n < m {
        lemma_encode_fields_fail(v, fields, tags, schema, n, (m - 1) as nat);
    }
}

/// The first place at which an enumeration holds a label.
fn find_label(labels: &Vec<(String, String)>, label: &str) -> (place: Option<usize>)
    ensures
        match place {
            Some(i) => i < labels.len() && label_index(labels_view(labels@), label@, 0) == Some(
                i as int,
            ),
            None => label_index(labels_view(labels@), label@, 0) is None,
        },
{
    let ghost all = labels_view(labels@);
    let mut i: usize = 0;
    while i < labels.len()
        invariant
            i <= labels.len(),
            all == labels_view(labels@),
            label_index(all, label@, i as int) == label_index(all, label@, 0),
        decreases labels.len() - i,
    {
        if str_eq(labels[i].1.as_str(), label) {
            return Some(i);
        }
        i += 1;
    }
    None
}

/// The number of a value of an enumerated field: see `enum_number`.
fn find_enum_number(v: &Json, field: &FieldSpec, registry: &Registry) -> (r: Option<Option<u64>>)
    ensures
        r == enum_number(v@, field@, schema_of(registry@)),
{
    let enum_ref = match &field.enum_ref {
        Some(e) => e,
        None => {
            return None;
        },
    };
    if let Some(num) = parse_json_u64_opt(v) {
        return Some(Some(num));
    }
    let label = match v {
        Json::String(s) => s,
        _ => {
            return None;
        },
    };
    let labels = match registry.get_enum(enum_ref.as_str()) {
        Some(labels) => labels,
        None => {
            return Some(None);
        },
    };
    match find_label(labels, label.as_str()) {
        Some(i) => Some(parse_u64(labels[i].0.as_str())),
        None => Some(None),
    }
}

/// Whether one of the fields has this name.
fn field_named(fields: &Vec<(u64, FieldSpec)>, name: &str) -> (found: bool)
    ensures
        found == names_a_field(fields_view(fields@), name@),
{
    let ghost all = fields_view(fields@);
    let mut i: usize = 0;
    while i < fields.len()
        invariant
            i <= fields.len(),
            all == fields_view(fields@),
            forall|j: int| 0 <= j < i ==> (#[trigger] all[j]).1.name != name@,
        decreases fields.len() - i,
    {
        if str_eq(fields[i].1.name.as_str(), name) {
            assert(all[i as int].1.name == name@);
            return true;
        }
        i += 1;
    }
    false
}

/// The value that stands for a member under its field: see `encode_field`.
/// Fails with `InvalidInput` where the value does not hold what the field
/// asks for, and with `NotFound` where a referenced type has no version.
pub fn encode_field_value(v: &Json, field: &FieldSpec, registry: &Registry) -> (r: Result<
    PackValue,
    StoreError,
>)
    ensures
        match r {
            Ok(p) => encode_field(v@, field@, schema_of(registry@)) == Ok::<PackView, ErrorKind>(p@)
                && writable(p@),
            Err(e) => encode_field(v@, field@, schema_of(registry@)) == Err::<
                PackView,
                ErrorKind,
            >(e.kind()),
        },
    decreases v, 4nat,
{
    if let Json::Null = v {
        return Ok(PackValue::Nil);
    }
    match find_enum_number(v, field, registry) {
        Some(Some(n)) => {
            return Ok(PackValue::Integer(PackInt::Pos(n)));
        },
        Some(None) => {
            return Err(
                StoreError::InvalidInput(
                    concat3("unknown enum label for ", field.name.as_str(), ""),
                ),
            );
        },
        None => {},
    }
    let t = field.field_type.as_str();
    if str_eq(t, "array") {
        encode_array_items(v, &field.items, field.name.as_str(), registry)
    } else if str_eq(t, "ref") {
        match &field.type_ref {
            Some(type_ref) => encode_ref_value(v, type_ref.as_str(), registry),
            None => Ok(json_to_msgpack_value(v)),
        }
    } else {
        encode_value_for_type(v, t)
    }
}

/// The array that stands for an array, item by item: see `encode_items`.
fn encode_array_items(
    v: &Json,
    items_spec: &Option<ItemsSpec>,
    name: &str,
    registry: &Registry,
) -> (r: Result<PackValue, StoreError>)
    ensures
        match v {
            Json::Array(items) => match r {
                Ok(p) => encode_items(
                    v@,
                    opt_items(*items_spec),
                    schema_of(registry@),
                    items@.len() as nat,
                ) == Ok::<Seq<PackView>, ErrorKind>(p@->Array_0) && p@ is Array && writable(p@),
                Err(e) => encode_items(
                    v@,
                    opt_items(*items_spec),
                    schema_of(registry@),
                    items@.len() as nat,
                ) == Err::<Seq<PackView>, ErrorKind>(e.kind()),
            },
            _ => r is Err && r->Err_0.kind() == ErrorKind::InvalidInput,
        },
        v is Array ==> v@ is Array && v@->Array_0.len() == v->Array_0@.len(),
    decreases v, 3nat,
{
    let items = match v {
        Json::Array(items) => items,
        _ => {
            return Err(StoreError::InvalidInput(concat3("expected array for ", name, "")));
        },
    };
    proof {
        lemma_json_view(v);
    }
    let ghost spec = opt_items(*items_spec);
    let ghost schema = schema_of(registry@);
    let mut out: Vec<PackValue> = Vec::with_capacity(items.len());
    let mut i: usize = 0;
    assert(item_views(out@) =~= Seq::empty());
    while i < items.len()
        invariant
            i <= items.len(),
            decreases_to!(v => items),
            v@ == JsonView::Array(element_views(items@)),
            spec == opt_items(*items_spec),
            schema == schema_of(registry@),
            encode_items(v@, spec, schema, i as nat) == Ok::<Seq<PackView>, ErrorKind>(
                item_views(out@),
            ),
            forall|j: int| 0 <= j < out@.len() ==> writable(#[trigger] out@[j]@),
        decreases items.len() - i,
    {
        proof {
            vstd::std_specs::vec::axiom_vec_index_decreases(*items, i as int);
        }
        let encoded = match items_spec {
            Some(ItemsSpec::Simple(item_type)) => encode_value_for_type(
                &items[i],
                item_type.as_str(),
            ),
            Some(ItemsSpec::Ref(type_ref)) => encode_ref_value(
                &items[i],
                type_ref.as_str(),
                registry,
            ),
            None => Ok(json_to_msgpack_value(&items[i])),
        };
        match encoded {
            Ok(p) => {
                let ghost before = item_views(out@);
                out.push(p);
                assert(item_views(out@) =~= before.push(p@));
            },
            Err(e) => {
                proof {
                    lemma_encode_items_fail(v@, spec, schema, (i + 1) as nat, items@.len() as nat);
                }
                return Err(e);
            },
        }
        i += 1;
    }
    let r = PackValue::Array(out);
    proof {
        lemma_pack_view(&r);
    }
    Ok(r)
}

/// The map that stands for an object under the latest version of a type:
/// see `encode_ref`.
pub fn encode_ref_value(v: &Json, type_ref: &str, registry: &Registry) -> (r: Result<
    PackValue,
    StoreError,
>)
    ensures
        match r {
            Ok(p) => encode_ref(v@, type_ref@, schema_of(registry@)) == Ok::<PackView, ErrorKind>(p@)
                && writable(p@),
            Err(e) => encode_ref(v@, type_ref@, schema_of(registry@)) == Err::<
                PackView,
                ErrorKind,
            >(e.kind()),
        },
    decreases v, 2nat,
{
    match v {
        Json::Object(_) => {},
        _ => {
            return Err(StoreError::InvalidInput(concat3("expected object for ref ", type_ref, "")));
        },
    }
    match registry.get_latest_type_version(type_ref) {
        Some(desc) => encode_object_with_descriptor(v, desc, registry),
        None => Err(StoreError::NotFound("type descriptor".to_string())),
    }
}

/// The tags of a list of fields.
fn field_tags(fields: &Vec<(u64, FieldSpec)>) -> (tags: Vec<u64>)
    ensures
        tags@ == tags_of(fields_view(fields@)),
{
    let mut tags: Vec<u64> = Vec::with_capacity(fields.len());
    let mut i: usize = 0;
    while i < fields.len()
        invariant
            i <= fields.len(),
            tags@ == tags_of(fields_view(fields@)).take(i as int),
        decreases fields.len() - i,
    {
        tags.push(fields[i].0);
        assert(tags@ =~= tags_of(fields_view(fields@)).take(i + 1));
        i += 1;
    }
    assert(tags@ =~= tags_of(fields_view(fields@)));
    tags
}

/// The pairs that stand for the members that name a field: see
/// `encode_fields`.
fn encode_known_fields(v: &Json, fields: &Vec<(u64, FieldSpec)>, registry: &Registry) -> (r: Result<
    Vec<(PackValue, PackValue)>,
    StoreError,
>)
    requires
        v is Object,
    ensures
        match r {
            Ok(pairs) => encode_fields(
                v@,
                fields_view(fields@),
                descending_of(tags_of(fields_view(fields@))),
                descending_of(tags_of(fields_view(fields@))).len(),
                schema_of(registry@),
            ) == Ok::<Seq<(PackView, PackView)>, ErrorKind>(pair_views(pairs@)) && forall|j: int|
                0 <= j < pairs@.len() ==> writable((#[trigger] pairs@[j]).0@) && writable(
                    pairs@[j].1@,
                ),
            Err(e) => encode_fields(
                v@,
                fields_view(fields@),
                descending_of(tags_of(fields_view(fields@))),
                descending_of(tags_of(fields_view(fields@))).len(),
                schema_of(registry@),
            ) == Err::<Seq<(PackView, PackView)>, ErrorKind>(e.kind()),
        },
    decreases v, 0nat,
{
    let members = match v {
        Json::Object(members) => members,
        _ => {
            return Ok(Vec::new());
        },
    };
    proof {
        lemma_json_view(v);
    }
    let tags = sort_descending(&field_tags(fields));
    let ghost fv = fields_view(fields@);
    let ghost schema = schema_of(registry@);
    let ghost views = member_views(members@);
    assert(names_of(views) =~= text_keys(members@));
    let mut out: Vec<(PackValue, PackValue)> = Vec::new();
    let mut n: usize = 0;
    assert(pair_views(out@) =~= Seq::empty());
    while n < tags.len()
        invariant
            n <= tags.len(),
            decreases_to!(v => members),
            v@ == JsonView::Object(views),
            views == member_views(members@),
            names_of(views) == text_keys(members@),
            fv == fields_view(fields@),
            schema == schema_of(registry@),
            tags@ == descending_of(tags_of(fv)),
            encode_fields(v@, fv, tags@, n as nat, schema) == Ok::<
                Seq<(PackView, PackView)>,
                ErrorKind,
            >(pair_views(out@)),
            forall|j: int|
                0 <= j < out@.len() ==> writable((#[trigger] out@[j]).0@) && writable(out@[j].1@),
        decreases tags.len() - n,
    {
        let tag = tags[tags.len() - 1 - n];
        if let Some(at) = find_field(fields, tag) {
            let field = &fields[at].1;
            assert(tagged(fv, tag) == Some(field@));
            match find_text_key(members, field.name.as_str()) {
                Some(i) => {
                    proof {
                        vstd::std_specs::vec::axiom_vec_index_decreases(*members, i as int);
                    }
                    match encode_field_value(&members[i].1, field, registry) {
                        Ok(p) => {
                            let ghost before = pair_views(out@);
                            let key = PackValue::Integer(PackInt::Pos(tag));
                            out.push((key, p));
                            assert(pair_views(out@) =~= before.push((key@, p@)));
                        },
                        Err(e) => {
                            proof {
                                lemma_encode_fields_fail(
                                    v@,
                                    fv,
                                    tags@,
                                    schema,
                                    (n + 1) as nat,
                                    tags@.len(),
                                );
                            }
                            return Err(e);
                        },
                    }
                },
                None => {
                    if !field.optional {
                        proof {
                            lemma_encode_fields_fail(
                                v@,
                                fv,
                                tags@,
                                schema,
                                (n + 1) as nat,
                                tags@.len(),
                            );
                        }
                        return Err(
                            StoreError::InvalidInput(
                                concat3("missing required field: ", field.name.as_str(), ""),
                            ),
                        );
                    }
                },
            }
        }
        n += 1;
    }
    Ok(out)
}

/// Adds the pairs that stand for the members that name no field: see
/// `unknown_members`.
fn push_unknown_members(
    out: &mut Vec<(PackValue, PackValue)>,
    members: &Vec<(String, Json)>,
    fields: &Vec<(u64, FieldSpec)>,
)
    requires
        forall|j: int|
            0 <= j < old(out)@.len() ==> writable((#[trigger] old(out)@[j]).0@) && writable(
                old(out)@[j].1@,
            ),
    ensures
        pair_views(final(out)@) == pair_views(old(out)@) + unknown_members(
            member_views(members@),
            fields_view(fields@),
            members@.len() as nat,
        ),
        forall|j: int|
            0 <= j < final(out)@.len() ==> writable((#[trigger] final(out)@[j]).0@) && writable(
                final(out)@[j].1@,
            ),
{
    let ghost before = pair_views(out@);
    let ghost views = member_views(members@);
    let ghost fv = fields_view(fields@);
    let mut i: usize = 0;
    assert(pair_views(out@) =~= before + unknown_members(views, fv, 0));
    while i < members.len()
        invariant
            i <= members.len(),
            views == member_views(members@),
            fv == fields_view(fields@),
            pair_views(out@) == before + unknown_members(views, fv, i as nat),
            forall|j: int|
                0 <= j < out@.len() ==> writable((#[trigger] out@[j]).0@) && writable(out@[j].1@),
        decreases members.len() - i,
    {
        if !field_named(fields, members[i].0.as_str()) {
            let ghost held = pair_views(out@);
            let key = plain_key_pack(members[i].0.as_str());
            let value = json_to_msgpack_value(&members[i].1);
            out.push((key, value));
            assert(pair_views(out@) =~= held.push((key@, value@)));
            assert(pair_views(out@) =~= before + unknown_members(views, fv, (i + 1) as nat));
        }
        i += 1;
    }
}

/// The map that stands for an object under a descriptor: see
/// `encode_object`. Fails with `InvalidInput` where the value is no object,
/// a field that is not optional has no member, or a member does not hold
/// what its field asks for, and with `NotFound` where a referenced type has
/// no version.
pub fn encode_object_with_descriptor(v: &Json, desc: &TypeVersionSpec, registry: &Registry) -> (r:
    Result<PackValue, StoreError>)
    ensures
        match r {
            Ok(p) => encode_object(v@, desc@.fields, schema_of(registry@)) == Ok::<
                PackView,
                ErrorKind,
            >(p@) && writable(p@),
            Err(e) => encode_object(v@, desc@.fields, schema_of(registry@)) == Err::<
                PackView,
                ErrorKind,
            >(e.kind()),
        },
    decreases v, 1nat,
{
    let members = match v {
        Json::Object(members) => members,
        _ => {
            return Err(StoreError::InvalidInput("expected object".to_string()));
        },
    };
    proof {
        lemma_json_view(v);
    }
    let mut out = match encode_known_fields(v, &desc.fields, registry) {
        Ok(known) => known,
        Err(e) => {
            return Err(e);
        },
    };
    push_unknown_members(&mut out, members, &desc.fields);
    let r = PackValue::Dict(out);
    proof {
        lemma_pack_view(&r);
    }
    Ok(r)
}

/// The descriptor of a version of a type, if the schema holds it.
pub open spec fn descriptor_of(schema: Schema, type_id: Seq<char>, version: u32) -> Option<
    TypeVersionSpecView,
> {
    match named(schema.types, type_id) {
        Some(t) => match version_index(t.versions, version) {
            Some(i) => Some(t.versions[i]),
            None => None,
        },
        None => None,
    }
}

/// The value that stands for a payload: that of an object under the
/// descriptor of its type where the schema holds it, else one of the same
/// shape.
pub open spec fn payload_value(
    payload: JsonView,
    type_id: Seq<char>,
    version: u32,
    schema: Schema,
) -> Result<PackView, ErrorKind> {
    match (descriptor_of(schema, type_id, version), payload) {
        (Some(desc), JsonView::Object(_)) => encode_object(payload, desc.fields, schema),
        _ => Ok(plain_value(payload)),
    }
}

/// The bytes of a payload: the MessagePack encoding of its value;
/// `InvalidInput` where the writer fails.
pub open spec fn spec_encode_http_payload(
    payload: JsonView,
    type_id: Seq<char>,
    version: u32,
    schema: Schema,
) -> Result<Seq<u8>, ErrorKind> {
    match payload_value(payload, type_id, version, schema) {
        Ok(p) => match msgpack_bytes(p) {
            Some(bytes) => Ok(bytes),
            None => Err(ErrorKind::InvalidInput),
        },
        Err(e) => Err(e),
    }
}

/// The value that stands for a payload: see `payload_value`.
pub fn encode_payload_value(
    payload_json: &Json,
    type_id: &str,
    type_version: u32,
    registry: &Registry,
) -> (r: Result<PackValue, StoreError>)
    ensures
        match r {
            Ok(p) => payload_value(payload_json@, type_id@, type_version, schema_of(registry@))
                == Ok::<PackView, ErrorKind>(p@) && writable(p@),
            Err(e) => payload_value(payload_json@, type_id@, type_version, schema_of(registry@))
                == Err::<PackView, ErrorKind>(e.kind()),
        },
{
    if let Some(desc) = registry.get_type_version(type_id, type_version) {
        if let Json::Object(_) = payload_json {
            return encode_object_with_descriptor(payload_json, desc, registry);
        }
    }
    Ok(json_to_msgpack_value(payload_json))
}

/// Encodes a payload that came as JSON: under the descriptor of its type
/// where the registry holds it and the payload is an object, else in its
/// own shape. See `spec_encode_http_payload`.
pub fn encode_http_payload(
    payload_json: &Json,
    type_id: &str,
    type_version: u32,
    registry: &Registry,
) -> (r: Result<Vec<u8>, StoreError>)
    ensures
        match r {
            Ok(bytes) => spec_encode_http_payload(
                payload_json@,
                type_id@,
                type_version,
                schema_of(registry@),
            ) == Ok::<Seq<u8>, ErrorKind>(bytes@),
            Err(e) => spec_encode_http_payload(
                payload_json@,
                type_id@,
                type_version,
                schema_of(registry@),
            ) == Err::<Seq<u8>, ErrorKind>(e.kind()),
        },
{
    let value = match encode_payload_value(payload_json, type_id, type_version, registry) {
        Ok(value) => value,
        Err(e) => {
            return Err(e);
        },
    };
    match encode_msgpack(&value) {
        Ok(bytes) => Ok(bytes),
        Err(msg) => Err(
            StoreError::InvalidInput(concat3("msgpack encode error: ", msg.as_str(), "")),
        ),
    }
}

} // verus!
