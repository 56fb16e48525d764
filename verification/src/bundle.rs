//! Registry bundles: the shape of the JSON document that delivers type
//! descriptors and enumerations, and how it is read.

use crate::json::{lemma_json_view, member_views, Json, JsonNumber, JsonView};
use crate::registry_types::{
    fields_view, put_tagged, tags_of, versions_view, FieldSpec, FieldSpecView, ItemsSpec,
    ItemsSpecView, RendererSpec, RendererSpecView, TypeVersionSpec, TypeVersionSpecView,
    opt_renderer, opt_items,
};
use crate::text::{
    find_number_key, find_text_key, last_index_of, lemma_try_map_none, number_keys, opt_text,
    parse_u32, parse_u64, spec_parse_u32, spec_parse_u64, str_eq, text_keys, try_map,
};
use vstd::prelude::*;

verus! {

/// The keys of the members of an object.
pub open spec fn member_keys(members: Seq<(Seq<char>, JsonView)>) -> Seq<Seq<char>> {
    Seq::new(members.len(), |i: int| members[i].0)
}

/// The member of an object with this key: the last, where there are more.
pub open spec fn obj_get(members: Seq<(Seq<char>, JsonView)>, key: Seq<char>) -> Option<JsonView> {
    match last_index_of(member_keys(members), key) {
        Some(i) => Some(members[i].1),
        None => None,
    }
}

/// A member that must be there and be a text.
pub open spec fn text_member(members: Seq<(Seq<char>, JsonView)>, key: Seq<char>) -> Option<
    Seq<char>,
> {
    match obj_get(members, key) {
        Some(JsonView::String(s)) => Some(s),
        _ => None,
    }
}

/// A member that may be a text, be null or be missing: `None` where it is of
/// another kind.
pub open spec fn opt_text_member(members: Seq<(Seq<char>, JsonView)>, key: Seq<char>) -> Option<
    Option<Seq<char>>,
> {
    match obj_get(members, key) {
        None => Some(None),
        Some(JsonView::Null) => Some(None),
        Some(JsonView::String(s)) => Some(Some(s)),
        _ => None,
    }
}

/// A member that may be a boolean, be null or be missing: `None` where it is
/// of another kind.
pub open spec fn opt_bool_member(members: Seq<(Seq<char>, JsonView)>, key: Seq<char>) -> Option<
    Option<bool>,
> {
    match obj_get(members, key) {
        None => Some(None),
        Some(JsonView::Null) => Some(None),
        Some(JsonView::Bool(b)) => Some(Some(b)),
        _ => None,
    }
}

/// The items spec of a field: a text names a base type; an object names a
/// base type by `type`, or a referenced type by `ref` where `type` is `ref`
/// or missing. Anything else gives none.
pub open spec fn items_of(members: Seq<(Seq<char>, JsonView)>) -> Option<ItemsSpecView> {
    match obj_get(members, "items"@) {
        Some(JsonView::String(s)) => Some(ItemsSpecView::Simple(s)),
        Some(JsonView::Object(obj)) => match obj_get(obj, "type"@) {
            Some(JsonView::String(t)) => if t == "ref"@ {
                match obj_get(obj, "ref"@) {
                    Some(JsonView::String(r)) => Some(ItemsSpecView::Ref(r)),
                    _ => None,
                }
            } else {
                Some(ItemsSpecView::Simple(t))
            },
            _ => match obj_get(obj, "ref"@) {
                Some(JsonView::String(r)) => Some(ItemsSpecView::Ref(r)),
                _ => None,
            },
        },
        _ => None,
    }
}

/// The field that a JSON value defines: an object with the texts `name` and
/// `type`, and optionally `enum`, `ref`, `optional` and `items`.
pub open spec fn field_of(value: JsonView) -> Option<FieldSpecView> {
    match value {
        JsonView::Object(m) => match (
            text_member(m, "name"@),
            text_member(m, "type"@),
            opt_text_member(m, "enum"@),
            opt_text_member(m, "ref"@),
            opt_bool_member(m, "optional"@),
        ) {
            (Some(name), Some(field_type), Some(enum_ref), Some(type_ref), Some(optional)) => Some(
                FieldSpecView {
                    name,
                    field_type,
                    enum_ref,
                    type_ref,
                    optional: match optional {
                        Some(b) => b,
                        None => false,
                    },
                    items: items_of(m),
                },
            ),
            _ => None,
        },
        _ => None,
    }
}

/// The tagged field that a member of a `fields` object defines: its key
/// spells the tag.
pub open spec fn tagged_field_of(member: (Seq<char>, JsonView)) -> Option<(u64, FieldSpecView)> {
    match (spec_parse_u64(member.0), field_of(member.1)) {
        (Some(tag), Some(field)) => Some((tag, field)),
        _ => None,
    }
}

/// `tagged_field_of`, as a function value.
pub open spec fn tagged_field_fn() -> spec_fn((Seq<char>, JsonView)) -> Option<(u64, FieldSpecView)> {
    |member: (Seq<char>, JsonView)| tagged_field_of(member)
}

/// Files tagged fields by tag: a later field of a tag replaces an earlier.
pub open spec fn by_tag(fields: Seq<(u64, FieldSpecView)>) -> Seq<(u64, FieldSpecView)> {
    fields.fold_left(
        Seq::<(u64, FieldSpecView)>::empty(),
        |acc: Seq<(u64, FieldSpecView)>, f: (u64, FieldSpecView)| put_tagged(acc, f.0, f.1),
    )
}

/// The fields that a `fields` member defines: none where it is missing, and
/// `None` where it is no object or one of its members defines no field.
pub open spec fn fields_of(value: Option<JsonView>) -> Option<Seq<(u64, FieldSpecView)>> {
    match value {
        None => Some(Seq::empty()),
        Some(JsonView::Object(m)) => match try_map(m, tagged_field_fn()) {
            Some(fields) => Some(by_tag(fields)),
            None => None,
        },
        _ => None,
    }
}

/// The renderer that a `renderer` member defines: none where it is missing
/// or null, and `None` where it is no object with a text `esm_url`.
pub open spec fn renderer_of(value: Option<JsonView>) -> Option<Option<RendererSpecView>> {
    match value {
        None => Some(None),
        Some(JsonView::Null) => Some(None),
        Some(JsonView::Object(m)) => match (
            text_member(m, "esm_url"@),
            opt_text_member(m, "component"@),
            opt_text_member(m, "integrity"@),
        ) {
            (Some(esm_url), Some(component), Some(integrity)) => Some(
                Some(RendererSpecView { esm_url, component, integrity }),
            ),
            _ => None,
        },
        _ => None,
    }
}

/// The version that a member of a `versions` object defines: its key spells
/// the version number.
pub open spec fn version_of(member: (Seq<char>, JsonView)) -> Option<TypeVersionSpecView> {
    match member.1 {
        JsonView::Object(m) => match (
            spec_parse_u32(member.0),
            fields_of(obj_get(m, "fields"@)),
            renderer_of(obj_get(m, "renderer"@)),
        ) {
            (Some(version), Some(fields), Some(renderer)) => Some(
                TypeVersionSpecView { version, fields, renderer },
            ),
            _ => None,
        },
        _ => None,
    }
}

/// `version_of`, as a function value.
pub open spec fn version_fn() -> spec_fn((Seq<char>, JsonView)) -> Option<TypeVersionSpecView> {
    |member: (Seq<char>, JsonView)| version_of(member)
}

/// The versions that a member of a `types` object defines, under its type
/// id.
pub open spec fn type_entry_of(member: (Seq<char>, JsonView)) -> Option<
    (Seq<char>, Seq<TypeVersionSpecView>),
> {
    match member.1 {
        JsonView::Object(m) => match obj_get(m, "versions"@) {
            None => Some((member.0, Seq::empty())),
            Some(JsonView::Object(vs)) => match try_map(vs, version_fn()) {
                Some(versions) => Some((member.0, versions)),
                None => None,
            },
            _ => None,
        },
        _ => None,
    }
}

/// `type_entry_of`, as a function value.
pub open spec fn type_entry_fn() -> spec_fn((Seq<char>, JsonView)) -> Option<
    (Seq<char>, Seq<TypeVersionSpecView>),
> {
    |member: (Seq<char>, JsonView)| type_entry_of(member)
}

/// The label that a member of an enumeration defines, under its code.
pub open spec fn label_of(member: (Seq<char>, JsonView)) -> Option<(Seq<char>, Seq<char>)> {
    match member.1 {
        JsonView::String(label) => Some((member.0, label)),
        _ => None,
    }
}

/// `label_of`, as a function value.
pub open spec fn label_fn() -> spec_fn((Seq<char>, JsonView)) -> Option<(Seq<char>, Seq<char>)> {
    |member: (Seq<char>, JsonView)| label_of(member)
}

/// The enumeration that a member of an `enums` object defines, under its id.
pub open spec fn enum_of(member: (Seq<char>, JsonView)) -> Option<
    (Seq<char>, Seq<(Seq<char>, Seq<char>)>),
> {
    match member.1 {
        JsonView::Object(m) => match try_map(m, label_fn()) {
            Some(labels) => Some((member.0, labels)),
            None => None,
        },
        _ => None,
    }
}

/// `enum_of`, as a function value.
pub open spec fn enum_fn() -> spec_fn((Seq<char>, JsonView)) -> Option<
    (Seq<char>, Seq<(Seq<char>, Seq<char>)>),
> {
    |member: (Seq<char>, JsonView)| enum_of(member)
}

/// What a bundle holds.
pub ghost struct RegistryBundleView {
    pub registry_version: u32,
    pub bundle_id: Seq<char>,
    pub types: Seq<(Seq<char>, Seq<TypeVersionSpecView>)>,
    pub enums: Seq<(Seq<char>, Seq<(Seq<char>, Seq<char>)>)>,
}

/// The types that a `types` member defines.
pub open spec fn types_of(value: Option<JsonView>) -> Option<
    Seq<(Seq<char>, Seq<TypeVersionSpecView>)>,
> {
    match value {
        None => Some(Seq::empty()),
        Some(JsonView::Object(m)) => try_map(m, type_entry_fn()),
        _ => None,
    }
}

/// The enumerations that an `enums` member defines.
pub open spec fn enums_of(value: Option<JsonView>) -> Option<
    Seq<(Seq<char>, Seq<(Seq<char>, Seq<char>)>)>,
> {
    match value {
        None => Some(Seq::empty()),
        Some(JsonView::Object(m)) => try_map(m, enum_fn()),
        _ => None,
    }
}

/// The registry version that a `registry_version` member spells: a
/// non-negative integer that fits in 32 bits.
pub open spec fn registry_version_of(value: Option<JsonView>) -> Option<u32> {
    match value {
        Some(JsonView::Number(JsonNumber::PosInt(n))) => if n <= u32::MAX {
            Some(n as u32)
        } else {
            None
        },
        _ => None,
    }
}

/// The bundle that a JSON document defines: an object with a number
/// `registry_version`, a text `bundle_id`, and optionally `types` and
/// `enums`.
pub open spec fn bundle_of(doc: JsonView) -> Option<RegistryBundleView> {
    match doc {
        JsonView::Object(m) => match (
            registry_version_of(obj_get(m, "registry_version"@)),
            text_member(m, "bundle_id"@),
            types_of(obj_get(m, "types"@)),
            enums_of(obj_get(m, "enums"@)),
        ) {
            (Some(registry_version), Some(bundle_id), Some(types), Some(enums)) => Some(
                RegistryBundleView { registry_version, bundle_id, types, enums },
            ),
            _ => None,
        },
        _ => None,
    }
}

/// A bundle as it was read from its document.
#[derive(Debug)]
pub struct RegistryBundle {
    pub registry_version: u32,
    pub bundle_id: String,
    pub types: Vec<(String, Vec<TypeVersionSpec>)>,
    pub enums: Vec<(String, Vec<(String, String)>)>,
}

/// The pairs of a list of texts.
pub open spec fn labels_view(labels: Seq<(String, String)>) -> Seq<(Seq<char>, Seq<char>)> {
    Seq::new(labels.len(), |i: int| (labels[i].0@, labels[i].1@))
}

/// The enumerations of a list.
pub open spec fn enums_view(enums: Seq<(String, Vec<(String, String)>)>) -> Seq<
    (Seq<char>, Seq<(Seq<char>, Seq<char>)>),
> {
    Seq::new(enums.len(), |i: int| (enums[i].0@, labels_view(enums[i].1@)))
}

/// The type entries of a list.
pub open spec fn entries_view(types: Seq<(String, Vec<TypeVersionSpec>)>) -> Seq<
    (Seq<char>, Seq<TypeVersionSpecView>),
> {
    Seq::new(types.len(), |i: int| (types[i].0@, versions_view(types[i].1@)))
}

impl View for RegistryBundle {
    type V = RegistryBundleView;

    open spec fn view(&self) -> RegistryBundleView {
        RegistryBundleView {
            registry_version: self.registry_version,
            bundle_id: self.bundle_id@,
            types: entries_view(self.types@),
            enums: enums_view(self.enums@),
        }
    }
}

/// The view of an optional JSON value.
pub open spec fn opt_json(value: Option<&Json>) -> Option<JsonView> {
    match value {
        Some(v) => Some(v@),
        None => None,
    }
}

/// The member of an object with this key.
pub fn get_member<'a>(members: &'a Vec<(String, Json)>, key: &str) -> (value: Option<&'a Json>)
    ensures
        opt_json(value) == obj_get(member_views(members@), key@),
{
    assert(member_keys(member_views(members@)) =~= text_keys(members@));
    match find_text_key(members, key) {
        Some(i) => Some(&members[i].1),
        None => None,
    }
}

fn get_text(members: &Vec<(String, Json)>, key: &str) -> (r: Option<String>)
    ensures
        opt_text(r) == text_member(member_views(members@), key@),
{
    match get_member(members, key) {
        Some(Json::String(s)) => Some(s.clone()),
        _ => None,
    }
}

fn get_opt_text(members: &Vec<(String, Json)>, key: &str) -> (r: Option<Option<String>>)
    ensures
        match r {
            Some(t) => opt_text_member(member_views(members@), key@) == Some(opt_text(t)),
            None => opt_text_member(member_views(members@), key@) is None,
        },
{
    match get_member(members, key) {
        None => Some(None),
        Some(Json::Null) => Some(None),
        Some(Json::String(s)) => Some(Some(s.clone())),
        _ => None,
    }
}

fn get_opt_bool(members: &Vec<(String, Json)>, key: &str) -> (r: Option<Option<bool>>)
    ensures
        r == opt_bool_member(member_views(members@), key@),
{
    match get_member(members, key) {
        None => Some(None),
        Some(Json::Null) => Some(None),
        Some(Json::Bool(b)) => Some(Some(*b)),
        _ => None,
    }
}

fn parse_items(members: &Vec<(String, Json)>) -> (r: Option<ItemsSpec>)
    ensures
        opt_items(r) == items_of(member_views(members@)),
{
    let items = get_member(members, "items");
    match items {
        Some(Json::String(s)) => Some(ItemsSpec::Simple(s.clone())),
        Some(Json::Object(obj)) => {
            proof {
                lemma_json_view(items.unwrap());
            }
            match get_member(obj, "type") {
                Some(Json::String(t)) => {
                    if str_eq(t.as_str(), "ref") {
                        match get_member(obj, "ref") {
                            Some(Json::String(r)) => Some(ItemsSpec::Ref(r.clone())),
                            _ => None,
                        }
                    } else {
                        Some(ItemsSpec::Simple(t.clone()))
                    }
                },
                _ => match get_member(obj, "ref") {
                    Some(Json::String(r)) => Some(ItemsSpec::Ref(r.clone())),
                    _ => None,
                },
            }
        },
        _ => None,
    }
}

/// The view of an optional field.
pub open spec fn opt_field(f: Option<FieldSpec>) -> Option<FieldSpecView> {
    match f {
        Some(field) => Some(field@),
        None => None,
    }
}

fn parse_field(value: &Json) -> (r: Option<FieldSpec>)
    ensures
        opt_field(r) == field_of(value@),
{
    let m = match value {
        Json::Object(m) => m,
        _ => {
            return None;
        },
    };
    proof {
        lemma_json_view(value);
    }
    let name = match get_text(m, "name") {
        Some(s) => s,
        None => {
            return None;
        },
    };
    let field_type = match get_text(m, "type") {
        Some(s) => s,
        None => {
            return None;
        },
    };
    let enum_ref = match get_opt_text(m, "enum") {
        Some(s) => s,
        None => {
            return None;
        },
    };
    let type_ref = match get_opt_text(m, "ref") {
        Some(s) => s,
        None => {
            return None;
        },
    };
    let optional = match get_opt_bool(m, "optional") {
        Some(Some(b)) => b,
        Some(None) => false,
        None => {
            return None;
        },
    };
    let items = parse_items(m);
    Some(FieldSpec { name, field_type, enum_ref, type_ref, optional, items })
}

/// The view of an optional tagged field.
pub open spec fn opt_tagged_field(f: Option<(u64, FieldSpec)>) -> Option<(u64, FieldSpecView)> {
    match f {
        Some(field) => Some((field.0, field.1@)),
        None => None,
    }
}

fn parse_tagged_field(key: &str, value: &Json) -> (r: Option<(u64, FieldSpec)>)
    ensures
        opt_tagged_field(r) == tagged_field_of((key@, value@)),
{
    match (parse_u64(key), parse_field(value)) {
        (Some(tag), Some(field)) => Some((tag, field)),
        _ => None,
    }
}

/// The fields that the members of a `fields` object define, filed by tag.
fn parse_field_members(m: &Vec<(String, Json)>) -> (r: Option<Vec<(u64, FieldSpec)>>)
    ensures
        match r {
            Some(found) => fields_of(Some(JsonView::Object(member_views(m@)))) == Some(
                fields_view(found@),
            ),
            None => fields_of(Some(JsonView::Object(member_views(m@)))) is None,
        },
{
    let ghost all = member_views(m@);
    let ghost step = |acc: Seq<(u64, FieldSpecView)>, f: (u64, FieldSpecView)|
        put_tagged(acc, f.0, f.1);
    let ghost raw: Seq<(u64, FieldSpecView)> = Seq::empty();
    let mut found: Vec<(u64, FieldSpec)> = Vec::new();
    let mut i: usize = 0;
    assert(all.take(0) =~= Seq::empty());
    assert(fields_view(found@) =~= Seq::empty());
    while i < m.len()
        invariant
            i <= m.len(),
            all == member_views(m@),
            step == (|acc: Seq<(u64, FieldSpecView)>, f: (u64, FieldSpecView)|
                put_tagged(acc, f.0, f.1)),
            try_map(all.take(i as int), tagged_field_fn()) == Some(raw),
            fields_view(found@) == raw.fold_left(Seq::<(u64, FieldSpecView)>::empty(), step),
        decreases m.len() - i,
    {
        assert(all.take(i + 1).drop_last() =~= all.take(i as int));
        let ghost before = fields_view(found@);
        match parse_tagged_field(m[i].0.as_str(), &m[i].1) {
            Some((tag, field)) => {
                let ghost fv = field@;
                assert(tags_of(before) =~= number_keys(found@));
                match find_number_key(&found, tag) {
                    Some(at) => {
                        found[at] = (tag, field);
                        assert(fields_view(found@) =~= before.update(at as int, (tag, fv)));
                    },
                    None => {
                        found.push((tag, field));
                        assert(fields_view(found@) =~= before.push((tag, fv)));
                    },
                }
                proof {
                    assert(raw.push((tag, fv)).drop_last() =~= raw);
                    raw = raw.push((tag, fv));
                }
            },
            None => {
                proof {
                    lemma_try_map_none(all, tagged_field_fn(), i as int);
                }
                return None;
            },
        }
        i += 1;
    }
    assert(all.take(i as int) =~= all);
    Some(found)
}

fn parse_fields(value: Option<&Json>) -> (r: Option<Vec<(u64, FieldSpec)>>)
    ensures
        match r {
            Some(found) => fields_of(opt_json(value)) == Some(fields_view(found@)),
            None => fields_of(opt_json(value)) is None,
        },
{
    match value {
        None => {
            let found: Vec<(u64, FieldSpec)> = Vec::new();
            assert(fields_view(found@) =~= Seq::empty());
            Some(found)
        },
        Some(Json::Object(m)) => {
            proof {
                lemma_json_view(value.unwrap());
            }
            parse_field_members(m)
        },
        _ => None,
    }
}

fn parse_renderer(value: Option<&Json>) -> (r: Option<Option<RendererSpec>>)
    ensures
        match r {
            Some(found) => renderer_of(opt_json(value)) == Some(opt_renderer(found)),
            None => renderer_of(opt_json(value)) is None,
        },
{
    match value {
        None => Some(None),
        Some(Json::Null) => Some(None),
        Some(Json::Object(m)) => {
            proof {
                lemma_json_view(value.unwrap());
            }
            match (get_text(m, "esm_url"), get_opt_text(m, "component"), get_opt_text(m, "integrity")) {
                (Some(esm_url), Some(component), Some(integrity)) => Some(
                    Some(RendererSpec { esm_url, component, integrity }),
                ),
                _ => None,
            }
        },
        _ => None,
    }
}

/// The view of an optional version.
pub open spec fn opt_version(v: Option<TypeVersionSpec>) -> Option<TypeVersionSpecView> {
    match v {
        Some(version) => Some(version@),
        None => None,
    }
}

fn parse_type_version(key: &str, value: &Json) -> (r: Option<TypeVersionSpec>)
    ensures
        opt_version(r) == version_of((key@, value@)),
{
    let m = match value {
        Json::Object(m) => m,
        _ => {
            return None;
        },
    };
    proof {
        lemma_json_view(value);
    }
    let version = match parse_u32(key) {
        Some(n) => n,
        None => {
            return None;
        },
    };
    let fields = match parse_fields(get_member(m, "fields")) {
        Some(f) => f,
        None => {
            return None;
        },
    };
    let renderer = match parse_renderer(get_member(m, "renderer")) {
        Some(r) => r,
        None => {
            return None;
        },
    };
    Some(TypeVersionSpec { version, fields, renderer })
}

/// The versions that the members of a `versions` object define.
fn parse_versions(m: &Vec<(String, Json)>) -> (r: Option<Vec<TypeVersionSpec>>)
    ensures
        match r {
            Some(found) => try_map(member_views(m@), version_fn()) == Some(versions_view(found@)),
            None => try_map(member_views(m@), version_fn()) is None,
        },
{
    let ghost all = member_views(m@);
    let mut found: Vec<TypeVersionSpec> = Vec::new();
    let mut i: usize = 0;
    assert(all.take(0) =~= Seq::empty());
    assert(versions_view(found@) =~= Seq::empty());
    while i < m.len()
        invariant
            i <= m.len(),
            all == member_views(m@),
            try_map(all.take(i as int), version_fn()) == Some(versions_view(found@)),
        decreases m.len() - i,
    {
        assert(all.take(i + 1).drop_last() =~= all.take(i as int));
        let ghost before = versions_view(found@);
        match parse_type_version(m[i].0.as_str(), &m[i].1) {
            Some(item) => {
                let ghost item_view = item@;
                found.push(item);
                assert(versions_view(found@) =~= before.push(item_view));
            },
            None => {
                proof {
                    lemma_try_map_none(all, version_fn(), i as int);
                }
                return None;
            },
        }
        i += 1;
    }
    assert(all.take(i as int) =~= all);
    Some(found)
}

/// The view of an optional type entry.
pub open spec fn opt_entry(e: Option<(String, Vec<TypeVersionSpec>)>) -> Option<
    (Seq<char>, Seq<TypeVersionSpecView>),
> {
    match e {
        Some(entry) => Some((entry.0@, versions_view(entry.1@))),
        None => None,
    }
}

fn parse_type_entry(key: &str, value: &Json) -> (r: Option<(String, Vec<TypeVersionSpec>)>)
    ensures
        opt_entry(r) == type_entry_of((key@, value@)),
{
    let m = match value {
        Json::Object(m) => m,
        _ => {
            return None;
        },
    };
    proof {
        lemma_json_view(value);
    }
    let versions = get_member(m, "versions");
    match versions {
        None => {
            let none: Vec<TypeVersionSpec> = Vec::new();
            assert(versions_view(none@) =~= Seq::empty());
            Some((key.to_string(), none))
        },
        Some(Json::Object(vs)) => {
            proof {
                lemma_json_view(versions.unwrap());
            }
            match parse_versions(vs) {
                Some(found) => Some((key.to_string(), found)),
                None => None,
            }
        },
        _ => None,
    }
}

/// The view of an optional pair of texts.
pub open spec fn opt_label(l: Option<(String, String)>) -> Option<(Seq<char>, Seq<char>)> {
    match l {
        Some(label) => Some((label.0@, label.1@)),
        None => None,
    }
}

fn parse_label(key: &str, value: &Json) -> (r: Option<(String, String)>)
    ensures
        opt_label(r) == label_of((key@, value@)),
{
    match value {
        Json::String(label) => Some((key.to_string(), label.clone())),
        _ => None,
    }
}

/// The labels that the members of an enumeration define.
fn parse_labels(m: &Vec<(String, Json)>) -> (r: Option<Vec<(String, String)>>)
    ensures
        match r {
            Some(found) => try_map(member_views(m@), label_fn()) == Some(labels_view(found@)),
            None => try_map(member_views(m@), label_fn()) is None,
        },
{
    let ghost all = member_views(m@);
    let mut found: Vec<(String, String)> = Vec::new();
    let mut i: usize = 0;
    assert(all.take(0) =~= Seq::empty());
    assert(labels_view(found@) =~= Seq::empty());
    while i < m.len()
        invariant
            i <= m.len(),
            all == member_views(m@),
            try_map(all.take(i as int), label_fn()) == Some(labels_view(found@)),
        decreases m.len() - i,
    {
        assert(all.take(i + 1).drop_last() =~= all.take(i as int));
        let ghost before = labels_view(found@);
        match parse_label(m[i].0.as_str(), &m[i].1) {
            Some(item) => {
                let ghost item_view = (item.0@, item.1@);
                found.push(item);
                assert(labels_view(found@) =~= before.push(item_view));
            },
            None => {
                proof {
                    lemma_try_map_none(all, label_fn(), i as int);
                }
                return None;
            },
        }
        i += 1;
    }
    assert(all.take(i as int) =~= all);
    Some(found)
}

/// The view of an optional enumeration.
pub open spec fn opt_enum(e: Option<(String, Vec<(String, String)>)>) -> Option<
    (Seq<char>, Seq<(Seq<char>, Seq<char>)>),
> {
    match e {
        Some(entry) => Some((entry.0@, labels_view(entry.1@))),
        None => None,
    }
}

fn parse_enum(key: &str, value: &Json) -> (r: Option<(String, Vec<(String, String)>)>)
    ensures
        opt_enum(r) == enum_of((key@, value@)),
{
    match value {
        Json::Object(m) => {
            proof {
                lemma_json_view(value);
            }
            match parse_labels(m) {
                Some(labels) => Some((key.to_string(), labels)),
                None => None,
            }
        },
        _ => None,
    }
}

/// The types that the members of a `types` object define.
fn parse_type_entries(m: &Vec<(String, Json)>) -> (r: Option<Vec<(String, Vec<TypeVersionSpec>)>>)
    ensures
        match r {
            Some(found) => try_map(member_views(m@), type_entry_fn()) == Some(entries_view(found@)),
            None => try_map(member_views(m@), type_entry_fn()) is None,
        },
{
    let ghost all = member_views(m@);
    let mut found: Vec<(String, Vec<TypeVersionSpec>)> = Vec::new();
    let mut i: usize = 0;
    assert(all.take(0) =~= Seq::empty());
    assert(entries_view(found@) =~= Seq::empty());
    while i < m.len()
        invariant
            i <= m.len(),
            all == member_views(m@),
            try_map(all.take(i as int), type_entry_fn()) == Some(entries_view(found@)),
        decreases m.len() - i,
    {
        assert(all.take(i + 1).drop_last() =~= all.take(i as int));
        let ghost before = entries_view(found@);
        match parse_type_entry(m[i].0.as_str(), &m[i].1) {
            Some(item) => {
                let ghost item_view = (item.0@, versions_view(item.1@));
                found.push(item);
                assert(entries_view(found@) =~= before.push(item_view));
            },
            None => {
                proof {
                    lemma_try_map_none(all, type_entry_fn(), i as int);
                }
                return None;
            },
        }
        i += 1;
    }
    assert(all.take(i as int) =~= all);
    Some(found)
}

/// The enumerations that the members of an `enums` object define.
fn parse_enum_entries(m: &Vec<(String, Json)>) -> (r: Option<Vec<(String, Vec<(String, String)>)>>)
    ensures
        match r {
            Some(found) => try_map(member_views(m@), enum_fn()) == Some(enums_view(found@)),
            None => try_map(member_views(m@), enum_fn()) is None,
        },
{
    let ghost all = member_views(m@);
    let mut found: Vec<(String, Vec<(String, String)>)> = Vec::new();
    let mut i: usize = 0;
    assert(all.take(0) =~= Seq::empty());
    assert(enums_view(found@) =~= Seq::empty());
    while i < m.len()
        invariant
            i <= m.len(),
            all == member_views(m@),
            try_map(all.take(i as int), enum_fn()) == Some(enums_view(found@)),
        decreases m.len() - i,
    {
        assert(all.take(i + 1).drop_last() =~= all.take(i as int));
        let ghost before = enums_view(found@);
        match parse_enum(m[i].0.as_str(), &m[i].1) {
            Some(item) => {
                let ghost item_view = (item.0@, labels_view(item.1@));
                found.push(item);
                assert(enums_view(found@) =~= before.push(item_view));
            },
            None => {
                proof {
                    lemma_try_map_none(all, enum_fn(), i as int);
                }
                return None;
            },
        }
        i += 1;
    }
    assert(all.take(i as int) =~= all);
    Some(found)
}

/// The view of an optional bundle.
pub open spec fn opt_bundle(b: Option<RegistryBundle>) -> Option<RegistryBundleView> {
    match b {
        Some(bundle) => Some(bundle@),
        None => None,
    }
}

/// Reads a bundle from its JSON document: see `bundle_of`.
pub fn parse_bundle(doc: &Json) -> (r: Option<RegistryBundle>)
    ensures
        opt_bundle(r) == bundle_of(doc@),
{
    let m = match doc {
        Json::Object(m) => m,
        _ => {
            return None;
        },
    };
    proof {
        lemma_json_view(doc);
    }
    let registry_version = match get_member(m, "registry_version") {
        Some(Json::Number(JsonNumber::PosInt(n))) => {
            if *n > u32::MAX as u64 {
                return None;
            }
            *n as u32
        },
        _ => {
            return None;
        },
    };
    let bundle_id = match get_text(m, "bundle_id") {
        Some(s) => s,
        None => {
            return None;
        },
    };
    let types_member = get_member(m, "types");
    let types = match types_member {
        None => {
            let none: Vec<(String, Vec<TypeVersionSpec>)> = Vec::new();
            assert(entries_view(none@) =~= Seq::empty());
            none
        },
        Some(Json::Object(tm)) => {
            proof {
                lemma_json_view(types_member.unwrap());
            }
            match parse_type_entries(tm) {
                Some(found) => found,
                None => {
                    return None;
                },
            }
        },
        _ => {
            return None;
        },
    };
    let enums_member = get_member(m, "enums");
    let enums = match enums_member {
        None => {
            let none: Vec<(String, Vec<(String, String)>)> = Vec::new();
            assert(enums_view(none@) =~= Seq::empty());
            none
        },
        Some(Json::Object(em)) => {
            proof {
                lemma_json_view(enums_member.unwrap());
            }
            match parse_enum_entries(em) {
                Some(found) => found,
                None => {
                    return None;
                },
            }
        },
        _ => {
            return None;
        },
    };
    Some(RegistryBundle { registry_version, bundle_id, types, enums })
}

} // verus!
