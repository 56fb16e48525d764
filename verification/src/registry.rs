//! The registry of type descriptors: bundles are ingested whole, their types
//! and enumerations merged into what the registry holds.

use crate::bundle::{
    bundle_of, enums_view, entries_view, labels_view, parse_bundle, RegistryBundle,
    RegistryBundleView,
};
use crate::error::{ErrorKind, StoreError};
use crate::json::{json_document, parse_json};
use crate::registry_types::{
    fields_match, fields_view, opt_renderer, same_fields, signature_of, signatures_view, tagged,
    tags_of, version_index, versions_view, clone_opt_renderer, FieldSignature,
    FieldSignatureView, FieldSpec, FieldSpecView, RendererSpec, RendererSpecView, TypeSpec,
    TypeSpecView, TypeVersionSpec, TypeVersionSpecView, is_latest,
};
use crate::text::{
    bytes_eq, clone_opt_string, find_number_key, find_text_key, last_index_of,
    concat3, lemma_try_fold_none, named, names_of, number_keys, opt_str_eq, opt_text, parse_u32,
    put_named, replace_char, replaced, spec_parse_u32, str_eq, text_keys, try_fold,
};
use crate::wire::slice_to_vec;
use vstd::prelude::*;

verus! {

/// The labels of an enumeration, by the text of their codes.
pub type LabelsView = Seq<(Seq<char>, Seq<char>)>;

/// Merges an enumeration into those held: a new one is added, one that is
/// held must have the same labels.
pub open spec fn merge_enum(
    acc: Seq<(Seq<char>, LabelsView)>,
    e: (Seq<char>, LabelsView),
) -> Option<Seq<(Seq<char>, LabelsView)>> {
    match named(acc, e.0) {
        Some(held) => if held == e.1 {
            Some(acc)
        } else {
            None
        },
        None => Some(acc.push(e)),
    }
}

/// `merge_enum`, as a function value.
pub open spec fn merge_enum_fn() -> spec_fn(
    Seq<(Seq<char>, LabelsView)>,
    (Seq<char>, LabelsView),
) -> Option<Seq<(Seq<char>, LabelsView)>> {
    |acc: Seq<(Seq<char>, LabelsView)>, e: (Seq<char>, LabelsView)| merge_enum(acc, e)
}

/// Merges the signature of a field into the tag schema of a type: a new tag
/// is added, a tag that is held must have the same signature.
pub open spec fn merge_signature(
    schema: Seq<(u64, FieldSignatureView)>,
    f: (u64, FieldSpecView),
) -> Option<Seq<(u64, FieldSignatureView)>> {
    match tagged(schema, f.0) {
        Some(held) => if held == signature_of(f.1) {
            Some(schema)
        } else {
            None
        },
        None => Some(schema.push((f.0, signature_of(f.1)))),
    }
}

/// `merge_signature`, as a function value.
pub open spec fn merge_signature_fn() -> spec_fn(
    Seq<(u64, FieldSignatureView)>,
    (u64, FieldSpecView),
) -> Option<Seq<(u64, FieldSignatureView)>> {
    |schema: Seq<(u64, FieldSignatureView)>, f: (u64, FieldSpecView)| merge_signature(schema, f)
}

/// Merges a version into a type. A version that the type holds must have the
/// same fields, and gets the renderer where it had none. A new version is
/// added, and the signatures of its fields are merged into the tag schema.
pub open spec fn merge_version(t: TypeSpecView, v: TypeVersionSpecView) -> Option<TypeSpecView> {
    match version_index(t.versions, v.version) {
        Some(i) => if same_fields(t.versions[i].fields, v.fields) {
            if v.renderer is Some && t.versions[i].renderer is None {
                Some(
                    TypeSpecView {
                        versions: t.versions.update(
                            i,
                            TypeVersionSpecView { renderer: v.renderer, ..t.versions[i] },
                        ),
                        ..t
                    },
                )
            } else {
                Some(t)
            }
        } else {
            None
        },
        None => match try_fold(v.fields, t.tag_schema, merge_signature_fn()) {
            Some(schema) => Some(
                TypeSpecView { versions: t.versions.push(v), tag_schema: schema },
            ),
            None => None,
        },
    }
}

/// `merge_version`, as a function value.
pub open spec fn merge_version_fn() -> spec_fn(TypeSpecView, TypeVersionSpecView) -> Option<
    TypeSpecView,
> {
    |t: TypeSpecView, v: TypeVersionSpecView| merge_version(t, v)
}

/// A type without versions.
pub open spec fn empty_type() -> TypeSpecView {
    TypeSpecView { versions: Seq::empty(), tag_schema: Seq::empty() }
}

/// Merges the versions of a type into the types held: the type is added
/// where it is new, and the versions are merged into it one after the other.
pub open spec fn merge_type(
    types: Seq<(Seq<char>, TypeSpecView)>,
    entry: (Seq<char>, Seq<TypeVersionSpecView>),
) -> Option<Seq<(Seq<char>, TypeSpecView)>> {
    match last_index_of(names_of(types), entry.0) {
        Some(i) => match try_fold(entry.1, types[i].1, merge_version_fn()) {
            Some(t) => Some(types.update(i, (types[i].0, t))),
            None => None,
        },
        None => match try_fold(entry.1, empty_type(), merge_version_fn()) {
            Some(t) => Some(types.push((entry.0, t))),
            None => None,
        },
    }
}

/// `merge_type`, as a function value.
pub open spec fn merge_type_fn() -> spec_fn(
    Seq<(Seq<char>, TypeSpecView)>,
    (Seq<char>, Seq<TypeVersionSpecView>),
) -> Option<Seq<(Seq<char>, TypeSpecView)>> {
    |types: Seq<(Seq<char>, TypeSpecView)>, entry: (Seq<char>, Seq<TypeVersionSpecView>)|
        merge_type(types, entry)
}

/// Whether every enum that a field of the list refers to is held.
pub open spec fn fields_enums_known(
    fields: Seq<(u64, FieldSpecView)>,
    enums: Seq<(Seq<char>, LabelsView)>,
) -> bool {
    forall|i: int|
        0 <= i < fields.len() ==> match (#[trigger] fields[i]).1.enum_ref {
            Some(e) => named(enums, e) is Some,
            None => true,
        }
}

/// Whether every enum that a field of the type refers to is held.
pub open spec fn type_enums_known(t: TypeSpecView, enums: Seq<(Seq<char>, LabelsView)>) -> bool {
    forall|i: int|
        0 <= i < t.versions.len() ==> fields_enums_known(
            (#[trigger] t.versions[i]).fields,
            enums,
        )
}

/// Whether every enum that a field of any type refers to is held.
pub open spec fn enums_known(
    types: Seq<(Seq<char>, TypeSpecView)>,
    enums: Seq<(Seq<char>, LabelsView)>,
) -> bool {
    forall|i: int| 0 <= i < types.len() ==> type_enums_known((#[trigger] types[i]).1, enums)
}

/// The types and enumerations after a bundle was ingested: its enumerations
/// merged, then its types, and every enum that is referred to held. `None`
/// where the registry version is 0, a merge conflicts or an enum is missing.
pub open spec fn ingested(
    types: Seq<(Seq<char>, TypeSpecView)>,
    enums: Seq<(Seq<char>, LabelsView)>,
    bundle: RegistryBundleView,
) -> Option<(Seq<(Seq<char>, TypeSpecView)>, Seq<(Seq<char>, LabelsView)>)> {
    if bundle.registry_version == 0 {
        None
    } else {
        match (
            try_fold(bundle.enums, enums, merge_enum_fn()),
            try_fold(bundle.types, types, merge_type_fn()),
        ) {
            (Some(new_enums), Some(new_types)) => if enums_known(new_types, new_enums) {
                Some((new_types, new_enums))
            } else {
                None
            },
            _ => None,
        }
    }
}

/// The types of a list.
pub open spec fn types_view(types: Seq<(String, TypeSpec)>) -> Seq<(Seq<char>, TypeSpecView)> {
    Seq::new(types.len(), |i: int| (types[i].0@, types[i].1@))
}

/// A copy of a list of labels.
pub fn clone_labels(labels: &Vec<(String, String)>) -> (copy: Vec<(String, String)>)
    ensures
        labels_view(copy@) == labels_view(labels@),
{
    let mut copy: Vec<(String, String)> = Vec::with_capacity(labels.len());
    let mut i: usize = 0;
    while i < labels.len()
        invariant
            i <= labels.len(),
            copy@.len() == i,
            forall|j: int|
                0 <= j < i ==> copy@[j].0@ == labels@[j].0@ && copy@[j].1@ == labels@[j].1@,
        decreases labels.len() - i,
    {
        copy.push((labels[i].0.clone(), labels[i].1.clone()));
        i += 1;
    }
    assert(labels_view(copy@) =~= labels_view(labels@));
    copy
}

/// Whether two lists of labels are the same.
pub fn labels_eq(a: &Vec<(String, String)>, b: &Vec<(String, String)>) -> (same: bool)
    ensures
        same == (labels_view(a@) == labels_view(b@)),
{
    if a.len() != b.len() {
        assert(labels_view(a@).len() != labels_view(b@).len());
        return false;
    }
    let mut i: usize = 0;
    while i < a.len()
        invariant
            i <= a.len(),
            a.len() == b.len(),
            forall|j: int| 0 <= j < i ==> a@[j].0@ == b@[j].0@ && a@[j].1@ == b@[j].1@,
        decreases a.len() - i,
    {
        if !str_eq(a[i].0.as_str(), b[i].0.as_str()) || !str_eq(a[i].1.as_str(), b[i].1.as_str()) {
            assert(labels_view(a@)[i as int] != labels_view(b@)[i as int]);
            return false;
        }
        i += 1;
    }
    assert(labels_view(a@) =~= labels_view(b@));
    true
}

/// A copy of a list of enumerations.
pub fn clone_enums(enums: &Vec<(String, Vec<(String, String)>)>) -> (copy: Vec<
    (String, Vec<(String, String)>),
>)
    ensures
        enums_view(copy@) == enums_view(enums@),
{
    let mut copy: Vec<(String, Vec<(String, String)>)> = Vec::with_capacity(enums.len());
    let mut i: usize = 0;
    while i < enums.len()
        invariant
            i <= enums.len(),
            copy@.len() == i,
            forall|j: int|
                0 <= j < i ==> copy@[j].0@ == enums@[j].0@ && labels_view(copy@[j].1@)
                    == labels_view(enums@[j].1@),
        decreases enums.len() - i,
    {
        copy.push((enums[i].0.clone(), clone_labels(&enums[i].1)));
        i += 1;
    }
    assert(enums_view(copy@) =~= enums_view(enums@));
    copy
}

/// A copy of a list of types.
pub fn clone_types(types: &Vec<(String, TypeSpec)>) -> (copy: Vec<(String, TypeSpec)>)
    ensures
        types_view(copy@) == types_view(types@),
{
    let mut copy: Vec<(String, TypeSpec)> = Vec::with_capacity(types.len());
    let mut i: usize = 0;
    while i < types.len()
        invariant
            i <= types.len(),
            copy@.len() == i,
            forall|j: int| 0 <= j < i ==> copy@[j].0@ == types@[j].0@ && copy@[j].1@ == types@[j].1@,
        decreases types.len() - i,
    {
        copy.push((types[i].0.clone(), types[i].1.clone()));
        i += 1;
    }
    assert(types_view(copy@) =~= types_view(types@));
    copy
}

/// Merges enumerations into those held, one after the other. Gives `false`,
/// and leaves the list as far as it came, where one conflicts.
pub fn merge_enums(
    enums: &mut Vec<(String, Vec<(String, String)>)>,
    incoming: &Vec<(String, Vec<(String, String)>)>,
) -> (ok: bool)
    ensures
        match try_fold(enums_view(incoming@), enums_view(old(enums)@), merge_enum_fn()) {
            Some(merged) => ok && enums_view(final(enums)@) == merged,
            None => !ok,
        },
{
    let ghost all = enums_view(incoming@);
    let ghost init = enums_view(enums@);
    let mut i: usize = 0;
    assert(all.take(0) =~= Seq::empty());
    while i < incoming.len()
        invariant
            i <= incoming.len(),
            all == enums_view(incoming@),
            init == enums_view(old(enums)@),
            try_fold(all.take(i as int), init, merge_enum_fn()) == Some(enums_view(enums@)),
        decreases incoming.len() - i,
    {
        assert(all.take(i + 1).drop_last() =~= all.take(i as int));
        let ghost before = enums_view(enums@);
        assert(names_of(before) =~= text_keys(enums@));
        match find_text_key(enums, incoming[i].0.as_str()) {
            Some(at) => {
                if !labels_eq(&enums[at].1, &incoming[i].1) {
                    proof {
                        lemma_try_fold_none(all, init, merge_enum_fn(), i + 1);
                    }
                    return false;
                }
            },
            None => {
                enums.push((incoming[i].0.clone(), clone_labels(&incoming[i].1)));
                assert(enums_view(enums@) =~= before.push(all[i as int]));
            },
        }
        i += 1;
    }
    assert(all.take(i as int) =~= all);
    true
}

/// Merges the signatures of fields into a tag schema, one after the other.
/// Gives `false` where one conflicts.
pub fn merge_signatures(
    schema: &mut Vec<(u64, FieldSignature)>,
    fields: &Vec<(u64, FieldSpec)>,
) -> (ok: bool)
    ensures
        match try_fold(
            fields_view(fields@),
            signatures_view(old(schema)@),
            merge_signature_fn(),
        ) {
            Some(merged) => ok && signatures_view(final(schema)@) == merged,
            None => !ok,
        },
{
    let ghost all = fields_view(fields@);
    let ghost init = signatures_view(schema@);
    let mut i: usize = 0;
    assert(all.take(0) =~= Seq::empty());
    while i < fields.len()
        invariant
            i <= fields.len(),
            all == fields_view(fields@),
            init == signatures_view(old(schema)@),
            try_fold(all.take(i as int), init, merge_signature_fn()) == Some(
                signatures_view(schema@),
            ),
        decreases fields.len() - i,
    {
        assert(all.take(i + 1).drop_last() =~= all.take(i as int));
        let ghost before = signatures_view(schema@);
        assert(tags_of(before) =~= number_keys(schema@));
        let field = &fields[i].1;
        match find_number_key(schema, fields[i].0) {
            Some(at) => {
                let held = &schema[at].1;
                if !(str_eq(held.field_type.as_str(), field.field_type.as_str()) && opt_str_eq(
                    &held.enum_ref,
                    &field.enum_ref,
                )) {
                    proof {
                        lemma_try_fold_none(all, init, merge_signature_fn(), i + 1);
                    }
                    return false;
                }
            },
            None => {
                schema.push(
                    (
                        fields[i].0,
                        FieldSignature {
                            field_type: field.field_type.clone(),
                            enum_ref: clone_opt_string(&field.enum_ref),
                        },
                    ),
                );
                assert(signatures_view(schema@) =~= before.push(
                    (all[i as int].0, signature_of(all[i as int].1)),
                ));
            },
        }
        i += 1;
    }
    assert(all.take(i as int) =~= all);
    true
}

/// Merges one version into a type: see `merge_version`. Gives `false` where
/// it conflicts.
pub fn merge_one_version(t: &mut TypeSpec, v: &TypeVersionSpec) -> (ok: bool)
    ensures
        match merge_version(old(t)@, v@) {
            Some(merged) => ok && final(t)@ == merged,
            None => !ok,
        },
{
    match t.find_version(v.version) {
        Some(at) => {
            if !fields_match(&t.versions[at].fields, &v.fields) {
                return false;
            }
            if v.renderer.is_some() && t.versions[at].renderer.is_none() {
                let ghost before = versions_view(t.versions@);
                let renderer = clone_opt_renderer(&v.renderer);
                let held = &t.versions[at];
                let updated = TypeVersionSpec {
                    version: held.version,
                    fields: crate::registry_types::clone_fields(&held.fields),
                    renderer,
                };
                let ghost updated_view = updated@;
                t.versions[at] = updated;
                assert(versions_view(t.versions@) =~= before.update(at as int, updated_view));
            }
            true
        },
        None => {
            if !merge_signatures(&mut t.tag_schema, &v.fields) {
                return false;
            }
            let ghost before = versions_view(t.versions@);
            t.versions.push(v.clone());
            assert(versions_view(t.versions@) =~= before.push(v@));
            true
        },
    }
}

/// Merges versions into a type, one after the other. Gives `false` where one
/// conflicts.
pub fn merge_versions(t: &mut TypeSpec, versions: &Vec<TypeVersionSpec>) -> (ok: bool)
    ensures
        match try_fold(versions_view(versions@), old(t)@, merge_version_fn()) {
            Some(merged) => ok && final(t)@ == merged,
            None => !ok,
        },
{
    let ghost all = versions_view(versions@);
    let ghost init = t@;
    let mut i: usize = 0;
    assert(all.take(0) =~= Seq::empty());
    while i < versions.len()
        invariant
            i <= versions.len(),
            all == versions_view(versions@),
            init == old(t)@,
            try_fold(all.take(i as int), init, merge_version_fn()) == Some(t@),
        decreases versions.len() - i,
    {
        assert(all.take(i + 1).drop_last() =~= all.take(i as int));
        if !merge_one_version(t, &versions[i]) {
            proof {
                lemma_try_fold_none(all, init, merge_version_fn(), i + 1);
            }
            return false;
        }
        i += 1;
    }
    assert(all.take(i as int) =~= all);
    true
}

/// Merges the versions of one type into the types held: see `merge_type`.
/// Gives `false` where a version conflicts.
pub fn merge_one_type(
    types: &mut Vec<(String, TypeSpec)>,
    type_id: &String,
    versions: &Vec<TypeVersionSpec>,
) -> (ok: bool)
    ensures
        match merge_type(types_view(old(types)@), (type_id@, versions_view(versions@))) {
            Some(merged) => ok && types_view(final(types)@) == merged,
            None => !ok,
        },
{
    let ghost before = types_view(types@);
    assert(names_of(before) =~= text_keys(types@));
    match find_text_key(types, type_id.as_str()) {
        Some(at) => {
            let mut t = types[at].1.clone();
            if !merge_versions(&mut t, versions) {
                return false;
            }
            let ghost merged = t@;
            let name = types[at].0.clone();
            types[at] = (name, t);
            assert(types_view(types@) =~= before.update(at as int, (before[at as int].0, merged)));
            true
        },
        None => {
            let mut t = TypeSpec { versions: Vec::new(), tag_schema: Vec::new() };
            assert(t@.versions =~= Seq::empty());
            assert(t@.tag_schema =~= Seq::empty());
            if !merge_versions(&mut t, versions) {
                return false;
            }
            let ghost merged = t@;
            types.push((type_id.clone(), t));
            assert(types_view(types@) =~= before.push((type_id@, merged)));
            true
        },
    }
}

/// Merges types into those held, one after the other. Gives `false`, and
/// leaves the list as far as it came, where a version conflicts.
pub fn merge_types(
    types: &mut Vec<(String, TypeSpec)>,
    incoming: &Vec<(String, Vec<TypeVersionSpec>)>,
) -> (ok: bool)
    ensures
        match try_fold(entries_view(incoming@), types_view(old(types)@), merge_type_fn()) {
            Some(merged) => ok && types_view(final(types)@) == merged,
            None => !ok,
        },
{
    let ghost all = entries_view(incoming@);
    let ghost init = types_view(types@);
    let mut i: usize = 0;
    assert(all.take(0) =~= Seq::empty());
    while i < incoming.len()
        invariant
            i <= incoming.len(),
            all == entries_view(incoming@),
            init == types_view(old(types)@),
            try_fold(all.take(i as int), init, merge_type_fn()) == Some(types_view(types@)),
        decreases incoming.len() - i,
    {
        assert(all.take(i + 1).drop_last() =~= all.take(i as int));
        if !merge_one_type(types, &incoming[i].0, &incoming[i].1) {
            proof {
                lemma_try_fold_none(all, init, merge_type_fn(), i + 1);
            }
            return false;
        }
        i += 1;
    }
    assert(all.take(i as int) =~= all);
    true
}

/// Whether every enum that a field of the list refers to is held.
pub fn check_fields_enums(
    fields: &Vec<(u64, FieldSpec)>,
    enums: &Vec<(String, Vec<(String, String)>)>,
) -> (ok: bool)
    ensures
        ok == fields_enums_known(fields_view(fields@), enums_view(enums@)),
{
    let ghost fv = fields_view(fields@);
    let ghost ev = enums_view(enums@);
    assert(names_of(ev) =~= text_keys(enums@));
    let mut i: usize = 0;
    while i < fields.len()
        invariant
            i <= fields.len(),
            fv == fields_view(fields@),
            ev == enums_view(enums@),
            names_of(ev) == text_keys(enums@),
            forall|j: int|
                0 <= j < i ==> match (#[trigger] fv[j]).1.enum_ref {
                    Some(e) => named(ev, e) is Some,
                    None => true,
                },
        decreases fields.len() - i,
    {
        if let Some(e) = &fields[i].1.enum_ref {
            if find_text_key(enums, e.as_str()).is_none() {
                assert(fv[i as int].1.enum_ref == Some(e@));
                return false;
            }
        }
        i += 1;
    }
    true
}

/// Whether every enum that a field of the type refers to is held.
pub fn check_type_enums(t: &TypeSpec, enums: &Vec<(String, Vec<(String, String)>)>) -> (ok: bool)
    ensures
        ok == type_enums_known(t@, enums_view(enums@)),
{
    let mut i: usize = 0;
    while i < t.versions.len()
        invariant
            i <= t.versions.len(),
            forall|j: int|
                0 <= j < i ==> fields_enums_known(
                    (#[trigger] t@.versions[j]).fields,
                    enums_view(enums@),
                ),
        decreases t.versions.len() - i,
    {
        if !check_fields_enums(&t.versions[i].fields, enums) {
            assert(!fields_enums_known(t@.versions[i as int].fields, enums_view(enums@)));
            return false;
        }
        i += 1;
    }
    true
}

/// Whether every enum that a field of any type refers to is held.
pub fn check_enums_known(
    types: &Vec<(String, TypeSpec)>,
    enums: &Vec<(String, Vec<(String, String)>)>,
) -> (ok: bool)
    ensures
        ok == enums_known(types_view(types@), enums_view(enums@)),
{
    let ghost tv = types_view(types@);
    let mut i: usize = 0;
    while i < types.len()
        invariant
            i <= types.len(),
            tv == types_view(types@),
            forall|j: int| 0 <= j < i ==> type_enums_known((#[trigger] tv[j]).1, enums_view(enums@)),
        decreases types.len() - i,
    {
        if !check_type_enums(&types[i].1, enums) {
            assert(!type_enums_known(tv[i as int].1, enums_view(enums@)));
            return false;
        }
        i += 1;
    }
    true
}

/// The registry: the bundles it has accepted, and the types and
/// enumerations they have merged to, each list in the order in which its
/// ids first came, which is the order in which they are listed.
#[derive(Debug)]
pub struct Registry {
    bundles: Vec<(String, Vec<u8>)>,
    types: Vec<(String, TypeSpec)>,
    enums: Vec<(String, Vec<(String, String)>)>,
    last_bundle_id: Option<String>,
}

/// What a registry holds.
pub ghost struct RegistryView {
    /// The bytes of each accepted bundle, by its id.
    pub bundles: Seq<(Seq<char>, Seq<u8>)>,
    /// The types by their id.
    pub types: Seq<(Seq<char>, TypeSpecView)>,
    /// The enumerations by their id.
    pub enums: Seq<(Seq<char>, LabelsView)>,
    /// The id of the bundle that was accepted last.
    pub last_bundle_id: Option<Seq<char>>,
}

/// The bundles of a list.
pub open spec fn bundles_view(bundles: Seq<(String, Vec<u8>)>) -> Seq<(Seq<char>, Seq<u8>)> {
    Seq::new(bundles.len(), |i: int| (bundles[i].0@, bundles[i].1@))
}

impl View for Registry {
    type V = RegistryView;

    closed spec fn view(&self) -> RegistryView {
        RegistryView {
            bundles: bundles_view(self.bundles@),
            types: types_view(self.types@),
            enums: enums_view(self.enums@),
            last_bundle_id: opt_text(self.last_bundle_id),
        }
    }
}

/// What came of putting a bundle.
#[derive(Debug, Clone, Copy, PartialEq, Eq, Structural)]
pub enum PutOutcome {
    /// The bundle was new and is now held.
    Created,
    /// The same bytes were held under this id already.
    AlreadyExists,
}

/// Counts of what a registry holds.
#[derive(Debug, Clone, Copy)]
pub struct RegistryStats {
    pub bundles_total: usize,
    pub types_total: usize,
    pub enums_total: usize,
}

/// The bundle that the bytes put under an id deliver: they hold a JSON
/// document of the shape of a bundle, and its id is the id they are put
/// under.
pub open spec fn delivered(bundle_id: Seq<char>, raw: Seq<u8>) -> Option<RegistryBundleView> {
    match json_document(raw) {
        Some(doc) => match bundle_of(doc) {
            Some(b) => if b.bundle_id == bundle_id {
                Some(b)
            } else {
                None
            },
            None => None,
        },
        None => None,
    }
}

/// What putting a bundle gives, and the registry after it. Bytes that are
/// held under the id already exist; other bytes under a held id are
/// refused. New bytes must deliver a bundle, and the bundle must ingest;
/// then it is held, and is the last bundle. A refusal changes nothing.
pub open spec fn spec_put_bundle(v: RegistryView, bundle_id: Seq<char>, raw: Seq<u8>) -> (
    Option<PutOutcome>,
    RegistryView,
) {
    match named(v.bundles, bundle_id) {
        Some(held) => if held == raw {
            (Some(PutOutcome::AlreadyExists), v)
        } else {
            (None, v)
        },
        None => match delivered(bundle_id, raw) {
            Some(b) => match ingested(v.types, v.enums, b) {
                Some((types, enums)) => (
                    Some(PutOutcome::Created),
                    RegistryView {
                        bundles: v.bundles.push((bundle_id, raw)),
                        types,
                        enums,
                        last_bundle_id: Some(bundle_id),
                    },
                ),
                None => (None, v),
            },
            None => (None, v),
        },
    }
}

/// What loading the bytes of a kept bundle gives: the registry with the
/// bundle ingested and held under its own id, `Corrupt` where the bytes
/// deliver no bundle, and `InvalidInput` where the bundle does not ingest.
pub open spec fn loaded(v: RegistryView, raw: Seq<u8>) -> Result<RegistryView, ErrorKind> {
    match json_document(raw) {
        Some(doc) => match bundle_of(doc) {
            Some(b) => match ingested(v.types, v.enums, b) {
                Some((types, enums)) => Ok(
                    RegistryView {
                        bundles: put_named(v.bundles, b.bundle_id, raw),
                        types,
                        enums,
                        last_bundle_id: Some(b.bundle_id),
                    },
                ),
                None => Err(ErrorKind::InvalidInput),
            },
            None => Err(ErrorKind::Corrupt),
        },
        None => Err(ErrorKind::Corrupt),
    }
}

/// What loading the kept bundles, one after the other, gives.
pub open spec fn loaded_all(files: Seq<Seq<u8>>) -> Result<RegistryView, ErrorKind>
    decreases files.len(),
{
    if files.len() == 0 {
        Ok(
            RegistryView {
                bundles: Seq::empty(),
                types: Seq::empty(),
                enums: Seq::empty(),
                last_bundle_id: None,
            },
        )
    } else {
        match loaded_all(files.drop_last()) {
            Ok(v) => loaded(v, files.last()),
            Err(kind) => Err(kind),
        }
    }
}

/// Where loading fails on a prefix of the files, it fails the same way on
/// all of them.
pub proof fn lemma_loaded_all_fails(files: Seq<Seq<u8>>, i: int)
    requires
        0 <= i <= files.len(),
        loaded_all(files.take(i)) is Err,
    ensures
        loaded_all(files) == loaded_all(files.take(i)),
    decreases files.len() - i,
{
    if i < files.len() {
        assert(files.take(i + 1).drop_last() =~= files.take(i));
        lemma_loaded_all_fails(files, i + 1);
    } else {
        assert(files.take(i) =~= files);
    }
}

/// A bundle that was created is held: the same bytes then exist already, and
/// other bytes under its id are refused; neither changes the registry.
pub proof fn lemma_put_bundle_twice(v: RegistryView, bundle_id: Seq<char>, raw: Seq<u8>, other: Seq<u8>)
    requires
        spec_put_bundle(v, bundle_id, raw).0 is Some,
        other != raw,
    ensures
        ({
            let w = spec_put_bundle(v, bundle_id, raw).1;
            &&& spec_put_bundle(w, bundle_id, raw) == (Some(PutOutcome::AlreadyExists), w)
            &&& spec_put_bundle(w, bundle_id, other) == (None::<PutOutcome>, w)
        }),
{
    let w = spec_put_bundle(v, bundle_id, raw).1;
    if named(v.bundles, bundle_id) is None {
        assert(names_of(w.bundles).drop_last() =~= names_of(v.bundles));
        assert(names_of(w.bundles).last() == bundle_id);
    }
}

/// The views of the files of a list.
pub open spec fn files_view(files: Seq<Vec<u8>>) -> Seq<Seq<u8>> {
    Seq::new(files.len(), |i: int| files[i]@)
}

/// Whether at most one place of a list of versions is the latest.
pub proof fn lemma_latest_unique(versions: Seq<TypeVersionSpecView>, i: int, j: int)
    requires
        is_latest(versions, i),
        is_latest(versions, j),
    ensures
        i == j,
{
}

/// The latest version of a list: the one with the highest number.
pub open spec fn latest_version(versions: Seq<TypeVersionSpecView>) -> Option<TypeVersionSpecView> {
    if versions.len() == 0 {
        None
    } else {
        Some(versions[choose|i: int| is_latest(versions, i)])
    }
}

/// The renderers of the latest versions of the types, by type id, in the
/// order of the types.
pub open spec fn renderers_of(types: Seq<(Seq<char>, TypeSpecView)>) -> Seq<
    (Seq<char>, RendererSpecView),
>
    decreases types.len(),
{
    if types.len() == 0 {
        Seq::empty()
    } else {
        let front = renderers_of(types.drop_last());
        match latest_version(types.last().1.versions) {
            Some(v) => match v.renderer {
                Some(r) => front.push((types.last().0, r)),
                None => front,
            },
            None => front,
        }
    }
}

/// The renderers of a list, by type id.
pub open spec fn renderers_view(list: Seq<(String, RendererSpec)>) -> Seq<
    (Seq<char>, RendererSpecView),
> {
    Seq::new(list.len(), |i: int| (list[i].0@, list[i].1@))
}

/// The file name that a bundle is kept under: `/`, `:` and `#` become `_`,
/// between `bundle_` and `.json`.
pub open spec fn spec_bundle_filename(bundle_id: Seq<char>) -> Seq<char> {
    "bundle_"@ + replaced(replaced(replaced(bundle_id, '/', "_"@), ':', "_"@), '#', "_"@)
        + ".json"@
}

/// The file name that a bundle is kept under.
pub fn bundle_filename(bundle_id: &str) -> (name: String)
    ensures
        name@ == spec_bundle_filename(bundle_id@),
{
    let safe = replace_char(bundle_id, '/', "_");
    let safe = replace_char(safe.as_str(), ':', "_");
    let safe = replace_char(safe.as_str(), '#', "_");
    concat3("bundle_", safe.as_str(), ".json")
}

/// The version number that a text spells; fails with `InvalidInput` where it
/// spells none.
pub fn parse_version(version: &str) -> (r: Result<u32, StoreError>)
    ensures
        match r {
            Ok(n) => spec_parse_u32(version@) == Some(n),
            Err(e) => spec_parse_u32(version@) is None && e.kind() == ErrorKind::InvalidInput,
        },
{
    match parse_u32(version) {
        Some(n) => Ok(n),
        None => Err(StoreError::InvalidInput("invalid type version".to_string())),
    }
}

impl Registry {
    /// A registry that holds nothing.
    pub fn new() -> (registry: Registry)
        ensures
            registry@.bundles.len() == 0,
            registry@.types.len() == 0,
            registry@.enums.len() == 0,
            registry@.last_bundle_id is None,
    {
        Registry { bundles: Vec::new(), types: Vec::new(), enums: Vec::new(), last_bundle_id: None }
    }

    /// Opens a registry over the bytes of the kept bundles, in their order:
    /// each is ingested and held under its own id; the last is the last
    /// bundle.
    ///
    /// Fails with `Corrupt` where a file delivers no bundle, and with
    /// `InvalidInput` where a bundle does not ingest.
    pub fn open(files: &Vec<Vec<u8>>) -> (r: Result<Registry, StoreError>)
        ensures
            match r {
                Ok(registry) => loaded_all(files_view(files@)) == Ok::<RegistryView, ErrorKind>(
                    registry@,
                ),
                Err(e) => loaded_all(files_view(files@)) == Err::<RegistryView, ErrorKind>(
                    e.kind(),
                ),
            },
    {
        let ghost all = files_view(files@);
        let mut registry = Registry::new();
        let mut i: usize = 0;
        assert(all.take(0) =~= Seq::empty());
        assert(registry@.bundles =~= Seq::empty());
        assert(registry@.types =~= Seq::empty());
        assert(registry@.enums =~= Seq::empty());
        while i < files.len()
            invariant
                i <= files.len(),
                all == files_view(files@),
                loaded_all(all.take(i as int)) == Ok::<RegistryView, ErrorKind>(registry@),
            decreases files.len() - i,
        {
            assert(all.take(i + 1).drop_last() =~= all.take(i as int));
            match registry.load(files[i].as_slice()) {
                Ok(()) => {},
                Err(e) => {
                    proof {
                        lemma_loaded_all_fails(all, i + 1);
                    }
                    return Err(e);
                },
            }
            i += 1;
        }
        assert(all.take(i as int) =~= all);
        Ok(registry)
    }

    /// Loads the bytes of one kept bundle: see `loaded`.
    fn load(&mut self, raw: &[u8]) -> (r: Result<(), StoreError>)
        ensures
            match r {
                Ok(()) => loaded(old(self)@, raw@) == Ok::<RegistryView, ErrorKind>(final(self)@),
                Err(e) => loaded(old(self)@, raw@) == Err::<RegistryView, ErrorKind>(e.kind()),
            },
    {
        let doc = match parse_json(raw) {
            Ok(doc) => doc,
            Err(msg) => {
                return Err(StoreError::Corrupt(msg));
            },
        };
        let bundle = match parse_bundle(&doc) {
            Some(b) => b,
            None => {
                return Err(StoreError::Corrupt("invalid bundle json".to_string()));
            },
        };
        match self.ingest_bundle(&bundle) {
            Ok(()) => {},
            Err(e) => {
                return Err(e);
            },
        }
        let ghost before = bundles_view(self.bundles@);
        assert(names_of(before) =~= text_keys(self.bundles@));
        match find_text_key(&self.bundles, bundle.bundle_id.as_str()) {
            Some(at) => {
                self.bundles[at] = (bundle.bundle_id.clone(), slice_to_vec(raw));
                assert(bundles_view(self.bundles@) =~= before.update(
                    at as int,
                    (bundle.bundle_id@, raw@),
                ));
            },
            None => {
                self.bundles.push((bundle.bundle_id.clone(), slice_to_vec(raw)));
                assert(bundles_view(self.bundles@) =~= before.push((bundle.bundle_id@, raw@)));
            },
        }
        self.last_bundle_id = Some(bundle.bundle_id);
        Ok(())
    }

    /// The id of the bundle that was accepted last.
    pub fn last_bundle_id(&self) -> (id: Option<String>)
        ensures
            opt_text(id) == self@.last_bundle_id,
    {
        clone_opt_string(&self.last_bundle_id)
    }

    /// The bytes of the bundle that is held under an id.
    pub fn get_bundle(&self, bundle_id: &str) -> (bytes: Option<&[u8]>)
        ensures
            match bytes {
                Some(b) => named(self@.bundles, bundle_id@) == Some(b@),
                None => named(self@.bundles, bundle_id@) is None,
            },
    {
        assert(names_of(self@.bundles) =~= text_keys(self.bundles@));
        match find_text_key(&self.bundles, bundle_id) {
            Some(i) => Some(self.bundles[i].1.as_slice()),
            None => None,
        }
    }

    /// The type that is held under an id.
    fn find_type(&self, type_id: &str) -> (t: Option<&TypeSpec>)
        ensures
            match t {
                Some(spec) => named(self@.types, type_id@) == Some(spec@),
                None => named(self@.types, type_id@) is None,
            },
    {
        assert(names_of(self@.types) =~= text_keys(self.types@));
        match find_text_key(&self.types, type_id) {
            Some(i) => Some(&self.types[i].1),
            None => None,
        }
    }

    /// The version of a type with this number, if the registry holds it.
    pub fn get_type_version(&self, type_id: &str, version: u32) -> (v: Option<&TypeVersionSpec>)
        ensures
            match named(self@.types, type_id@) {
                Some(t) => match version_index(t.versions, version) {
                    Some(i) => v is Some && v.unwrap()@ == t.versions[i],
                    None => v is None,
                },
                None => v is None,
            },
    {
        match self.find_type(type_id) {
            Some(t) => match t.find_version(version) {
                Some(i) => Some(&t.versions[i]),
                None => None,
            },
            None => None,
        }
    }

    /// The version of a type with the highest number, if the registry holds
    /// the type and a version of it.
    pub fn get_latest_type_version(&self, type_id: &str) -> (v: Option<&TypeVersionSpec>)
        ensures
            match named(self@.types, type_id@) {
                Some(t) => match latest_version(t.versions) {
                    Some(latest) => v is Some && v.unwrap()@ == latest,
                    None => v is None,
                },
                None => v is None,
            },
    {
        match self.find_type(type_id) {
            Some(t) => match t.find_latest() {
                Some(i) => {
                    proof {
                        let c = choose|c: int| is_latest(t@.versions, c);
                        lemma_latest_unique(t@.versions, i as int, c);
                    }
                    Some(&t.versions[i])
                },
                None => None,
            },
            None => None,
        }
    }

    /// The labels of the enumeration that is held under an id.
    pub fn get_enum(&self, enum_id: &str) -> (labels: Option<&Vec<(String, String)>>)
        ensures
            match labels {
                Some(l) => named(self@.enums, enum_id@) == Some(labels_view(l@)),
                None => named(self@.enums, enum_id@) is None,
            },
    {
        assert(names_of(self@.enums) =~= text_keys(self.enums@));
        match find_text_key(&self.enums, enum_id) {
            Some(i) => Some(&self.enums[i].1),
            None => None,
        }
    }

    /// The numbers of bundles, types and enumerations.
    pub fn stats(&self) -> (stats: RegistryStats)
        ensures
            stats.bundles_total == self@.bundles.len(),
            stats.types_total == self@.types.len(),
            stats.enums_total == self@.enums.len(),
    {
        RegistryStats {
            bundles_total: self.bundles.len(),
            types_total: self.types.len(),
            enums_total: self.enums.len(),
        }
    }

    /// The renderer of the latest version of every type that has one, by
    /// type id.
    pub fn get_all_renderers(&self) -> (found: Vec<(String, RendererSpec)>)
        ensures
            renderers_view(found@) == renderers_of(self@.types),
    {
        let ghost all = self@.types;
        let mut found: Vec<(String, RendererSpec)> = Vec::new();
        let mut i: usize = 0;
        assert(all.take(0) =~= Seq::empty());
        assert(renderers_view(found@) =~= Seq::empty());
        while i < self.types.len()
            invariant
                i <= self.types.len(),
                all == types_view(self.types@),
                renderers_view(found@) == renderers_of(all.take(i as int)),
            decreases self.types.len() - i,
        {
            assert(all.take(i + 1).drop_last() =~= all.take(i as int));
            let t = &self.types[i].1;
            let ghost before = renderers_view(found@);
            if let Some(at) = t.find_latest() {
                proof {
                    let c = choose|c: int| is_latest(t@.versions, c);
                    lemma_latest_unique(t@.versions, at as int, c);
                }
                if let Some(renderer) = &t.versions[at].renderer {
                    found.push((self.types[i].0.clone(), renderer.clone()));
                    assert(renderers_view(found@) =~= before.push(
                        (all[i as int].0, renderer@),
                    ));
                }
            }
            i += 1;
        }
        assert(all.take(i as int) =~= all);
        found
    }

    /// Ingests a bundle: merges its enumerations, then its types, and checks
    /// that every enum that a field refers to is held.
    ///
    /// Fails with `InvalidInput` where `ingested` gives nothing; the registry
    /// is then unchanged.
    pub fn ingest_bundle(&mut self, bundle: &RegistryBundle) -> (r: Result<(), StoreError>)
        ensures
            match ingested(old(self)@.types, old(self)@.enums, bundle@) {
                Some((types, enums)) => r is Ok && final(self)@ == (RegistryView {
                    types,
                    enums,
                    ..old(self)@
                }),
                None => r is Err && r.unwrap_err().kind() == ErrorKind::InvalidInput
                    && final(self)@ == old(self)@,
            },
    {
        if bundle.registry_version == 0 {
            return Err(StoreError::InvalidInput("registry_version must be > 0".to_string()));
        }
        let mut enums = clone_enums(&self.enums);
        if !merge_enums(&mut enums, &bundle.enums) {
            return Err(StoreError::InvalidInput("enum already exists with different mapping".to_string()));
        }
        let mut types = clone_types(&self.types);
        if !merge_types(&mut types, &bundle.types) {
            return Err(StoreError::InvalidInput("type conflicts with existing".to_string()));
        }
        if !check_enums_known(&types, &enums) {
            return Err(StoreError::InvalidInput("missing enum".to_string()));
        }
        self.enums = enums;
        self.types = types;
        Ok(())
    }

    /// Puts a bundle under its id: see `spec_put_bundle`.
    ///
    /// Fails with `InvalidInput` where the bundle is refused.
    pub fn put_bundle(&mut self, bundle_id: &str, raw: &[u8]) -> (r: Result<PutOutcome, StoreError>)
        ensures
            final(self)@ == spec_put_bundle(old(self)@, bundle_id@, raw@).1,
            match r {
                Ok(outcome) => spec_put_bundle(old(self)@, bundle_id@, raw@).0 == Some(outcome),
                Err(e) => spec_put_bundle(old(self)@, bundle_id@, raw@).0 is None && e.kind()
                    == ErrorKind::InvalidInput,
            },
    {
        assert(names_of(self@.bundles) =~= text_keys(self.bundles@));
        if let Some(i) = find_text_key(&self.bundles, bundle_id) {
            if bytes_eq(self.bundles[i].1.as_slice(), raw) {
                return Ok(PutOutcome::AlreadyExists);
            }
            return Err(
                StoreError::InvalidInput(
                    "bundle_id already exists with different content".to_string(),
                ),
            );
        }
        let doc = match parse_json(raw) {
            Ok(doc) => doc,
            Err(msg) => {
                return Err(StoreError::InvalidInput(msg));
            },
        };
        let bundle = match parse_bundle(&doc) {
            Some(b) => b,
            None => {
                return Err(StoreError::InvalidInput("invalid bundle".to_string()));
            },
        };
        if !str_eq(bundle.bundle_id.as_str(), bundle_id) {
            return Err(StoreError::InvalidInput("bundle_id does not match path".to_string()));
        }
        match self.ingest_bundle(&bundle) {
            Ok(()) => {},
            Err(e) => {
                return Err(e);
            },
        }
        let ghost before = bundles_view(self.bundles@);
        self.bundles.push((bundle_id.to_string(), slice_to_vec(raw)));
        assert(bundles_view(self.bundles@) =~= before.push((bundle_id@, raw@)));
        self.last_bundle_id = Some(bundle_id.to_string());
        Ok(PutOutcome::Created)
    }
}

} // verus!
