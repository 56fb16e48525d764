//! The descriptors that the registry holds: fields, versions and types.

use crate::text::{clone_opt_string, last_index_of, number_keys, opt_str_eq, opt_text, str_eq};
use vstd::prelude::*;

verus! {

/// Names a frontend renderer for the payloads of a type.
#[derive(Debug)]
pub struct RendererSpec {
    /// The URL of the module to load the renderer from.
    pub esm_url: String,
    /// The named export of the module, where it is not the default.
    pub component: Option<String>,
    /// A subresource integrity hash.
    pub integrity: Option<String>,
}

/// What a `RendererSpec` holds.
pub ghost struct RendererSpecView {
    pub esm_url: Seq<char>,
    pub component: Option<Seq<char>>,
    pub integrity: Option<Seq<char>>,
}

impl View for RendererSpec {
    type V = RendererSpecView;

    open spec fn view(&self) -> RendererSpecView {
        RendererSpecView {
            esm_url: self.esm_url@,
            component: opt_text(self.component),
            integrity: opt_text(self.integrity),
        }
    }
}

impl Clone for RendererSpec {
    fn clone(&self) -> (copy: Self)
        ensures
            copy@ == self@,
    {
        RendererSpec {
            esm_url: self.esm_url.clone(),
            component: clone_opt_string(&self.component),
            integrity: clone_opt_string(&self.integrity),
        }
    }
}

/// The view of an optional renderer.
pub open spec fn opt_renderer(r: Option<RendererSpec>) -> Option<RendererSpecView> {
    match r {
        Some(spec) => Some(spec@),
        None => None,
    }
}

/// A copy of an optional renderer.
pub fn clone_opt_renderer(r: &Option<RendererSpec>) -> (copy: Option<RendererSpec>)
    ensures
        opt_renderer(copy) == opt_renderer(*r),
{
    match r {
        Some(spec) => Some(spec.clone()),
        None => None,
    }
}

/// The type of the items of an array field.
#[derive(Debug)]
pub enum ItemsSpec {
    /// A base type, such as `string` or `int64`.
    Simple(String),
    /// A reference to another type of the registry.
    Ref(String),
}

/// What an `ItemsSpec` holds.
pub ghost enum ItemsSpecView {
    Simple(Seq<char>),
    Ref(Seq<char>),
}

impl View for ItemsSpec {
    type V = ItemsSpecView;

    open spec fn view(&self) -> ItemsSpecView {
        match self {
            ItemsSpec::Simple(s) => ItemsSpecView::Simple(s@),
            ItemsSpec::Ref(s) => ItemsSpecView::Ref(s@),
        }
    }
}

impl Clone for ItemsSpec {
    fn clone(&self) -> (copy: Self)
        ensures
            copy@ == self@,
    {
        match self {
            ItemsSpec::Simple(s) => ItemsSpec::Simple(s.clone()),
            ItemsSpec::Ref(s) => ItemsSpec::Ref(s.clone()),
        }
    }
}

/// The view of an optional items spec.
pub open spec fn opt_items(items: Option<ItemsSpec>) -> Option<ItemsSpecView> {
    match items {
        Some(spec) => Some(spec@),
        None => None,
    }
}

/// One field of a type version.
#[derive(Debug)]
pub struct FieldSpec {
    pub name: String,
    pub field_type: String,
    pub enum_ref: Option<String>,
    pub type_ref: Option<String>,
    pub optional: bool,
    pub items: Option<ItemsSpec>,
}

/// What a `FieldSpec` holds.
pub ghost struct FieldSpecView {
    pub name: Seq<char>,
    pub field_type: Seq<char>,
    pub enum_ref: Option<Seq<char>>,
    pub type_ref: Option<Seq<char>>,
    pub optional: bool,
    pub items: Option<ItemsSpecView>,
}

impl View for FieldSpec {
    type V = FieldSpecView;

    open spec fn view(&self) -> FieldSpecView {
        FieldSpecView {
            name: self.name@,
            field_type: self.field_type@,
            enum_ref: opt_text(self.enum_ref),
            type_ref: opt_text(self.type_ref),
            optional: self.optional,
            items: opt_items(self.items),
        }
    }
}

impl Clone for FieldSpec {
    fn clone(&self) -> (copy: Self)
        ensures
            copy@ == self@,
    {
        FieldSpec {
            name: self.name.clone(),
            field_type: self.field_type.clone(),
            enum_ref: clone_opt_string(&self.enum_ref),
            type_ref: clone_opt_string(&self.type_ref),
            optional: self.optional,
            items: match &self.items {
                Some(spec) => Some(spec.clone()),
                None => None,
            },
        }
    }
}

impl FieldSpec {
    /// Whether two fields say the same.
    pub fn same_as(&self, other: &FieldSpec) -> (same: bool)
        ensures
            same == (self@ == other@),
    {
        let items_same = match (&self.items, &other.items) {
            (Some(ItemsSpec::Simple(a)), Some(ItemsSpec::Simple(b))) => str_eq(
                a.as_str(),
                b.as_str(),
            ),
            (Some(ItemsSpec::Ref(a)), Some(ItemsSpec::Ref(b))) => str_eq(a.as_str(), b.as_str()),
            (None, None) => true,
            _ => false,
        };
        items_same && str_eq(self.name.as_str(), other.name.as_str()) && str_eq(
            self.field_type.as_str(),
            other.field_type.as_str(),
        ) && opt_str_eq(&self.enum_ref, &other.enum_ref) && opt_str_eq(
            &self.type_ref,
            &other.type_ref,
        ) && self.optional == other.optional
    }
}

/// What a tag stands for within a type, in every version: a base type and an
/// enum reference.
#[derive(Debug)]
pub struct FieldSignature {
    pub field_type: String,
    pub enum_ref: Option<String>,
}

/// What a `FieldSignature` holds.
pub ghost struct FieldSignatureView {
    pub field_type: Seq<char>,
    pub enum_ref: Option<Seq<char>>,
}

impl View for FieldSignature {
    type V = FieldSignatureView;

    open spec fn view(&self) -> FieldSignatureView {
        FieldSignatureView { field_type: self.field_type@, enum_ref: opt_text(self.enum_ref) }
    }
}

impl Clone for FieldSignature {
    fn clone(&self) -> (copy: Self)
        ensures
            copy@ == self@,
    {
        FieldSignature {
            field_type: self.field_type.clone(),
            enum_ref: clone_opt_string(&self.enum_ref),
        }
    }
}

/// The signature of a field.
pub open spec fn signature_of(field: FieldSpecView) -> FieldSignatureView {
    FieldSignatureView { field_type: field.field_type, enum_ref: field.enum_ref }
}

/// The fields of a list, with their tags.
pub open spec fn fields_view(fields: Seq<(u64, FieldSpec)>) -> Seq<(u64, FieldSpecView)> {
    Seq::new(fields.len(), |i: int| (fields[i].0, fields[i].1@))
}

/// The signatures of a list, with their tags.
pub open spec fn signatures_view(sigs: Seq<(u64, FieldSignature)>) -> Seq<(u64, FieldSignatureView)> {
    Seq::new(sigs.len(), |i: int| (sigs[i].0, sigs[i].1@))
}

/// The tags of a list of tagged values.
pub open spec fn tags_of<V>(list: Seq<(u64, V)>) -> Seq<u64> {
    Seq::new(list.len(), |i: int| list[i].0)
}

/// The value that a list holds for a tag: that of the last pair with it.
pub open spec fn tagged<V>(list: Seq<(u64, V)>, tag: u64) -> Option<V> {
    match last_index_of(tags_of(list), tag) {
        Some(i) => Some(list[i].1),
        None => None,
    }
}

/// Puts a value under a tag: in the place of the pair with that tag or,
/// where there is none, at the end.
pub open spec fn put_tagged<V>(list: Seq<(u64, V)>, tag: u64, value: V) -> Seq<(u64, V)> {
    match last_index_of(tags_of(list), tag) {
        Some(i) => list.update(i, (tag, value)),
        None => list.push((tag, value)),
    }
}

/// Whether every tag stands once in a list.
pub open spec fn distinct_tags<V>(list: Seq<(u64, V)>) -> bool {
    tags_of(list).no_duplicates()
}

/// Putting a value under a tag keeps every tag standing once.
pub proof fn lemma_put_tagged_distinct<V>(list: Seq<(u64, V)>, tag: u64, value: V)
    requires
        distinct_tags(list),
    ensures
        distinct_tags(put_tagged(list, tag, value)),
        tagged(put_tagged(list, tag, value), tag) == Some(value),
{
    crate::text::lemma_last_index_of(tags_of(list), tag);
    let out = put_tagged(list, tag, value);
    match last_index_of(tags_of(list), tag) {
        Some(i) => {
            assert(tags_of(out) =~= tags_of(list));
            crate::text::lemma_last_index_of(tags_of(out), tag);
        },
        None => {
            assert(tags_of(out) =~= tags_of(list).push(tag));
            crate::text::lemma_last_index_of(tags_of(out), tag);
            assert(tags_of(out)[list.len() as int] == tag);
        },
    }
}

/// Putting another value in the place of a pair, under the same tag, keeps
/// the tags of the list.
pub proof fn lemma_update_keeps_tags<V>(list: Seq<(u64, V)>, i: int, value: V)
    requires
        0 <= i < list.len(),
    ensures
        tags_of(list.update(i, (list[i].0, value))) == tags_of(list),
{
    assert(tags_of(list.update(i, (list[i].0, value))) =~= tags_of(list));
}

/// Taking a pair out of a list keeps every tag standing once, and the tag
/// of the pair stands in the list no more.
pub proof fn lemma_remove_distinct<V>(list: Seq<(u64, V)>, i: int)
    requires
        distinct_tags(list),
        0 <= i < list.len(),
    ensures
        distinct_tags(list.remove(i)),
        !tags_of(list.remove(i)).contains(list[i].0),
        forall|t: u64| tags_of(list.remove(i)).contains(t) ==> tags_of(list).contains(t),
{
    let out = list.remove(i);
    let tags = tags_of(list);
    assert forall|a: int, b: int| 0 <= a < out.len() && 0 <= b < out.len() && a != b implies tags_of(
        out,
    )[a] != tags_of(out)[b] by {
        let fa = if a < i { a } else { a + 1 };
        let fb = if b < i { b } else { b + 1 };
        assert(tags_of(out)[a] == tags[fa]);
        assert(tags_of(out)[b] == tags[fb]);
    }
    assert forall|a: int| 0 <= a < out.len() implies tags_of(out)[a] != list[i].0 by {
        let fa = if a < i { a } else { a + 1 };
        assert(tags_of(out)[a] == tags[fa]);
        assert(tags[i] == list[i].0);
    }
    assert forall|t: u64| tags_of(out).contains(t) implies tags.contains(t) by {
        let a = choose|a: int| 0 <= a < out.len() && tags_of(out)[a] == t;
        let fa = if a < i { a } else { a + 1 };
        assert(tags[fa] == t);
    }
}

/// Whether two field lists say the same of every tag: they are as long as
/// each other, and each field of the first stands under its tag in the
/// second.
pub open spec fn same_fields(a: Seq<(u64, FieldSpecView)>, b: Seq<(u64, FieldSpecView)>) -> bool {
    a.len() == b.len() && forall|i: int|
        0 <= i < a.len() ==> tagged(b, (#[trigger] a[i]).0) == Some(a[i].1)
}

/// One version of a type: its fields by tag, and its renderer.
#[derive(Debug)]
pub struct TypeVersionSpec {
    pub version: u32,
    pub fields: Vec<(u64, FieldSpec)>,
    pub renderer: Option<RendererSpec>,
}

/// What a `TypeVersionSpec` holds.
pub ghost struct TypeVersionSpecView {
    pub version: u32,
    pub fields: Seq<(u64, FieldSpecView)>,
    pub renderer: Option<RendererSpecView>,
}

impl View for TypeVersionSpec {
    type V = TypeVersionSpecView;

    open spec fn view(&self) -> TypeVersionSpecView {
        TypeVersionSpecView {
            version: self.version,
            fields: fields_view(self.fields@),
            renderer: opt_renderer(self.renderer),
        }
    }
}

/// A copy of a list of fields.
pub fn clone_fields(fields: &Vec<(u64, FieldSpec)>) -> (copy: Vec<(u64, FieldSpec)>)
    ensures
        fields_view(copy@) == fields_view(fields@),
{
    let mut copy: Vec<(u64, FieldSpec)> = Vec::with_capacity(fields.len());
    let mut i: usize = 0;
    while i < fields.len()
        invariant
            i <= fields.len(),
            copy@.len() == i,
            forall|j: int| 0 <= j < i ==> copy@[j].0 == fields@[j].0 && copy@[j].1@ == fields@[j].1@,
        decreases fields.len() - i,
    {
        copy.push((fields[i].0, fields[i].1.clone()));
        i += 1;
    }
    assert(fields_view(copy@) =~= fields_view(fields@));
    copy
}

impl Clone for TypeVersionSpec {
    fn clone(&self) -> (copy: Self)
        ensures
            copy@ == self@,
    {
        TypeVersionSpec {
            version: self.version,
            fields: clone_fields(&self.fields),
            renderer: clone_opt_renderer(&self.renderer),
        }
    }
}

/// The versions of a list.
pub open spec fn versions_view(versions: Seq<TypeVersionSpec>) -> Seq<TypeVersionSpecView> {
    Seq::new(versions.len(), |i: int| versions[i]@)
}

/// A type: its versions, and what each tag stands for in all of them.
#[derive(Debug)]
pub struct TypeSpec {
    pub versions: Vec<TypeVersionSpec>,
    pub tag_schema: Vec<(u64, FieldSignature)>,
}

/// What a `TypeSpec` holds.
pub ghost struct TypeSpecView {
    pub versions: Seq<TypeVersionSpecView>,
    pub tag_schema: Seq<(u64, FieldSignatureView)>,
}

impl View for TypeSpec {
    type V = TypeSpecView;

    open spec fn view(&self) -> TypeSpecView {
        TypeSpecView {
            versions: versions_view(self.versions@),
            tag_schema: signatures_view(self.tag_schema@),
        }
    }
}

impl Clone for TypeSpec {
    fn clone(&self) -> (copy: Self)
        ensures
            copy@ == self@,
    {
        let mut versions: Vec<TypeVersionSpec> = Vec::with_capacity(self.versions.len());
        let mut i: usize = 0;
        while i < self.versions.len()
            invariant
                i <= self.versions.len(),
                versions@.len() == i,
                forall|j: int| 0 <= j < i ==> versions@[j]@ == self.versions@[j]@,
            decreases self.versions.len() - i,
        {
            versions.push(self.versions[i].clone());
            i += 1;
        }
        let mut tag_schema: Vec<(u64, FieldSignature)> = Vec::with_capacity(self.tag_schema.len());
        let mut k: usize = 0;
        while k < self.tag_schema.len()
            invariant
                k <= self.tag_schema.len(),
                tag_schema@.len() == k,
                forall|j: int|
                    0 <= j < k ==> tag_schema@[j].0 == self.tag_schema@[j].0 && tag_schema@[j].1@
                        == self.tag_schema@[j].1@,
            decreases self.tag_schema.len() - k,
        {
            tag_schema.push((self.tag_schema[k].0, self.tag_schema[k].1.clone()));
            k += 1;
        }
        assert(versions_view(versions@) =~= versions_view(self.versions@));
        assert(signatures_view(tag_schema@) =~= signatures_view(self.tag_schema@));
        TypeSpec { versions, tag_schema }
    }
}

/// The versions numbers of a list of versions.
pub open spec fn version_numbers(versions: Seq<TypeVersionSpecView>) -> Seq<u32> {
    Seq::new(versions.len(), |i: int| versions[i].version)
}

/// The place of the version with this number, if the type has it.
pub open spec fn version_index(versions: Seq<TypeVersionSpecView>, version: u32) -> Option<int> {
    last_index_of(version_numbers(versions), version)
}

/// Whether `i` is the place of the latest version: the one with the highest
/// number, and the first of those.
pub open spec fn is_latest(versions: Seq<TypeVersionSpecView>, i: int) -> bool {
    &&& 0 <= i < versions.len()
    &&& forall|j: int| 0 <= j < versions.len() ==> versions[j].version <= versions[i].version
    &&& forall|j: int| 0 <= j < i ==> versions[j].version < versions[i].version
}

impl TypeSpec {
    /// The place of the version with this number.
    pub fn find_version(&self, version: u32) -> (place: Option<usize>)
        ensures
            match place {
                Some(i) => version_index(self@.versions, version) == Some(i as int) && i
                    < self.versions.len(),
                None => version_index(self@.versions, version) is None,
            },
    {
        let ghost numbers = version_numbers(self@.versions);
        let mut i: usize = self.versions.len();
        assert(numbers.subrange(0, i as int) =~= numbers);
        while i > 0
            invariant
                i <= self.versions.len(),
                numbers == version_numbers(self@.versions),
                last_index_of(numbers.subrange(0, i as int), version) == last_index_of(
                    numbers,
                    version,
                ),
            decreases i,
        {
            assert(numbers.subrange(0, i as int).drop_last() =~= numbers.subrange(0, i - 1));
            i -= 1;
            if self.versions[i].version == version {
                return Some(i);
            }
        }
        None
    }

    /// The place of the latest version, if the type has a version.
    pub fn find_latest(&self) -> (place: Option<usize>)
        ensures
            match place {
                Some(i) => is_latest(self@.versions, i as int),
                None => self@.versions.len() == 0,
            },
    {
        if self.versions.len() == 0 {
            return None;
        }
        let mut best: usize = 0;
        let mut i: usize = 1;
        while i < self.versions.len()
            invariant
                1 <= i <= self.versions.len(),
                best < i,
                forall|j: int| 0 <= j < i ==> self.versions@[j].version <= self.versions@[best as int].version,
                forall|j: int| 0 <= j < best ==> self.versions@[j].version < self.versions@[best as int].version,
            decreases self.versions.len() - i,
        {
            if self.versions[i].version > self.versions[best].version {
                best = i;
            }
            i += 1;
        }
        Some(best)
    }
}

/// The place of a tag in a list of fields.
pub fn find_field(fields: &Vec<(u64, FieldSpec)>, tag: u64) -> (place: Option<usize>)
    ensures
        match place {
            Some(i) => i < fields.len() && last_index_of(tags_of(fields_view(fields@)), tag)
                == Some(i as int),
            None => last_index_of(tags_of(fields_view(fields@)), tag) is None,
        },
{
    assert(tags_of(fields_view(fields@)) =~= number_keys(fields@));
    crate::text::find_number_key(fields, tag)
}

/// Whether two field lists say the same of every tag.
pub fn fields_match(a: &Vec<(u64, FieldSpec)>, b: &Vec<(u64, FieldSpec)>) -> (same: bool)
    ensures
        same == same_fields(fields_view(a@), fields_view(b@)),
{
    if a.len() != b.len() {
        return false;
    }
    let ghost av = fields_view(a@);
    let ghost bv = fields_view(b@);
    let mut i: usize = 0;
    while i < a.len()
        invariant
            i <= a.len(),
            a.len() == b.len(),
            av == fields_view(a@),
            bv == fields_view(b@),
            forall|j: int| 0 <= j < i ==> tagged(bv, (#[trigger] av[j]).0) == Some(av[j].1),
        decreases a.len() - i,
    {
        match find_field(b, a[i].0) {
            Some(at) => {
                if !a[i].1.same_as(&b[at].1) {
                    assert(tagged(bv, av[i as int].0) != Some(av[i as int].1));
                    return false;
                }
            },
            None => {
                assert(tagged(bv, av[i as int].0) != Some(av[i as int].1));
                return false;
            },
        }
        i += 1;
    }
    true
}

} // verus!
