//! Context metadata: what the first turn of a context says of the context
//! and of where it came from.

use crate::pack::{
    decode_msgpack, item_views, lemma_pack_view, msgpack_document, pair_views, PackInt, PackValue,
    PackView,
};
use crate::text::{
    find_text_key, last_index_of, lemma_last_index_of, opt_text, parse_u64, spec_parse_u64,
    text_keys,
};
use vstd::prelude::*;

verus! {

/// The origin of a context: its lineage, the request and the identities
/// behind it, the process and the network it came from.
#[derive(Debug)]
pub struct Provenance {
    pub parent_context_id: Option<u64>,
    pub spawn_reason: Option<String>,
    pub root_context_id: Option<u64>,
    pub trace_id: Option<String>,
    pub span_id: Option<String>,
    pub correlation_id: Option<String>,
    pub on_behalf_of: Option<String>,
    pub on_behalf_of_source: Option<String>,
    pub on_behalf_of_email: Option<String>,
    pub writer_method: Option<String>,
    pub writer_subject: Option<String>,
    pub writer_issuer: Option<String>,
    pub service_name: Option<String>,
    pub service_version: Option<String>,
    pub service_instance_id: Option<String>,
    pub process_pid: Option<i64>,
    pub process_owner: Option<String>,
    pub host_name: Option<String>,
    pub host_arch: Option<String>,
    pub client_address: Option<String>,
    pub client_port: Option<i64>,
    pub env: Option<Vec<(String, String)>>,
    pub sdk_name: Option<String>,
    pub sdk_version: Option<String>,
    pub captured_at: Option<i64>,
}

/// What a `Provenance` holds.
pub ghost struct ProvenanceView {
    pub parent_context_id: Option<u64>,
    pub spawn_reason: Option<Seq<char>>,
    pub root_context_id: Option<u64>,
    pub trace_id: Option<Seq<char>>,
    pub span_id: Option<Seq<char>>,
    pub correlation_id: Option<Seq<char>>,
    pub on_behalf_of: Option<Seq<char>>,
    pub on_behalf_of_source: Option<Seq<char>>,
    pub on_behalf_of_email: Option<Seq<char>>,
    pub writer_method: Option<Seq<char>>,
    pub writer_subject: Option<Seq<char>>,
    pub writer_issuer: Option<Seq<char>>,
    pub service_name: Option<Seq<char>>,
    pub service_version: Option<Seq<char>>,
    pub service_instance_id: Option<Seq<char>>,
    pub process_pid: Option<i64>,
    pub process_owner: Option<Seq<char>>,
    pub host_name: Option<Seq<char>>,
    pub host_arch: Option<Seq<char>>,
    pub client_address: Option<Seq<char>>,
    pub client_port: Option<i64>,
    pub env: Option<Seq<(Seq<char>, Seq<char>)>>,
    pub sdk_name: Option<Seq<char>>,
    pub sdk_version: Option<Seq<char>>,
    pub captured_at: Option<i64>,
}

/// The pairs of an optional environment map, as texts.
pub open spec fn env_view(env: Option<Vec<(String, String)>>) -> Option<Seq<(Seq<char>, Seq<char>)>> {
    match env {
        Some(pairs) => Some(text_pairs(pairs@)),
        None => None,
    }
}

/// The pairs of a list of texts, as sequences of characters.
pub open spec fn text_pairs(pairs: Seq<(String, String)>) -> Seq<(Seq<char>, Seq<char>)> {
    Seq::new(pairs.len(), |i: int| (pairs[i].0@, pairs[i].1@))
}

/// The texts of a list, as sequences of characters.
pub open spec fn texts(items: Seq<String>) -> Seq<Seq<char>> {
    Seq::new(items.len(), |i: int| items[i]@)
}

impl View for Provenance {
    type V = ProvenanceView;

    open spec fn view(&self) -> ProvenanceView {
        ProvenanceView {
            parent_context_id: self.parent_context_id,
            spawn_reason: opt_text(self.spawn_reason),
            root_context_id: self.root_context_id,
            trace_id: opt_text(self.trace_id),
            span_id: opt_text(self.span_id),
            correlation_id: opt_text(self.correlation_id),
            on_behalf_of: opt_text(self.on_behalf_of),
            on_behalf_of_source: opt_text(self.on_behalf_of_source),
            on_behalf_of_email: opt_text(self.on_behalf_of_email),
            writer_method: opt_text(self.writer_method),
            writer_subject: opt_text(self.writer_subject),
            writer_issuer: opt_text(self.writer_issuer),
            service_name: opt_text(self.service_name),
            service_version: opt_text(self.service_version),
            service_instance_id: opt_text(self.service_instance_id),
            process_pid: self.process_pid,
            process_owner: opt_text(self.process_owner),
            host_name: opt_text(self.host_name),
            host_arch: opt_text(self.host_arch),
            client_address: opt_text(self.client_address),
            client_port: self.client_port,
            env: env_view(self.env),
            sdk_name: opt_text(self.sdk_name),
            sdk_version: opt_text(self.sdk_version),
            captured_at: self.captured_at,
        }
    }
}

impl Provenance {
    /// A provenance that says nothing.
    pub fn empty() -> (p: Provenance)
        ensures
            p@ == empty_provenance(),
    {
        Provenance {
            parent_context_id: None,
            spawn_reason: None,
            root_context_id: None,
            trace_id: None,
            span_id: None,
            correlation_id: None,
            on_behalf_of: None,
            on_behalf_of_source: None,
            on_behalf_of_email: None,
            writer_method: None,
            writer_subject: None,
            writer_issuer: None,
            service_name: None,
            service_version: None,
            service_instance_id: None,
            process_pid: None,
            process_owner: None,
            host_name: None,
            host_arch: None,
            client_address: None,
            client_port: None,
            env: None,
            sdk_name: None,
            sdk_version: None,
            captured_at: None,
        }
    }
}

/// The provenance that says nothing.
pub open spec fn empty_provenance() -> ProvenanceView {
    ProvenanceView {
        parent_context_id: None,
        spawn_reason: None,
        root_context_id: None,
        trace_id: None,
        span_id: None,
        correlation_id: None,
        on_behalf_of: None,
        on_behalf_of_source: None,
        on_behalf_of_email: None,
        writer_method: None,
        writer_subject: None,
        writer_issuer: None,
        service_name: None,
        service_version: None,
        service_instance_id: None,
        process_pid: None,
        process_owner: None,
        host_name: None,
        host_arch: None,
        client_address: None,
        client_port: None,
        env: None,
        sdk_name: None,
        sdk_version: None,
        captured_at: None,
    }
}

/// The metadata of a context, taken from its first turn.
#[derive(Debug)]
pub struct ContextMetadata {
    pub client_tag: Option<String>,
    pub title: Option<String>,
    pub labels: Option<Vec<String>>,
    pub provenance: Option<Provenance>,
}

/// What a `ContextMetadata` holds.
pub ghost struct ContextMetadataView {
    pub client_tag: Option<Seq<char>>,
    pub title: Option<Seq<char>>,
    pub labels: Option<Seq<Seq<char>>>,
    pub provenance: Option<ProvenanceView>,
}

impl View for ContextMetadata {
    type V = ContextMetadataView;

    open spec fn view(&self) -> ContextMetadataView {
        ContextMetadataView {
            client_tag: opt_text(self.client_tag),
            title: opt_text(self.title),
            labels: match self.labels {
                Some(items) => Some(texts(items@)),
                None => None,
            },
            provenance: match self.provenance {
                Some(p) => Some(p@),
                None => None,
            },
        }
    }
}

/// The metadata that says nothing.
pub open spec fn empty_metadata() -> ContextMetadataView {
    ContextMetadataView { client_tag: None, title: None, labels: None, provenance: None }
}

/// The tag that a map key stands for: a non-negative integer, or a text that
/// spells one.
pub open spec fn spec_key_to_tag(key: PackView) -> Option<u64> {
    match key {
        PackView::Integer(PackInt::Pos(u)) => Some(u),
        PackView::String(Some(s)) => spec_parse_u64(s),
        _ => None,
    }
}

/// The tag that a map key stands for: a non-negative integer, or a text that
/// spells one.
pub fn key_to_tag(key: &PackValue) -> (tag: Option<u64>)
    ensures
        tag == spec_key_to_tag(key@),
{
    match key {
        PackValue::Integer(PackInt::Pos(u)) => Some(*u),
        PackValue::String(Some(s)) => parse_u64(s.as_str()),
        _ => None,
    }
}

/// The text of a value, if it is a text.
pub open spec fn spec_extract_string(v: PackView) -> Option<Seq<char>> {
    match v {
        PackView::String(Some(s)) => Some(s),
        _ => None,
    }
}

/// The text of a value, if it is a text.
pub fn extract_string(v: &PackValue) -> (r: Option<String>)
    ensures
        opt_text(r) == spec_extract_string(v@),
{
    match v {
        PackValue::String(Some(s)) => Some(s.clone()),
        _ => None,
    }
}

/// The unsigned number of a value, if it is a non-negative integer.
pub open spec fn spec_extract_u64(v: PackView) -> Option<u64> {
    match v {
        PackView::Integer(PackInt::Pos(u)) => Some(u),
        _ => None,
    }
}

/// The unsigned number of a value, if it is a non-negative integer.
pub fn extract_u64(v: &PackValue) -> (r: Option<u64>)
    ensures
        r == spec_extract_u64(v@),
{
    match v {
        PackValue::Integer(PackInt::Pos(u)) => Some(*u),
        _ => None,
    }
}

/// The signed number of a value, if it is an integer that fits.
pub open spec fn spec_extract_i64(v: PackView) -> Option<i64> {
    match v {
        PackView::Integer(PackInt::Pos(u)) => if u <= i64::MAX as u64 {
            Some(u as i64)
        } else {
            None
        },
        PackView::Integer(PackInt::Neg(i)) => Some(i),
        _ => None,
    }
}

/// The signed number of a value, if it is an integer that fits.
pub fn extract_i64(v: &PackValue) -> (r: Option<i64>)
    ensures
        r == spec_extract_i64(v@),
{
    match v {
        PackValue::Integer(PackInt::Pos(u)) => if *u <= i64::MAX as u64 {
            Some(*u as i64)
        } else {
            None
        },
        PackValue::Integer(PackInt::Neg(i)) => Some(*i),
        _ => None,
    }
}

/// Takes one pair of a map into a list of text pairs: a pair of two texts
/// replaces the pair with the same key or, where there is none, goes to the
/// end; any other pair is passed over.
pub open spec fn string_map_step(
    acc: Seq<(Seq<char>, Seq<char>)>,
    pair: (PackView, PackView),
) -> Seq<(Seq<char>, Seq<char>)> {
    match (spec_extract_string(pair.0), spec_extract_string(pair.1)) {
        (Some(k), Some(v)) => match last_index_of(acc.map_values(|p: (Seq<char>, Seq<char>)| p.0), k) {
            Some(i) => acc.update(i, (k, v)),
            None => acc.push((k, v)),
        },
        _ => acc,
    }
}

/// The text pairs of a map value, keys unique; `None` where the value is no
/// map or holds no pair of two texts.
pub open spec fn spec_extract_string_map(v: PackView) -> Option<Seq<(Seq<char>, Seq<char>)>> {
    match v {
        PackView::Dict(pairs) => {
            let found = pairs.fold_left(
                Seq::<(Seq<char>, Seq<char>)>::empty(),
                |acc: Seq<(Seq<char>, Seq<char>)>, pair: (PackView, PackView)|
                    string_map_step(acc, pair),
            );
            if found.len() == 0 {
                None
            } else {
                Some(found)
            }
        },
        _ => None,
    }
}

/// The text pairs of a map value: see `spec_extract_string_map`.
pub fn extract_string_map(v: &PackValue) -> (r: Option<Vec<(String, String)>>)
    ensures
        env_view(r) == spec_extract_string_map(v@),
{
    match v {
        PackValue::Dict(pairs) => {
            let ghost step = |acc: Seq<(Seq<char>, Seq<char>)>, pair: (PackView, PackView)|
                string_map_step(acc, pair);
            proof {
                lemma_pack_view(v);
            }
            let ghost all = pair_views(pairs@);
            let mut found: Vec<(String, String)> = Vec::new();
            let mut i: usize = 0;
            assert(all.take(0) =~= Seq::empty());
            assert(text_pairs(found@) =~= Seq::empty());
            while i < pairs.len()
                invariant
                    i <= pairs.len(),
                    all == pair_views(pairs@),
                    step == (|acc: Seq<(Seq<char>, Seq<char>)>, pair: (PackView, PackView)|
                        string_map_step(acc, pair)),
                    text_pairs(found@) == all.take(i as int).fold_left(
                        Seq::<(Seq<char>, Seq<char>)>::empty(),
                        step,
                    ),
                decreases pairs.len() - i,
            {
                assert(all.take(i + 1).drop_last() =~= all.take(i as int));
                let ghost before = text_pairs(found@);
                match (extract_string(&pairs[i].0), extract_string(&pairs[i].1)) {
                    (Some(k), Some(val)) => {
                        assert(text_keys(found@) =~= before.map_values(
                            |p: (Seq<char>, Seq<char>)| p.0,
                        ));
                        match find_text_key(&found, k.as_str()) {
                            Some(at) => {
                                found[at] = (k, val);
                                assert(text_pairs(found@) =~= before.update(
                                    at as int,
                                    (k@, val@),
                                ));
                            },
                            None => {
                                found.push((k, val));
                                assert(text_pairs(found@) =~= before.push((k@, val@)));
                            },
                        }
                    },
                    _ => {},
                }
                i += 1;
            }
            assert(all.take(i as int) =~= all);
            if found.len() == 0 {
                None
            } else {
                Some(found)
            }
        },
        _ => None,
    }
}

/// Takes one pair of a provenance map into the provenance: the field that
/// the key's tag names becomes what the value holds, or nothing where the
/// value is of another kind; a pair with another key is passed over.
pub open spec fn provenance_step(acc: ProvenanceView, pair: (PackView, PackView)) -> ProvenanceView {
    let v = pair.1;
    match spec_key_to_tag(pair.0) {
        Some(1) => ProvenanceView { parent_context_id: spec_extract_u64(v), ..acc },
        Some(2) => ProvenanceView { spawn_reason: spec_extract_string(v), ..acc },
        Some(3) => ProvenanceView { root_context_id: spec_extract_u64(v), ..acc },
        Some(10) => ProvenanceView { trace_id: spec_extract_string(v), ..acc },
        Some(11) => ProvenanceView { span_id: spec_extract_string(v), ..acc },
        Some(12) => ProvenanceView { correlation_id: spec_extract_string(v), ..acc },
        Some(20) => ProvenanceView { on_behalf_of: spec_extract_string(v), ..acc },
        Some(21) => ProvenanceView { on_behalf_of_source: spec_extract_string(v), ..acc },
        Some(22) => ProvenanceView { on_behalf_of_email: spec_extract_string(v), ..acc },
        Some(30) => ProvenanceView { writer_method: spec_extract_string(v), ..acc },
        Some(31) => ProvenanceView { writer_subject: spec_extract_string(v), ..acc },
        Some(32) => ProvenanceView { writer_issuer: spec_extract_string(v), ..acc },
        Some(40) => ProvenanceView { service_name: spec_extract_string(v), ..acc },
        Some(41) => ProvenanceView { service_version: spec_extract_string(v), ..acc },
        Some(42) => ProvenanceView { service_instance_id: spec_extract_string(v), ..acc },
        Some(43) => ProvenanceView { process_pid: spec_extract_i64(v), ..acc },
        Some(44) => ProvenanceView { process_owner: spec_extract_string(v), ..acc },
        Some(45) => ProvenanceView { host_name: spec_extract_string(v), ..acc },
        Some(46) => ProvenanceView { host_arch: spec_extract_string(v), ..acc },
        Some(50) => ProvenanceView { client_address: spec_extract_string(v), ..acc },
        Some(51) => ProvenanceView { client_port: spec_extract_i64(v), ..acc },
        Some(60) => ProvenanceView { env: spec_extract_string_map(v), ..acc },
        Some(70) => ProvenanceView { sdk_name: spec_extract_string(v), ..acc },
        Some(71) => ProvenanceView { sdk_version: spec_extract_string(v), ..acc },
        Some(80) => ProvenanceView { captured_at: spec_extract_i64(v), ..acc },
        _ => acc,
    }
}

/// `provenance_step`, as a function value.
pub open spec fn provenance_step_fn() -> spec_fn(ProvenanceView, (PackView, PackView)) -> ProvenanceView {
    |acc: ProvenanceView, pair: (PackView, PackView)| provenance_step(acc, pair)
}

/// The provenance that a provenance map spells: its pairs taken in, one
/// after the other.
pub open spec fn spec_extract_provenance(pairs: Seq<(PackView, PackView)>) -> ProvenanceView {
    pairs.fold_left(empty_provenance(), provenance_step_fn())
}

/// Takes one pair of a provenance map into the provenance.
fn take_provenance_pair(prov: &mut Provenance, k: &PackValue, v: &PackValue)
    ensures
        final(prov)@ == provenance_step(old(prov)@, (k@, v@)),
{
    match key_to_tag(k) {
        Some(1) => {
            prov.parent_context_id = extract_u64(v);
        },
        Some(2) => {
            prov.spawn_reason = extract_string(v);
        },
        Some(3) => {
            prov.root_context_id = extract_u64(v);
        },
        Some(10) => {
            prov.trace_id = extract_string(v);
        },
        Some(11) => {
            prov.span_id = extract_string(v);
        },
        Some(12) => {
            prov.correlation_id = extract_string(v);
        },
        Some(20) => {
            prov.on_behalf_of = extract_string(v);
        },
        Some(21) => {
            prov.on_behalf_of_source = extract_string(v);
        },
        Some(22) => {
            prov.on_behalf_of_email = extract_string(v);
        },
        Some(30) => {
            prov.writer_method = extract_string(v);
        },
        Some(31) => {
            prov.writer_subject = extract_string(v);
        },
        Some(32) => {
            prov.writer_issuer = extract_string(v);
        },
        Some(40) => {
            prov.service_name = extract_string(v);
        },
        Some(41) => {
            prov.service_version = extract_string(v);
        },
        Some(42) => {
            prov.service_instance_id = extract_string(v);
        },
        Some(43) => {
            prov.process_pid = extract_i64(v);
        },
        Some(44) => {
            prov.process_owner = extract_string(v);
        },
        Some(45) => {
            prov.host_name = extract_string(v);
        },
        Some(46) => {
            prov.host_arch = extract_string(v);
        },
        Some(50) => {
            prov.client_address = extract_string(v);
        },
        Some(51) => {
            prov.client_port = extract_i64(v);
        },
        Some(60) => {
            prov.env = extract_string_map(v);
        },
        Some(70) => {
            prov.sdk_name = extract_string(v);
        },
        Some(71) => {
            prov.sdk_version = extract_string(v);
        },
        Some(80) => {
            prov.captured_at = extract_i64(v);
        },
        _ => {},
    }
}

/// The provenance that a provenance map spells.
pub fn extract_provenance(pairs: &Vec<(PackValue, PackValue)>) -> (prov: Provenance)
    ensures
        prov@ == spec_extract_provenance(pair_views(pairs@)),
{
    let ghost all = pair_views(pairs@);
    let mut prov = Provenance::empty();
    let mut i: usize = 0;
    assert(all.take(0) =~= Seq::empty());
    while i < pairs.len()
        invariant
            i <= pairs.len(),
            all == pair_views(pairs@),
            prov@ == all.take(i as int).fold_left(empty_provenance(), provenance_step_fn()),
        decreases pairs.len() - i,
    {
        assert(all.take(i + 1).drop_last() =~= all.take(i as int));
        take_provenance_pair(&mut prov, &pairs[i].0, &pairs[i].1);
        i += 1;
    }
    assert(all.take(i as int) =~= all);
    prov
}

/// The texts among the items of an array, in their order.
pub open spec fn string_items(items: Seq<PackView>) -> Seq<Seq<char>>
    decreases items.len(),
{
    if items.len() == 0 {
        Seq::empty()
    } else {
        match spec_extract_string(items.last()) {
            Some(s) => string_items(items.drop_last()).push(s),
            None => string_items(items.drop_last()),
        }
    }
}

/// The texts among the items of an array, in their order.
pub fn collect_strings(items: &Vec<PackValue>) -> (found: Vec<String>)
    ensures
        texts(found@) == string_items(item_views(items@)),
{
    let ghost all = item_views(items@);
    let mut found: Vec<String> = Vec::new();
    let mut i: usize = 0;
    assert(all.take(0) =~= Seq::empty());
    assert(texts(found@) =~= Seq::empty());
    while i < items.len()
        invariant
            i <= items.len(),
            all == item_views(items@),
            texts(found@) == string_items(all.take(i as int)),
        decreases items.len() - i,
    {
        assert(all.take(i + 1).drop_last() =~= all.take(i as int));
        let ghost before = texts(found@);
        match extract_string(&items[i]) {
            Some(s) => {
                found.push(s);
                assert(texts(found@) =~= before.push(s@));
            },
            None => {},
        }
        i += 1;
    }
    assert(all.take(i as int) =~= all);
    found
}

/// Takes one pair of a metadata map into the metadata: tag 1 is the client
/// tag and tag 2 the title, each set by a text; tag 3 is the labels, set by
/// an array that holds at least one text; tag 10 is the provenance, set by a
/// map. Any other pair is passed over.
pub open spec fn metadata_step(acc: ContextMetadataView, pair: (PackView, PackView)) -> ContextMetadataView {
    match spec_key_to_tag(pair.0) {
        Some(1) => match pair.1 {
            PackView::String(s) => ContextMetadataView { client_tag: s, ..acc },
            _ => acc,
        },
        Some(2) => match pair.1 {
            PackView::String(s) => ContextMetadataView { title: s, ..acc },
            _ => acc,
        },
        Some(3) => match pair.1 {
            PackView::Array(items) => if string_items(items).len() > 0 {
                ContextMetadataView { labels: Some(string_items(items)), ..acc }
            } else {
                acc
            },
            _ => acc,
        },
        Some(10) => match pair.1 {
            PackView::Dict(pairs) => ContextMetadataView {
                provenance: Some(spec_extract_provenance(pairs)),
                ..acc
            },
            _ => acc,
        },
        _ => acc,
    }
}

/// `metadata_step`, as a function value.
pub open spec fn metadata_step_fn() -> spec_fn(ContextMetadataView, (PackView, PackView)) -> ContextMetadataView {
    |acc: ContextMetadataView, pair: (PackView, PackView)| metadata_step(acc, pair)
}

/// The value of the first pair whose key stands for the tag, if there is
/// one.
pub open spec fn first_with_tag(pairs: Seq<(PackView, PackView)>, tag: u64) -> Option<PackView>
    decreases pairs.len(),
{
    if pairs.len() == 0 {
        None
    } else if spec_key_to_tag(pairs.first().0) == Some(tag) {
        Some(pairs.first().1)
    } else {
        first_with_tag(pairs.drop_first(), tag)
    }
}

/// The metadata that a decoded payload carries: the payload is a map, the
/// value at tag 30 is a map, and its pairs, taken in one after the other,
/// leave at least one field set.
pub open spec fn metadata_of(payload: PackView) -> Option<ContextMetadataView> {
    match payload {
        PackView::Dict(outer) => match first_with_tag(outer, 30) {
            Some(PackView::Dict(inner)) => {
                let m = inner.fold_left(empty_metadata(), metadata_step_fn());
                if m.client_tag is Some || m.title is Some || m.labels is Some
                    || m.provenance is Some {
                    Some(m)
                } else {
                    None
                }
            },
            _ => None,
        },
        _ => None,
    }
}

/// The metadata that the bytes of a payload carry: none where they do not
/// decode.
pub open spec fn spec_extract_context_metadata(payload: Seq<u8>) -> Option<ContextMetadataView> {
    match msgpack_document(payload) {
        Some(value) => metadata_of(value),
        None => None,
    }
}

/// The view of optional metadata.
pub open spec fn opt_metadata(m: Option<ContextMetadata>) -> Option<ContextMetadataView> {
    match m {
        Some(meta) => Some(meta@),
        None => None,
    }
}

/// The views of the metadata that a list holds for contexts.
pub open spec fn cache_view(cache: Seq<(u64, Option<ContextMetadata>)>) -> Seq<
    (u64, Option<ContextMetadataView>),
> {
    Seq::new(cache.len(), |i: int| (cache[i].0, opt_metadata(cache[i].1)))
}

/// Takes one pair of a metadata map into the metadata.
fn take_metadata_pair(meta: &mut ContextMetadata, k: &PackValue, v: &PackValue)
    ensures
        final(meta)@ == metadata_step(old(meta)@, (k@, v@)),
{
    match key_to_tag(k) {
        Some(1) => {
            if let PackValue::String(s) = v {
                meta.client_tag = crate::text::clone_opt_string(s);
            }
        },
        Some(2) => {
            if let PackValue::String(s) = v {
                meta.title = crate::text::clone_opt_string(s);
            }
        },
        Some(3) => {
            if let PackValue::Array(items) = v {
                let labels = collect_strings(items);
                proof {
                    lemma_pack_view(v);
                }
                if labels.len() > 0 {
                    meta.labels = Some(labels);
                }
            }
        },
        Some(10) => {
            if let PackValue::Dict(pairs) = v {
                proof {
                    lemma_pack_view(v);
                }
                meta.provenance = Some(extract_provenance(pairs));
            }
        },
        _ => {},
    }
}

/// The place of the first pair whose key stands for the tag.
fn find_tag(pairs: &Vec<(PackValue, PackValue)>, tag: u64) -> (place: Option<usize>)
    ensures
        match place {
            Some(i) => i < pairs.len() && first_with_tag(pair_views(pairs@), tag) == Some(
                pairs@[i as int].1@,
            ),
            None => first_with_tag(pair_views(pairs@), tag) is None,
        },
{
    let ghost all = pair_views(pairs@);
    let mut i: usize = 0;
    assert(all.skip(0) =~= all);
    while i < pairs.len()
        invariant
            i <= pairs.len(),
            all == pair_views(pairs@),
            first_with_tag(all.skip(i as int), tag) == first_with_tag(all, tag),
        decreases pairs.len() - i,
    {
        assert(all.skip(i as int).drop_first() =~= all.skip(i + 1));
        assert(all.skip(i as int).first() == all[i as int]);
        if key_to_tag(&pairs[i].0) == Some(tag) {
            return Some(i);
        }
        i += 1;
    }
    None
}

/// The metadata that a decoded payload carries: see `metadata_of`.
pub fn metadata_from_value(value: &PackValue) -> (r: Option<ContextMetadata>)
    ensures
        opt_metadata(r) == metadata_of(value@),
{
    let outer = match value {
        PackValue::Dict(outer) => outer,
        _ => {
            return None;
        },
    };
    proof {
        lemma_pack_view(value);
    }
    let at = match find_tag(outer, 30) {
        Some(at) => at,
        None => {
            return None;
        },
    };
    let inner = match &outer[at].1 {
        PackValue::Dict(inner) => inner,
        _ => {
            return None;
        },
    };
    let ghost all = pair_views(inner@);
    proof {
        lemma_pack_view(&outer@[at as int].1);
    }
    let mut meta = ContextMetadata { client_tag: None, title: None, labels: None, provenance: None };
    let mut i: usize = 0;
    assert(all.take(0) =~= Seq::empty());
    while i < inner.len()
        invariant
            i <= inner.len(),
            all == pair_views(inner@),
            meta@ == all.take(i as int).fold_left(empty_metadata(), metadata_step_fn()),
        decreases inner.len() - i,
    {
        assert(all.take(i + 1).drop_last() =~= all.take(i as int));
        take_metadata_pair(&mut meta, &inner[i].0, &inner[i].1);
        i += 1;
    }
    assert(all.take(i as int) =~= all);
    if meta.client_tag.is_some() || meta.title.is_some() || meta.labels.is_some()
        || meta.provenance.is_some() {
        Some(meta)
    } else {
        None
    }
}

/// The metadata that the bytes of a first turn's payload carry, if they
/// decode and carry any.
pub fn extract_context_metadata(payload: &[u8]) -> (r: Option<ContextMetadata>)
    ensures
        opt_metadata(r) == spec_extract_context_metadata(payload@),
{
    match decode_msgpack(payload) {
        Ok(value) => metadata_from_value(&value),
        Err(_) => None,
    }
}

/// A copy of an optional environment map.
pub fn clone_env(env: &Option<Vec<(String, String)>>) -> (copy: Option<Vec<(String, String)>>)
    ensures
        env_view(copy) == env_view(*env),
{
    match env {
        Some(pairs) => {
            let mut out: Vec<(String, String)> = Vec::with_capacity(pairs.len());
            let mut i: usize = 0;
            while i < pairs.len()
                invariant
                    i <= pairs.len(),
                    out@.len() == i,
                    forall|j: int|
                        0 <= j < i ==> out@[j].0@ == pairs@[j].0@ && out@[j].1@ == pairs@[j].1@,
                decreases pairs.len() - i,
            {
                out.push((pairs[i].0.clone(), pairs[i].1.clone()));
                i += 1;
            }
            assert(text_pairs(out@) =~= text_pairs(pairs@));
            Some(out)
        },
        None => None,
    }
}

impl Clone for Provenance {
    fn clone(&self) -> (copy: Self)
        ensures
            copy@ == self@,
    {
        Provenance {
            parent_context_id: self.parent_context_id,
            spawn_reason: crate::text::clone_opt_string(&self.spawn_reason),
            root_context_id: self.root_context_id,
            trace_id: crate::text::clone_opt_string(&self.trace_id),
            span_id: crate::text::clone_opt_string(&self.span_id),
            correlation_id: crate::text::clone_opt_string(&self.correlation_id),
            on_behalf_of: crate::text::clone_opt_string(&self.on_behalf_of),
            on_behalf_of_source: crate::text::clone_opt_string(&self.on_behalf_of_source),
            on_behalf_of_email: crate::text::clone_opt_string(&self.on_behalf_of_email),
            writer_method: crate::text::clone_opt_string(&self.writer_method),
            writer_subject: crate::text::clone_opt_string(&self.writer_subject),
            writer_issuer: crate::text::clone_opt_string(&self.writer_issuer),
            service_name: crate::text::clone_opt_string(&self.service_name),
            service_version: crate::text::clone_opt_string(&self.service_version),
            service_instance_id: crate::text::clone_opt_string(&self.service_instance_id),
            process_pid: self.process_pid,
            process_owner: crate::text::clone_opt_string(&self.process_owner),
            host_name: crate::text::clone_opt_string(&self.host_name),
            host_arch: crate::text::clone_opt_string(&self.host_arch),
            client_address: crate::text::clone_opt_string(&self.client_address),
            client_port: self.client_port,
            env: clone_env(&self.env),
            sdk_name: crate::text::clone_opt_string(&self.sdk_name),
            sdk_version: crate::text::clone_opt_string(&self.sdk_version),
            captured_at: self.captured_at,
        }
    }
}

impl Clone for ContextMetadata {
    fn clone(&self) -> (copy: Self)
        ensures
            copy@ == self@,
    {
        ContextMetadata {
            client_tag: crate::text::clone_opt_string(&self.client_tag),
            title: crate::text::clone_opt_string(&self.title),
            labels: match &self.labels {
                Some(l) => {
                    let copy = crate::events::clone_strings(l);
                    assert(texts(copy@) =~= texts(l@));
                    Some(copy)
                },
                None => None,
            },
            provenance: match &self.provenance {
                Some(p) => Some(p.clone()),
                None => None,
            },
        }
    }
}

/// A copy of optional metadata.
pub fn clone_opt_metadata(m: &Option<ContextMetadata>) -> (copy: Option<ContextMetadata>)
    ensures
        opt_metadata(copy) == opt_metadata(*m),
{
    match m {
        Some(meta) => Some(meta.clone()),
        None => None,
    }
}

} // verus!
