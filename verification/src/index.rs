//! Secondary indexes: what the first turn of each context says of it, kept
//! for lookups by tag, title, label, lineage and time.

use crate::metadata::{cache_view, texts, ContextMetadata, ContextMetadataView};
use crate::order::{
    contains_number, descending, descending_of, lemma_descending_strict, lemma_same_numbers,
    sort_descending, strictly_descending,
};
use crate::registry_types::{
    distinct_tags, lemma_put_tagged_distinct, put_tagged, tagged, tags_of,
};
use crate::text::{
    bytes_eq, clone_opt_string, find_number_key, last_index_of, number_keys, opt_text, str_eq,
};
use crate::turn_store::ContextHead;
use vstd::prelude::*;

verus! {

/// What the indexes hold of one context.
#[derive(Debug)]
pub struct IndexEntry {
    pub client_tag: Option<String>,
    pub title: Option<String>,
    pub labels: Vec<String>,
    pub parent_context_id: Option<u64>,
    pub root_context_id: Option<u64>,
    pub created_at: u64,
    pub depth: u32,
}

/// What an `IndexEntry` holds.
pub ghost struct IndexEntryView {
    pub client_tag: Option<Seq<char>>,
    pub title: Option<Seq<char>>,
    pub labels: Seq<Seq<char>>,
    pub parent_context_id: Option<u64>,
    pub root_context_id: Option<u64>,
    pub created_at: u64,
    pub depth: u32,
}

impl View for IndexEntry {
    type V = IndexEntryView;

    open spec fn view(&self) -> IndexEntryView {
        IndexEntryView {
            client_tag: opt_text(self.client_tag),
            title: opt_text(self.title),
            labels: texts(self.labels@),
            parent_context_id: self.parent_context_id,
            root_context_id: self.root_context_id,
            created_at: self.created_at,
            depth: self.depth,
        }
    }
}

/// The entry of a context with these metadata.
pub open spec fn entry_of(
    metadata: Option<ContextMetadataView>,
    created_at: u64,
    depth: u32,
) -> IndexEntryView {
    match metadata {
        Some(m) => IndexEntryView {
            client_tag: m.client_tag,
            title: m.title,
            labels: match m.labels {
                Some(l) => l,
                None => Seq::empty(),
            },
            parent_context_id: match m.provenance {
                Some(p) => p.parent_context_id,
                None => None,
            },
            root_context_id: match m.provenance {
                Some(p) => p.root_context_id,
                None => None,
            },
            created_at,
            depth,
        },
        None => IndexEntryView {
            client_tag: None,
            title: None,
            labels: Seq::empty(),
            parent_context_id: None,
            root_context_id: None,
            created_at,
            depth,
        },
    }
}

/// The entries of a list, by context id.
pub open spec fn entries_view(entries: Seq<(u64, IndexEntry)>) -> Seq<(u64, IndexEntryView)> {
    Seq::new(entries.len(), |i: int| (entries[i].0, entries[i].1@))
}

/// The indexes: one entry for each context that was added, by context id,
/// in the order in which the contexts were added.
pub struct SecondaryIndexes {
    entries: Vec<(u64, IndexEntry)>,
}

impl View for SecondaryIndexes {
    type V = Seq<(u64, IndexEntryView)>;

    closed spec fn view(&self) -> Seq<(u64, IndexEntryView)> {
        entries_view(self.entries@)
    }
}

/// The contexts whose entry names this parent, in the order of the entries.
pub open spec fn children_of(entries: Seq<(u64, IndexEntryView)>, parent: u64) -> Seq<u64>
    decreases entries.len(),
{
    if entries.len() == 0 {
        Seq::empty()
    } else if entries.last().1.parent_context_id == Some(parent) {
        children_of(entries.drop_last(), parent).push(entries.last().0)
    } else {
        children_of(entries.drop_last(), parent)
    }
}

/// Where every context has one entry, no child of a parent stands twice
/// among its children.
pub proof fn lemma_children_once(entries: Seq<(u64, IndexEntryView)>, parent: u64)
    requires
        distinct_tags(entries),
    ensures
        children_of(entries, parent).no_duplicates(),
    decreases entries.len(),
{
    if entries.len() > 0 {
        let front = entries.drop_last();
        let n = entries.len() - 1;
        assert(tags_of(front) =~= tags_of(entries).drop_last());
        assert forall|a: int, b: int|
            0 <= a < front.len() && 0 <= b < front.len() && a != b implies tags_of(front)[a]
            != tags_of(front)[b] by {
            assert(tags_of(entries)[a] != tags_of(entries)[b]);
        }
        lemma_children_once(front, parent);
        lemma_children_of(front, parent);
        let kids = children_of(front, parent);
        if entries.last().1.parent_context_id == Some(parent) {
            assert forall|a: int| 0 <= a < kids.len() implies kids[a] != entries.last().0 by {
                assert(kids.contains(kids[a]));
                let i = choose|i: int| 0 <= i < front.len() && tags_of(front)[i] == kids[a];
                assert(tags_of(entries)[i] != tags_of(entries)[n]);
            }
        }
    }
}

/// The indexes that are built over heads hold every context once.
pub proof fn lemma_indexes_over_distinct(
    cache: Seq<(u64, Option<ContextMetadataView>)>,
    heads: Seq<ContextHead>,
    n: nat,
)
    ensures
        distinct_tags(indexes_over(cache, heads, n)),
    decreases n,
{
    if n > 0 && n <= heads.len() {
        lemma_indexes_over_distinct(cache, heads, (n - 1) as nat);
        let head = heads[n - 1];
        lemma_put_tagged_distinct(
            indexes_over(cache, heads, (n - 1) as nat),
            head.context_id,
            entry_of(
                cached_metadata(cache, head.context_id),
                head.created_at_unix_ms,
                head.head_depth,
            ),
        );
    } else {
        assert(tags_of(indexes_over(cache, heads, n)) =~= Seq::empty());
    }
}

/// A child of a parent is a context of the entries, and a context whose
/// entry names the parent is a child of it.
pub proof fn lemma_children_of(entries: Seq<(u64, IndexEntryView)>, parent: u64)
    ensures
        forall|c: u64| #[trigger]
            children_of(entries, parent).contains(c) ==> tags_of(entries).contains(c),
        forall|i: int|
            0 <= i < entries.len() && (#[trigger] entries[i]).1.parent_context_id == Some(parent)
                ==> children_of(entries, parent).contains(entries[i].0),
        children_of(entries, parent).len() <= entries.len(),
    decreases entries.len(),
{
    if entries.len() > 0 {
        let front = entries.drop_last();
        lemma_children_of(front, parent);
        let kids = children_of(entries, parent);
        let n = entries.len() - 1;
        assert forall|c: u64| #[trigger] kids.contains(c) implies tags_of(entries).contains(c) by {
            let k = choose|k: int| 0 <= k < kids.len() && kids[k] == c;
            if k < children_of(front, parent).len() {
                assert(children_of(front, parent)[k] == c);
                assert(children_of(front, parent).contains(c));
                let j = choose|j: int| 0 <= j < tags_of(front).len() && tags_of(front)[j] == c;
                assert(tags_of(entries)[j] == c);
            } else {
                assert(tags_of(entries)[n] == c);
            }
        }
        assert forall|i: int|
            0 <= i < entries.len() && (#[trigger] entries[i]).1.parent_context_id == Some(
                parent,
            ) implies kids.contains(entries[i].0) by {
            if i < n {
                assert(front[i] == entries[i]);
                assert(children_of(front, parent).contains(entries[i].0));
                let k = choose|k: int|
                    0 <= k < children_of(front, parent).len() && children_of(front, parent)[k]
                        == entries[i].0;
                assert(kids[k] == entries[i].0);
            } else {
                assert(kids[kids.len() - 1] == entries[i].0);
            }
        }
    }
}

/// A context that is added with an entry that names a parent is a child of
/// that parent.
pub proof fn lemma_added_child(
    entries: Seq<(u64, IndexEntryView)>,
    context_id: u64,
    entry: IndexEntryView,
    parent: u64,
)
    requires
        entry.parent_context_id == Some(parent),
    ensures
        children_of(put_tagged(entries, context_id, entry), parent).contains(context_id),
{
    let after = put_tagged(entries, context_id, entry);
    lemma_children_of(after, parent);
    crate::text::lemma_last_index_of(tags_of(entries), context_id);
    match last_index_of(tags_of(entries), context_id) {
        Some(i) => {
            assert(after[i] == (context_id, entry));
        },
        None => {
            assert(after[entries.len() as int] == (context_id, entry));
        },
    }
}

/// The metadata that a cache holds for a context, if it holds any.
pub open spec fn cached_metadata(
    cache: Seq<(u64, Option<ContextMetadataView>)>,
    context_id: u64,
) -> Option<ContextMetadataView> {
    match tagged(cache, context_id) {
        Some(m) => m,
        None => None,
    }
}

/// The indexes over the first `n` heads of a list: each context added in
/// turn with the metadata that the cache holds for it, the time of its head
/// and the depth of its head.
pub open spec fn indexes_over(
    cache: Seq<(u64, Option<ContextMetadataView>)>,
    heads: Seq<ContextHead>,
    n: nat,
) -> Seq<(u64, IndexEntryView)>
    decreases n,
{
    if n == 0 || n > heads.len() {
        Seq::empty()
    } else {
        let head = heads[n - 1];
        put_tagged(
            indexes_over(cache, heads, (n - 1) as nat),
            head.context_id,
            entry_of(
                cached_metadata(cache, head.context_id),
                head.created_at_unix_ms,
                head.head_depth,
            ),
        )
    }
}

impl SecondaryIndexes {
    /// Indexes without entries.
    pub fn new() -> (indexes: SecondaryIndexes)
        ensures
            indexes@.len() == 0,
            distinct_tags(indexes@),
    {
        SecondaryIndexes { entries: Vec::new() }
    }

    /// The number of contexts that have an entry.
    pub fn len(&self) -> (n: usize)
        ensures
            n == self@.len(),
    {
        self.entries.len()
    }

    /// Adds a context with its metadata, in the place of its entry where it
    /// has one.
    pub fn add_context(
        &mut self,
        context_id: u64,
        metadata: Option<&ContextMetadata>,
        created_at: u64,
        depth: u32,
    )
        ensures
            final(self)@ == put_tagged(
                old(self)@,
                context_id,
                entry_of(
                    match metadata {
                        Some(m) => Some(m@),
                        None => None,
                    },
                    created_at,
                    depth,
                ),
            ),
            distinct_tags(old(self)@) ==> distinct_tags(final(self)@),
    {
        proof {
            if distinct_tags(self@) {
                lemma_put_tagged_distinct(
                    self@,
                    context_id,
                    entry_of(
                        match metadata {
                            Some(m) => Some(m@),
                            None => None,
                        },
                        created_at,
                        depth,
                    ),
                );
            }
        }
        let entry = match metadata {
            Some(m) => IndexEntry {
                client_tag: clone_opt_string(&m.client_tag),
                title: clone_opt_string(&m.title),
                labels: match &m.labels {
                    Some(l) => {
                        let copy = crate::events::clone_strings(l);
                        assert(texts(copy@) =~= texts(l@));
                        copy
                    },
                    None => {
                        let none: Vec<String> = Vec::new();
                        assert(texts(none@) =~= Seq::empty());
                        none
                    },
                },
                parent_context_id: match &m.provenance {
                    Some(p) => p.parent_context_id,
                    None => None,
                },
                root_context_id: match &m.provenance {
                    Some(p) => p.root_context_id,
                    None => None,
                },
                created_at,
                depth,
            },
            None => {
                let none: Vec<String> = Vec::new();
                assert(texts(none@) =~= Seq::empty());
                IndexEntry {
                    client_tag: None,
                    title: None,
                    labels: none,
                    parent_context_id: None,
                    root_context_id: None,
                    created_at,
                    depth,
                }
            },
        };
        let ghost before = entries_view(self.entries@);
        let ghost ev = entry@;
        assert(tags_of(before) =~= number_keys(self.entries@));
        match find_number_key(&self.entries, context_id) {
            Some(at) => {
                self.entries[at] = (context_id, entry);
                assert(entries_view(self.entries@) =~= before.update(at as int, (context_id, ev)));
            },
            None => {
                self.entries.push((context_id, entry));
                assert(entries_view(self.entries@) =~= before.push((context_id, ev)));
            },
        }
    }

    /// Builds the indexes anew over the heads of the contexts and the
    /// metadata that are cached for them; what the indexes held is dropped.
    pub fn build_from_cache(
        &mut self,
        cache: &Vec<(u64, Option<ContextMetadata>)>,
        heads: &Vec<ContextHead>,
    )
        ensures
            final(self)@ == indexes_over(cache_view(cache@), heads@, heads@.len() as nat),
            distinct_tags(final(self)@),
    {
        proof {
            lemma_indexes_over_distinct(cache_view(cache@), heads@, heads@.len() as nat);
        }
        self.entries = Vec::new();
        assert(self@ =~= Seq::empty());
        let ghost held = cache_view(cache@);
        assert(tags_of(held) =~= number_keys(cache@));
        let mut i: usize = 0;
        while i < heads.len()
            invariant
                i <= heads.len(),
                held == cache_view(cache@),
                tags_of(held) == number_keys(cache@),
                self@ == indexes_over(held, heads@, i as nat),
            decreases heads.len() - i,
        {
            let head = heads[i];
            let metadata = match find_number_key(cache, head.context_id) {
                Some(at) => cache[at].1.as_ref(),
                None => None,
            };
            self.add_context(head.context_id, metadata, head.created_at_unix_ms, head.head_depth);
            i += 1;
        }
    }

    /// The contexts that name this context as their parent: its direct
    /// children, in the order in which they were added.
    pub fn lookup_parent_exact(&self, parent_context_id: u64) -> (children: Vec<u64>)
        ensures
            children@ == children_of(self@, parent_context_id),
            distinct_tags(self@) ==> children@.no_duplicates(),
    {
        proof {
            if distinct_tags(self@) {
                lemma_children_once(self@, parent_context_id);
            }
        }
        let ghost all = self@;
        let mut out: Vec<u64> = Vec::new();
        let mut i: usize = 0;
        assert(all.take(0) =~= Seq::empty());
        while i < self.entries.len()
            invariant
                i <= self.entries.len(),
                all == entries_view(self.entries@),
                out@ == children_of(all.take(i as int), parent_context_id),
            decreases self.entries.len() - i,
        {
            assert(all.take(i + 1).drop_last() =~= all.take(i as int));
            if let Some(p) = self.entries[i].1.parent_context_id {
                if p == parent_context_id {
                    out.push(self.entries[i].0);
                }
            }
            i += 1;
        }
        assert(all.take(i as int) =~= all);
        out
    }

    /// The entry of a context.
    pub fn get(&self, context_id: u64) -> (entry: Option<&IndexEntry>)
        ensures
            match entry {
                Some(e) => tagged(self@, context_id) == Some(e@),
                None => tagged(self@, context_id) is None,
            },
    {
        assert(tags_of(self@) =~= number_keys(self.entries@));
        match find_number_key(&self.entries, context_id) {
            Some(i) => Some(&self.entries[i].1),
            None => None,
        }
    }
}

/// The children of a context as they are listed: by descending id.
pub open spec fn child_ids(entries: Seq<(u64, IndexEntryView)>, parent: u64) -> Seq<u64> {
    descending_of(children_of(entries, parent))
}

/// The list with those of the items behind it that it does not hold yet.
pub open spec fn add_fresh(visited: Seq<u64>, items: Seq<u64>) -> Seq<u64>
    decreases items.len(),
{
    if items.len() == 0 {
        visited
    } else {
        let front = add_fresh(visited, items.drop_last());
        if front.contains(items.last()) {
            front
        } else {
            front.push(items.last())
        }
    }
}

/// The breadth-first order of the descendants of a context after `k` of them
/// were visited: the children of the context, then, for each visited
/// descendant in turn, those of its children that the order does not hold
/// yet.
pub open spec fn breadth_first(entries: Seq<(u64, IndexEntryView)>, parent: u64, k: nat) -> Seq<u64>
    decreases k,
{
    if k == 0 {
        add_fresh(Seq::empty(), child_ids(entries, parent))
    } else {
        let prev = breadth_first(entries, parent, (k - 1) as nat);
        if k - 1 < prev.len() {
            add_fresh(prev, child_ids(entries, prev[k - 1]))
        } else {
            prev
        }
    }
}

/// Whether a cap stops the traversal after `k` descendants were visited: as
/// many were visited as the cap allows. A cap of 0 stops it before the
/// first.
pub open spec fn capped(limit: Option<u32>, k: nat) -> bool {
    match limit {
        Some(m) => k >= m,
        None => false,
    }
}

/// Whether the traversal stops after `k` descendants were visited: all that
/// were found are visited, or the cap is reached.
pub open spec fn stops_at(
    entries: Seq<(u64, IndexEntryView)>,
    parent: u64,
    limit: Option<u32>,
    k: nat,
) -> bool {
    k == breadth_first(entries, parent, k).len() || capped(limit, k)
}

/// Whether `found` holds the descendants of a context: those that the
/// breadth-first traversal visits before it first stops, by descending id.
pub open spec fn is_descendants(
    entries: Seq<(u64, IndexEntryView)>,
    parent: u64,
    limit: Option<u32>,
    found: Seq<u64>,
) -> bool {
    exists|k: nat|
        {
            &&& #[trigger] stops_at(entries, parent, limit, k)
            &&& forall|j: nat| j < k ==> !stops_at(entries, parent, limit, j)
            &&& k <= breadth_first(entries, parent, k).len()
            &&& found == descending_of(breadth_first(entries, parent, k).take(k as int))
        }
}

/// `add_fresh` keeps the list as a prefix, holds every item, holds only what
/// the list or the items held, and holds nothing twice where the list held
/// nothing twice.
pub proof fn lemma_add_fresh(visited: Seq<u64>, items: Seq<u64>)
    ensures
        visited.is_prefix_of(add_fresh(visited, items)),
        forall|x: u64| items.contains(x) ==> #[trigger] add_fresh(visited, items).contains(x),
        forall|x: u64| #[trigger]
            add_fresh(visited, items).contains(x) ==> visited.contains(x) || items.contains(x),
        visited.no_duplicates() ==> add_fresh(visited, items).no_duplicates(),
    decreases items.len(),
{
    if items.len() > 0 {
        let front_items = items.drop_last();
        let front = add_fresh(visited, front_items);
        let all = add_fresh(visited, items);
        let last = items.last();
        lemma_add_fresh(visited, front_items);
        assert forall|x: u64| items.contains(x) implies #[trigger] all.contains(x) by {
            let i = choose|i: int| 0 <= i < items.len() && items[i] == x;
            if i < front_items.len() {
                assert(front_items[i] == x);
                assert(front_items.contains(x));
                assert(front.contains(x));
                let j = choose|j: int| 0 <= j < front.len() && front[j] == x;
                assert(all[j] == x);
            } else if front.contains(last) {
            } else {
                assert(all[front.len() as int] == x);
            }
        }
        assert forall|x: u64| #[trigger] all.contains(x) implies visited.contains(x)
            || items.contains(x) by {
            let j = choose|j: int| 0 <= j < all.len() && all[j] == x;
            if j < front.len() {
                assert(front[j] == x);
                assert(front.contains(x));
                if front_items.contains(x) {
                    let i = choose|i: int| 0 <= i < front_items.len() && front_items[i] == x;
                    assert(items[i] == x);
                }
            } else {
                assert(items[items.len() - 1] == x);
            }
        }
        if visited.no_duplicates() && !front.contains(last) {
            assert forall|i: int, j: int|
                0 <= i < all.len() && 0 <= j < all.len() && i != j implies all[i] != all[j] by {
                if i < front.len() && j < front.len() {
                } else if i < front.len() {
                    assert(front.contains(front[i]));
                } else if j < front.len() {
                    assert(front.contains(front[j]));
                }
            }
        }
    }
}

/// The order after `i` visits is a prefix of the order after `k`, where
/// `i` is at most `k`.
pub proof fn lemma_breadth_first_prefix(
    entries: Seq<(u64, IndexEntryView)>,
    parent: u64,
    i: nat,
    k: nat,
)
    requires
        i <= k,
    ensures
        breadth_first(entries, parent, i).is_prefix_of(breadth_first(entries, parent, k)),
    decreases k - i,
{
    if i < k {
        lemma_breadth_first_prefix(entries, parent, i, (k - 1) as nat);
        let prev = breadth_first(entries, parent, (k - 1) as nat);
        if k - 1 < prev.len() {
            lemma_add_fresh(prev, child_ids(entries, prev[k - 1]));
        }
    }
}

/// The order holds nothing twice, and holds contexts of the entries only.
pub proof fn lemma_breadth_first_sound(entries: Seq<(u64, IndexEntryView)>, parent: u64, k: nat)
    ensures
        breadth_first(entries, parent, k).no_duplicates(),
        forall|x: u64| #[trigger]
            breadth_first(entries, parent, k).contains(x) ==> tags_of(entries).contains(x),
    decreases k,
{
    if k == 0 {
        let kids = child_ids(entries, parent);
        lemma_add_fresh(Seq::empty(), kids);
        lemma_child_ids(entries, parent);
        assert forall|x: u64| #[trigger]
            breadth_first(entries, parent, k).contains(x) implies tags_of(entries).contains(
            x,
        ) by {
            assert(kids.contains(x));
            assert(children_of(entries, parent).contains(x));
        }
    } else {
        lemma_breadth_first_sound(entries, parent, (k - 1) as nat);
        let prev = breadth_first(entries, parent, (k - 1) as nat);
        if k - 1 < prev.len() {
            let kids = child_ids(entries, prev[k - 1]);
            lemma_add_fresh(prev, kids);
            lemma_child_ids(entries, prev[k - 1]);
            assert forall|x: u64| #[trigger]
                breadth_first(entries, parent, k).contains(x) implies tags_of(entries).contains(
                x,
            ) by {
                if !prev.contains(x) {
                    assert(kids.contains(x));
                    assert(children_of(entries, prev[k - 1]).contains(x));
                }
            }
        }
    }
}

/// The listed children of a context are its children: the same contexts, by
/// descending id.
pub proof fn lemma_child_ids(entries: Seq<(u64, IndexEntryView)>, parent: u64)
    ensures
        crate::order::in_descending_order(children_of(entries, parent), child_ids(entries, parent)),
        forall|x: u64|
            child_ids(entries, parent).contains(x) == children_of(entries, parent).contains(x),
        forall|x: u64| #[trigger]
            child_ids(entries, parent).contains(x) ==> tags_of(entries).contains(x),
{
    let kids = children_of(entries, parent);
    let witness_exists = exists|t: Seq<u64>| crate::order::in_descending_order(kids, t);
    lemma_sorted_exists(kids);
    lemma_children_of(entries, parent);
    assert forall|x: u64| child_ids(entries, parent).contains(x) == kids.contains(x) by {
        lemma_same_numbers(child_ids(entries, parent), kids, x);
    }
    assert forall|x: u64| #[trigger] child_ids(entries, parent).contains(x) implies tags_of(
        entries,
    ).contains(x) by {
        assert(kids.contains(x));
    }
}

/// Every list of numbers can be put in descending order.
pub proof fn lemma_sorted_exists(s: Seq<u64>)
    ensures
        exists|t: Seq<u64>| crate::order::in_descending_order(s, t),
    decreases s.len(),
{
    broadcast use vstd::seq_lib::to_multiset_build, vstd::seq_lib::to_multiset_insert;

    if s.len() == 0 {
        assert(crate::order::in_descending_order(s, s));
    } else {
        let front = s.drop_last();
        lemma_sorted_exists(front);
        let t = choose|t: Seq<u64>| crate::order::in_descending_order(front, t);
        let x = s.last();
        let p = first_below(t, x, 0);
        lemma_first_below(t, x, 0);
        let u = t.insert(p, x);
        vstd::seq_lib::to_multiset_insert(t, p, x);
        assert(s =~= front.push(x));
        vstd::seq_lib::to_multiset_build(front, x);
        assert forall|a: int, b: int| 0 <= a < b < u.len() implies u[a] >= u[b] by {
            if b < p {
            } else if b == p {
            } else if a < p {
                assert(u[b] == t[b - 1]);
            } else if a == p {
                assert(u[b] == t[b - 1]);
                assert(t[p] >= t[b - 1] || p == b - 1);
            } else {
                assert(u[a] == t[a - 1] && u[b] == t[b - 1]);
            }
        }
        assert(crate::order::in_descending_order(s, u));
    }
}

/// The first place at or behind `from` whose number is below `x`.
pub open spec fn first_below(t: Seq<u64>, x: u64, from: int) -> int
    decreases t.len() - from,
{
    if from < 0 || from >= t.len() {
        t.len() as int
    } else if t[from] < x {
        from
    } else {
        first_below(t, x, from + 1)
    }
}

proof fn lemma_first_below(t: Seq<u64>, x: u64, from: int)
    requires
        0 <= from <= t.len(),
    ensures
        from <= first_below(t, x, from) <= t.len(),
        forall|k: int| from <= k < first_below(t, x, from) ==> t[k] >= x,
        first_below(t, x, from) < t.len() ==> t[first_below(t, x, from)] < x,
    decreases t.len() - from,
{
    if from < t.len() && t[from] >= x {
        lemma_first_below(t, x, from + 1);
    }
}

/// A list that holds nothing twice and only what another list holds is no
/// longer than that list.
pub proof fn lemma_no_longer(a: Seq<u64>, b: Seq<u64>)
    requires
        a.no_duplicates(),
        forall|x: u64| #[trigger] a.contains(x) ==> b.contains(x),
    ensures
        a.len() <= b.len(),
{
    broadcast use vstd::seq_lib::seq_to_set_is_finite;

    a.unique_seq_to_set();
    b.lemma_cardinality_of_set();
    assert(a.to_set().subset_of(b.to_set())) by {
        assert forall|x: u64| a.to_set().contains(x) implies b.to_set().contains(x) by {
            assert(a.contains(x));
        }
    }
    vstd::set_lib::lemma_len_subset(a.to_set(), b.to_set());
}

/// Puts those of the items behind the list that it does not hold yet.
fn push_fresh(visited: &mut Vec<u64>, items: &Vec<u64>)
    ensures
        final(visited)@ == add_fresh(old(visited)@, items@),
{
    let ghost init = visited@;
    let mut i: usize = 0;
    assert(items@.take(0) =~= Seq::empty());
    while i < items.len()
        invariant
            i <= items.len(),
            visited@ == add_fresh(init, items@.take(i as int)),
        decreases items.len() - i,
    {
        assert(items@.take(i + 1).drop_last() =~= items@.take(i as int));
        let x = items[i];
        if !contains_number(visited, x) {
            visited.push(x);
        }
        i += 1;
    }
    assert(items@.take(i as int) =~= items@);
}

impl SecondaryIndexes {
    /// The direct children of a context, by descending id: each once, and
    /// each id larger than the next, where every context has one entry.
    pub fn child_context_ids(&self, parent_context_id: u64) -> (children: Vec<u64>)
        ensures
            children@ == child_ids(self@, parent_context_id),
            forall|c: u64|
                children@.contains(c) == children_of(self@, parent_context_id).contains(c),
            distinct_tags(self@) ==> strictly_descending(children@),
    {
        let found = self.lookup_parent_exact(parent_context_id);
        proof {
            lemma_child_ids(self@, parent_context_id);
            if distinct_tags(self@) {
                lemma_descending_strict(
                    children_of(self@, parent_context_id),
                    child_ids(self@, parent_context_id),
                );
            }
        }
        sort_descending(&found)
    }

    /// The descendants of a context: its children, their children and so on,
    /// found breadth first, each once, up to a cap, and given by descending
    /// id.
    ///
    /// Without a cap, the descendants hold every child of the context and
    /// every child of a descendant. With a cap, no more descendants are
    /// given than the cap says: none for a cap of 0.
    pub fn descendant_context_ids(&self, parent_context_id: u64, limit: Option<u32>) -> (found: Vec<
        u64,
    >)
        ensures
            is_descendants(self@, parent_context_id, limit, found@),
            limit is Some ==> found@.len() <= limit.unwrap(),
            strictly_descending(found@),
            limit is None ==> forall|c: u64|
                children_of(self@, parent_context_id).contains(c) ==> found@.contains(c),
            limit is None ==> forall|x: u64, c: u64|
                found@.contains(x) && children_of(self@, x).contains(c) ==> found@.contains(c),
    {
        let ghost entries = self@;
        let ghost parent = parent_context_id;
        let mut visited: Vec<u64> = Vec::new();
        let seed = self.child_context_ids(parent_context_id);
        push_fresh(&mut visited, &seed);
        let mut next: usize = 0;
        let mut stop = match limit {
            Some(m) => m == 0,
            None => false,
        };
        proof {
            lemma_breadth_first_sound(entries, parent, 0);
            lemma_no_longer(visited@, tags_of(entries));
        }
        while next < visited.len() && !stop
            invariant
                entries == self@,
                parent == parent_context_id,
                next <= visited@.len(),
                visited@.len() <= self.entries@.len(),
                visited@ == breadth_first(entries, parent, next as nat),
                stop ==> capped(limit, next as nat),
                !stop ==> !capped(limit, next as nat),
                limit is Some ==> next <= limit.unwrap(),
                forall|j: nat| j < next ==> !stops_at(entries, parent, limit, j),
                forall|j: nat| j < next ==> j < (#[trigger] breadth_first(entries, parent, j)).len(),
            decreases self.entries@.len() - next, if stop { 0int } else { 1int },
        {
            let kids = self.child_context_ids(visited[next]);
            proof {
                lemma_breadth_first_sound(entries, parent, (next + 1) as nat);
                lemma_no_longer(
                    breadth_first(entries, parent, (next + 1) as nat),
                    tags_of(entries),
                );
                lemma_add_fresh(visited@, kids@);
                assert(!stops_at(entries, parent, limit, next as nat));
            }
            push_fresh(&mut visited, &kids);
            next += 1;
            if let Some(m) = limit {
                if next >= m as usize {
                    stop = true;
                }
            }
        }
        let ghost order = visited@;
        visited.truncate(next);
        assert(visited@ =~= order.take(next as int));
        let found = sort_descending(&visited);
        proof {
            lemma_breadth_first_sound(entries, parent, next as nat);
            assert(order.take(next as int).no_duplicates()) by {
                assert forall|a: int, b: int|
                    0 <= a < next && 0 <= b < next && a != b implies order.take(next as int)[a]
                    != order.take(next as int)[b] by {
                    assert(order[a] != order[b]);
                }
            }
            lemma_descending_strict(visited@, found@);
            assert(stops_at(entries, parent, limit, next as nat));
            if limit is None {
                assert(order.take(next as int) =~= order);
                assert forall|c: u64|
                    children_of(entries, parent).contains(c) implies found@.contains(c) by {
                    lemma_child_ids(entries, parent);
                    lemma_add_fresh(Seq::empty(), child_ids(entries, parent));
                    lemma_breadth_first_prefix(entries, parent, 0, next as nat);
                    let first = breadth_first(entries, parent, 0);
                    assert(first.contains(c));
                    let i = choose|i: int| 0 <= i < first.len() && first[i] == c;
                    assert(order[i] == c);
                    lemma_same_numbers(found@, order, c);
                }
                assert forall|x: u64, c: u64|
                    found@.contains(x) && children_of(entries, x).contains(c) implies found@.contains(
                    c,
                ) by {
                    lemma_same_numbers(found@, order, x);
                    assert(order.contains(x));
                    let i = choose|i: int| 0 <= i < order.len() && order[i] == x;
                    let at_i = breadth_first(entries, parent, i as nat);
                    let after = breadth_first(entries, parent, (i + 1) as nat);
                    lemma_breadth_first_prefix(entries, parent, i as nat, next as nat);
                    lemma_breadth_first_prefix(entries, parent, (i + 1) as nat, next as nat);
                    assert(i < at_i.len());
                    assert(at_i[i] == order[i]);
                    lemma_child_ids(entries, x);
                    assert(child_ids(entries, x).contains(c));
                    lemma_add_fresh(at_i, child_ids(entries, x));
                    assert(after == add_fresh(at_i, child_ids(entries, x)));
                    assert(after.contains(c));
                    let j = choose|j: int| 0 <= j < after.len() && after[j] == c;
                    assert(order[j] == c);
                    assert(order.contains(c));
                    lemma_same_numbers(found@, order, c);
                }
            }
        }
        found
    }
}

/// A query over the indexes.
#[derive(Debug)]
pub enum Query {
    /// The client tag is this text.
    TagIs(String),
    /// The title holds this text.
    TitleContains(String),
    /// This label is among the labels.
    HasLabel(String),
    /// The parent context is this context.
    ParentIs(u64),
    /// The root context is this context.
    RootIs(u64),
    /// The context was made between these times, both included.
    CreatedBetween(u64, u64),
    /// The context belongs to a connected session.
    Live,
    /// Both queries hold.
    Both(Box<Query>, Box<Query>),
    /// One of the queries holds.
    Either(Box<Query>, Box<Query>),
    /// The query does not hold.
    Not(Box<Query>),
}

/// Whether the bytes of `needle` stand in `hay` at the offset `at`.
pub open spec fn run_at(hay: Seq<u8>, needle: Seq<u8>, at: int) -> bool {
    0 <= at <= hay.len() - needle.len() && hay.subrange(at, at + needle.len()) == needle
}

/// Whether a byte string holds another as a run of its bytes.
pub open spec fn has_run(hay: Seq<u8>, needle: Seq<u8>) -> bool {
    exists|i: int| run_at(hay, needle, i)
}

/// Whether a query holds of a context with this entry.
pub open spec fn matches(id: u64, e: IndexEntryView, q: Query, live: Seq<u64>) -> bool
    decreases q,
{
    match q {
        Query::TagIs(t) => e.client_tag == Some(t@),
        Query::TitleContains(t) => match e.title {
            Some(title) => has_run(
                vstd::utf8::encode_utf8(title),
                vstd::utf8::encode_utf8(t@),
            ),
            None => false,
        },
        Query::HasLabel(l) => e.labels.contains(l@),
        Query::ParentIs(p) => e.parent_context_id == Some(p),
        Query::RootIs(r) => e.root_context_id == Some(r),
        Query::CreatedBetween(from, to) => from <= e.created_at <= to,
        Query::Live => live.contains(id),
        Query::Both(a, b) => matches(id, e, *a, live) && matches(id, e, *b, live),
        Query::Either(a, b) => matches(id, e, *a, live) || matches(id, e, *b, live),
        Query::Not(a) => !matches(id, e, *a, live),
    }
}

/// The contexts of which a query holds, in the order of the entries.
pub open spec fn matching(entries: Seq<(u64, IndexEntryView)>, q: Query, live: Seq<u64>) -> Seq<u64>
    decreases entries.len(),
{
    if entries.len() == 0 {
        Seq::empty()
    } else if matches(entries.last().0, entries.last().1, q, live) {
        matching(entries.drop_last(), q, live).push(entries.last().0)
    } else {
        matching(entries.drop_last(), q, live)
    }
}

/// Whether a byte string holds another as a run of its bytes.
pub fn bytes_contain(hay: &[u8], needle: &[u8]) -> (found: bool)
    ensures
        found == has_run(hay@, needle@),
{
    if needle.len() > hay.len() {
        return false;
    }
    let last = hay.len() - needle.len();
    let mut i: usize = 0;
    loop
        invariant
            i <= last,
            last == hay.len() - needle.len(),
            forall|j: int| 0 <= j < i ==> !run_at(hay@, needle@, j),
        decreases last - i,
    {
        if bytes_eq(vstd::slice::slice_subrange(hay, i, i + needle.len()), needle) {
            assert(run_at(hay@, needle@, i as int));
            return true;
        }
        if i == last {
            return false;
        }
        i += 1;
    }
}

fn has_label(labels: &Vec<String>, label: &str) -> (found: bool)
    ensures
        found == texts(labels@).contains(label@),
{
    let ghost tv = texts(labels@);
    let mut i: usize = 0;
    while i < labels.len()
        invariant
            i <= labels.len(),
            tv == texts(labels@),
            forall|j: int| 0 <= j < i ==> tv[j] != label@,
        decreases labels.len() - i,
    {
        if str_eq(labels[i].as_str(), label) {
            assert(tv[i as int] == label@);
            return true;
        }
        i += 1;
    }
    false
}

/// Whether a query holds of a context with this entry.
pub fn evaluate(id: u64, entry: &IndexEntry, q: &Query, live: &Vec<u64>) -> (holds: bool)
    ensures
        holds == matches(id, entry@, *q, live@),
    decreases q,
{
    match q {
        Query::TagIs(t) => match &entry.client_tag {
            Some(tag) => str_eq(tag.as_str(), t.as_str()),
            None => false,
        },
        Query::TitleContains(t) => match &entry.title {
            Some(title) => bytes_contain(title.as_str().as_bytes(), t.as_str().as_bytes()),
            None => false,
        },
        Query::HasLabel(l) => has_label(&entry.labels, l.as_str()),
        Query::ParentIs(p) => match entry.parent_context_id {
            Some(parent) => parent == *p,
            None => false,
        },
        Query::RootIs(r) => match entry.root_context_id {
            Some(root) => root == *r,
            None => false,
        },
        Query::CreatedBetween(from, to) => *from <= entry.created_at && entry.created_at <= *to,
        Query::Live => contains_number(live, id),
        Query::Both(a, b) => evaluate(id, entry, a, live) && evaluate(id, entry, b, live),
        Query::Either(a, b) => evaluate(id, entry, a, live) || evaluate(id, entry, b, live),
        Query::Not(a) => !evaluate(id, entry, a, live),
    }
}

/// The outcome of a search.
#[derive(Debug)]
pub struct SearchResult {
    /// The contexts found, by descending id, up to the limit.
    pub context_ids: Vec<u64>,
    /// How many contexts the query holds of.
    pub total_count: usize,
    /// The time the search took, in milliseconds.
    pub elapsed_ms: u64,
}

/// The contexts that a search gives: those of which the query holds, by
/// descending id, up to the limit.
pub open spec fn search_ids(
    entries: Seq<(u64, IndexEntryView)>,
    q: Query,
    live: Seq<u64>,
    limit: Option<u32>,
) -> Seq<u64> {
    let all = descending_of(matching(entries, q, live));
    match limit {
        Some(m) => if m < all.len() {
            all.take(m as int)
        } else {
            all
        },
        None => all,
    }
}

impl SecondaryIndexes {
    /// Searches the indexes: the contexts of which the query holds, by
    /// descending id, up to the limit, and how many there are in all.
    pub fn search(&self, q: &Query, live: &Vec<u64>, limit: Option<u32>, elapsed_ms: u64) -> (r:
        SearchResult)
        ensures
            r.context_ids@ == search_ids(self@, *q, live@, limit),
            r.total_count == matching(self@, *q, live@).len(),
            r.elapsed_ms == elapsed_ms,
    {
        let ghost all = self@;
        let mut found: Vec<u64> = Vec::new();
        let mut i: usize = 0;
        assert(all.take(0) =~= Seq::empty());
        while i < self.entries.len()
            invariant
                i <= self.entries.len(),
                all == entries_view(self.entries@),
                found@ == matching(all.take(i as int), *q, live@),
            decreases self.entries.len() - i,
        {
            assert(all.take(i + 1).drop_last() =~= all.take(i as int));
            if evaluate(self.entries[i].0, &self.entries[i].1, q, live) {
                found.push(self.entries[i].0);
            }
            i += 1;
        }
        assert(all.take(i as int) =~= all);
        let mut sorted = sort_descending(&found);
        let total_count = sorted.len();
        if let Some(m) = limit {
            if (m as usize) < sorted.len() {
                sorted.truncate(m as usize);
            }
        }
        SearchResult { context_ids: sorted, total_count, elapsed_ms }
    }
}

} // verus!
