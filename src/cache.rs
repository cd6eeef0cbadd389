//! The per-node caches of transforms: query-time functions keyed by
//! `{org}/{name}`, and stream chains keyed by `{org}/{stream_type}/{stream}`.

use vstd::prelude::*;
use crate::functions::{binding_key, expansion, stream_type_name, StreamTransform, Transform};
use crate::text::push_str;
use crate::codec::{transform_record, transform_record_ok};
use crate::json::json_of_bytes;

verus! {

/// A query-time function under its cache key.
#[derive(Debug)]
pub struct QueryEntry {
    pub key: String,
    pub transform: Transform,
}

/// The chain of transforms bound to one stream, under its cache key.
#[derive(Debug)]
pub struct StreamGroup {
    pub key: String,
    pub list: Vec<StreamTransform>,
}

/// Both caches of one node.
#[derive(Debug)]
pub struct FunctionCache {
    pub query_functions: Vec<QueryEntry>,
    pub stream_functions: Vec<StreamGroup>,
}

/// Why a change could not be applied to the cache.
#[derive(Debug, Clone, Copy, PartialEq, Eq, Structural)]
pub enum CacheError {
    /// The key does not lie under the registry prefix, or names no organization.
    BadKey,
    /// The stored value is not a transform record.
    BadValue,
}

// ---------------------------------------------------------------- keys

/// The prefix under which the registry keeps every transform.
pub open spec fn registry_prefix() -> Seq<char> {
    seq!['/', 'f', 'u', 'n', 'c', 't', 'i', 'o', 'n', '/']
}

/// `p` is the position of the first `/` in `s`.
pub open spec fn first_slash_at(s: Seq<char>, p: int) -> bool {
    &&& 0 <= p < s.len()
    &&& s[p] == '/'
    &&& forall|q: int| 0 <= q < p ==> s[q] != '/'
}

/// The part of a registry key after the prefix, if the key has the prefix.
pub open spec fn item_key_of(key: Seq<char>) -> Option<Seq<char>> {
    if registry_prefix().len() <= key.len() && key.take(registry_prefix().len() as int)
        == registry_prefix() {
        Some(key.skip(registry_prefix().len() as int))
    } else {
        None
    }
}

/// The key of a stream chain.
pub open spec fn group_key(org: Seq<char>, st: StreamTransform) -> Seq<char> {
    org + seq!['/'] + stream_type_name(st.stream_type) + seq!['/'] + st.stream@
}

/// The registry key of a transform.
pub open spec fn function_key_spec(org: Seq<char>, name: Seq<char>) -> Seq<char> {
    registry_prefix() + org + seq!['/'] + name
}

fn registry_prefix_str() -> (r: &'static str)
    ensures
        r@ == registry_prefix(),
{
    proof { reveal_strlit("/function/"); }
    "/function/"
}

/// The registry key of transform `name` of organization `org`.
pub fn function_key(org: &str, name: &str) -> (r: String)
    ensures
        r@ == function_key_spec(org@, name@),
{
    let mut k = String::from_str(registry_prefix_str());
    push_str(&mut k, org);
    proof { reveal_strlit("/"); }
    push_str(&mut k, "/");
    push_str(&mut k, name);
    proof { assert(k@ =~= function_key_spec(org@, name@)); }
    k
}

/// The key of the chain that `st` belongs to in organization `org`.
pub fn stream_group_key(org: &str, st: &StreamTransform) -> (r: String)
    ensures
        r@ == group_key(org@, *st),
{
    let mut k = String::from_str(org);
    proof { reveal_strlit("/"); }
    push_str(&mut k, "/");
    push_str(&mut k, st.stream_type.name());
    push_str(&mut k, "/");
    push_str(&mut k, st.stream.as_str());
    proof { assert(k@ =~= group_key(org@, *st)); }
    k
}

/// The prefix under which the registry keeps the transforms of `org`.
pub fn org_prefix(org: &str) -> (r: String)
    ensures
        r@ == registry_prefix() + org@ + seq!['/'],
{
    let mut k = String::from_str(registry_prefix_str());
    push_str(&mut k, org);
    proof { reveal_strlit("/"); }
    push_str(&mut k, "/");
    k
}

/// The prefixes that a full reset of the registry removes: the registry's
/// own and the legacy `/transform/`.
pub fn reset_prefixes() -> (r: Vec<String>)
    ensures
        r@.len() == 2,
        r@[0]@ == registry_prefix(),
        r@[1]@ == seq!['/', 't', 'r', 'a', 'n', 's', 'f', 'o', 'r', 'm', '/'],
{
    proof { reveal_strlit("/transform/"); }
    let mut v: Vec<String> = Vec::new();
    v.push(String::from_str(registry_prefix_str()));
    v.push(String::from_str("/transform/"));
    v
}

/// The item key (`{org}/{name}`) of a registry key, or `None` when the key
/// lacks the registry prefix.
pub fn strip_registry_prefix(key: &str) -> (r: Option<String>)
    ensures
        r matches Some(s) ==> item_key_of(key@) == Some(s@),
        r is None ==> item_key_of(key@) is None,
{
    let pre = registry_prefix_str();
    let n = key.unicode_len();
    if pre.unicode_len() <= n && crate::text::starts_with_at(key, pre, 0) {
        let rest = key.substring_char(10, n);
        Some(String::from_str(rest))
    } else {
        None
    }
}

/// The organization of an item key: everything before its first `/`.
pub fn org_of_item_key(item: &str) -> (r: Option<String>)
    ensures
        r matches Some(o) ==> exists|p: int| first_slash_at(item@, p) && o@ == item@.take(p),
        r is None ==> forall|q: int| 0 <= q < item@.len() ==> item@[q] != '/',
{
    let n = item.unicode_len();
    let mut i: usize = 0;
    while i < n
        invariant
            n == item@.len(),
            i <= n,
            forall|q: int| 0 <= q < i ==> item@[q] != '/',
        decreases n - i,
    {
        if item.get_char(i) == '/' {
            let o = item.substring_char(0, i);
            proof { assert(first_slash_at(item@, i as int)); }
            return Some(String::from_str(o));
        }
        i = i + 1;
    }
    None
}

// ---------------------------------------------------------------- stream chains

/// A chain entry as handed out: the same binding, its transform without
/// bindings of its own (entries are stored that way).
pub open spec fn detached(st: StreamTransform) -> StreamTransform {
    StreamTransform { transform: crate::functions::unbound(st.transform), ..st }
}

/// The position of the first entry of `l` with binding key `k`, or -1.
pub open spec fn index_of_binding(
    l: Seq<StreamTransform>,
    k: (Seq<char>, Seq<char>, crate::functions::StreamType),
) -> int
    decreases l.len(),
{
    if l.len() == 0 {
        -1
    } else {
        let j = index_of_binding(l.drop_last(), k);
        if j >= 0 {
            j
        } else if binding_key(l.last()) == k {
            l.len() - 1
        } else {
            -1
        }
    }
}

/// A chain after a live update with `st`: the first entry with the same
/// binding key is replaced by `st`; without one, `st` is appended.
pub open spec fn upsert_seq(l: Seq<StreamTransform>, st: StreamTransform) -> Seq<StreamTransform> {
    let j = index_of_binding(l, binding_key(st));
    if j >= 0 {
        l.update(j, st)
    } else {
        l.push(st)
    }
}

/// No two entries of a chain share a binding key.
pub open spec fn no_dup(l: Seq<StreamTransform>) -> bool {
    forall|i: int, j: int|
        0 <= i < l.len() && 0 <= j < l.len() && i != j ==> binding_key(#[trigger] l[i])
            != binding_key(#[trigger] l[j])
}

/// The index of the group with key `k`, or -1.
pub open spec fn find_group(gs: Seq<StreamGroup>, k: Seq<char>) -> int {
    if exists|i: int| 0 <= i < gs.len() && (#[trigger] gs[i]).key@ == k {
        choose|i: int| 0 <= i < gs.len() && (#[trigger] gs[i]).key@ == k
    } else {
        -1
    }
}

/// The chain under key `k`; empty when there is none.
pub open spec fn chain_of(gs: Seq<StreamGroup>, k: Seq<char>) -> Seq<StreamTransform> {
    let i = find_group(gs, k);
    if i >= 0 {
        gs[i].list@
    } else {
        Seq::empty()
    }
}

/// All stream chains, as a total map (absent keys map to the empty chain).
pub open spec fn chains(gs: Seq<StreamGroup>) -> Map<Seq<char>, Seq<StreamTransform>> {
    Map::new(|k: Seq<char>| true, |k: Seq<char>| chain_of(gs, k))
}

/// The chains after live updates of organization `org` with `sts`, in order.
pub open spec fn put_chains(
    m: Map<Seq<char>, Seq<StreamTransform>>,
    org: Seq<char>,
    sts: Seq<StreamTransform>,
) -> Map<Seq<char>, Seq<StreamTransform>>
    decreases sts.len(),
{
    if sts.len() == 0 {
        m
    } else {
        let prev = put_chains(m, org, sts.drop_last());
        let k = group_key(org, sts.last());
        prev.insert(k, upsert_seq(prev[k], sts.last()))
    }
}

/// The chains after a bulk load of organization `org` with `sts`, in order:
/// each entry is appended to its chain.
pub open spec fn load_chains(
    m: Map<Seq<char>, Seq<StreamTransform>>,
    org: Seq<char>,
    sts: Seq<StreamTransform>,
) -> Map<Seq<char>, Seq<StreamTransform>>
    decreases sts.len(),
{
    if sts.len() == 0 {
        m
    } else {
        let prev = load_chains(m, org, sts.drop_last());
        let k = group_key(org, sts.last());
        prev.insert(k, prev[k].push(sts.last()))
    }
}

/// Group keys are unique.
pub open spec fn groups_unique(gs: Seq<StreamGroup>) -> bool {
    forall|i: int, j: int|
        0 <= i < gs.len() && 0 <= j < gs.len() && i != j ==> (#[trigger] gs[i]).key@
            != (#[trigger] gs[j]).key@
}

proof fn lemma_find_group(gs: Seq<StreamGroup>, k: Seq<char>, i: int)
    requires
        groups_unique(gs),
        0 <= i < gs.len(),
        gs[i].key@ == k,
    ensures
        find_group(gs, k) == i,
{
}

proof fn lemma_index_of_binding(
    l: Seq<StreamTransform>,
    k: (Seq<char>, Seq<char>, crate::functions::StreamType),
    i: int,
)
    requires
        0 <= i <= l.len(),
        forall|q: int| 0 <= q < i ==> binding_key(#[trigger] l[q]) != k,
        i < l.len() ==> binding_key(l[i]) == k,
    ensures
        index_of_binding(l, k) == if i < l.len() {
            i
        } else {
            -1
        },
    decreases l.len(),
{
    if l.len() > 0 {
        let d = l.drop_last();
        if i < l.len() - 1 {
            lemma_index_of_binding(d, k, i);
        } else {
            lemma_index_of_binding(d, k, d.len() as int);
        }
    }
}

proof fn lemma_index_of_binding_bounds(
    l: Seq<StreamTransform>,
    k: (Seq<char>, Seq<char>, crate::functions::StreamType),
)
    ensures
        -1 <= index_of_binding(l, k) < l.len(),
        index_of_binding(l, k) >= 0 ==> binding_key(l[index_of_binding(l, k)]) == k,
        index_of_binding(l, k) < 0 ==> forall|q: int|
            0 <= q < l.len() ==> binding_key(#[trigger] l[q]) != k,
    decreases l.len(),
{
    if l.len() > 0 {
        lemma_index_of_binding_bounds(l.drop_last(), k);
        assert forall|q: int| 0 <= q < l.len() - 1 implies l.drop_last()[q] == l[q] by {}
    }
}

impl StreamGroup {
    /// Replaces the first entry with `st`'s binding key by `st`, or appends it.
    fn upsert(&mut self, st: StreamTransform)
        ensures
            final(self).key == old(self).key,
            final(self).list@ == upsert_seq(old(self).list@, st),
    {
        let ghost k = binding_key(st);
        let mut i: usize = 0;
        while i < self.list.len()
            invariant
                self.key == old(self).key,
                self.list@ == old(self).list@,
                k == binding_key(st),
                i <= self.list@.len(),
                forall|q: int| 0 <= q < i ==> binding_key(#[trigger] self.list@[q]) != k,
            decreases self.list@.len() - i,
        {
            if self.list[i] == st {
                proof { lemma_index_of_binding(self.list@, k, i as int); }
                self.list.set(i, st);
                return;
            }
            i = i + 1;
        }
        proof { lemma_index_of_binding(self.list@, k, i as int); }
        self.list.push(st);
    }
}

impl FunctionCache {
    /// Both caches empty.
    pub fn new() -> (r: FunctionCache)
        ensures
            r.wf(),
            r.query_view() == Map::<Seq<char>, Transform>::empty(),
            r.stream_view() == Map::new(
                |k: Seq<char>| true,
                |k: Seq<char>| Seq::<StreamTransform>::empty(),
            ),
    {
        let r = FunctionCache { query_functions: Vec::new(), stream_functions: Vec::new() };
        proof {
            assert(r.query_view() =~= Map::<Seq<char>, Transform>::empty());
            assert(r.stream_view() =~= Map::new(
                |k: Seq<char>| true,
                |k: Seq<char>| Seq::<StreamTransform>::empty(),
            ));
        }
        r
    }

    /// Keys of both caches are unique.
    pub open spec fn wf(&self) -> bool {
        &&& groups_unique(self.stream_functions@)
        &&& query_unique(self.query_functions@)
    }

    /// The stream chains, as a total map.
    pub open spec fn stream_view(&self) -> Map<Seq<char>, Seq<StreamTransform>> {
        chains(self.stream_functions@)
    }

    /// The query-time functions by key.
    pub open spec fn query_view(&self) -> Map<Seq<char>, Transform> {
        query_map(self.query_functions@)
    }

    fn find_group_index(&self, key: &String) -> (r: Option<usize>)
        requires
            self.wf(),
        ensures
            r matches Some(i) ==> i < self.stream_functions@.len() && find_group(
                self.stream_functions@,
                key@,
            ) == i && self.stream_functions@[i as int].key@ == key@,
            r is None ==> find_group(self.stream_functions@, key@) == -1,
    {
        let mut i: usize = 0;
        while i < self.stream_functions.len()
            invariant
                self.wf(),
                i <= self.stream_functions@.len(),
                forall|q: int|
                    0 <= q < i ==> (#[trigger] self.stream_functions@[q]).key@ != key@,
            decreases self.stream_functions@.len() - i,
        {
            if self.stream_functions[i].key == *key {
                proof { lemma_find_group(self.stream_functions@, key@, i as int); }
                return Some(i);
            }
            i = i + 1;
        }
        None
    }

    /// The chain of transforms bound to the stream with key `key`, in
    /// application order; empty when none is bound.
    pub fn stream_chain(&self, key: &String) -> (r: Vec<StreamTransform>)
        requires
            self.wf(),
        ensures
            r@.len() == self.stream_view()[key@].len(),
            forall|i: int|
                0 <= i < r@.len() ==> #[trigger] r@[i] == detached(self.stream_view()[key@][i]),
    {
        let mut r: Vec<StreamTransform> = Vec::new();
        match self.find_group_index(key) {
            Some(g) => {
                let list = &self.stream_functions[g].list;
                let mut i: usize = 0;
                while i < list.len()
                    invariant
                        *list == self.stream_functions@[g as int].list,
                        chain_of(self.stream_functions@, key@) == list@,
                        i <= list@.len(),
                        r@.len() == i,
                        forall|q: int| 0 <= q < i ==> #[trigger] r@[q] == detached(list@[q]),
                    decreases list@.len() - i,
                {
                    let e = &list[i];
                    r.push(
                        StreamTransform {
                            transform: e.transform.unbound_copy(),
                            stream: e.stream.clone(),
                            order: e.order,
                            stream_type: e.stream_type,
                        },
                    );
                    i = i + 1;
                }
            },
            None => {},
        }
        r
    }

    /// The index of the chain under `key`, created empty when there is none.
    fn with_group(&mut self, key: String) -> (r: usize)
        requires
            old(self).wf(),
        ensures
            final(self).wf(),
            final(self).query_functions == old(self).query_functions,
            r < final(self).stream_functions@.len(),
            final(self).stream_functions@[r as int].key@ == key@,
            find_group(final(self).stream_functions@, key@) == r,
            final(self).stream_view() == old(self).stream_view(),
            forall|i: int|
                0 <= i < final(self).stream_functions@.len() && i != r ==> (
                #[trigger] final(self).stream_functions@[i]).key@ != key@,
    {
        match self.find_group_index(&key) {
            Some(g) => g,
            None => {
                let ghost old_gs = self.stream_functions@;
                self.stream_functions.push(StreamGroup { key, list: Vec::new() });
                let g = self.stream_functions.len() - 1;
                proof {
                    let gs = self.stream_functions@;
                    assert(forall|i: int| 0 <= i < old_gs.len() ==> gs[i] == old_gs[i]);
                    assert(forall|i: int|
                        0 <= i < old_gs.len() ==> (#[trigger] old_gs[i]).key@ != key@);
                    lemma_find_group(gs, key@, g as int);
                    assert forall|k: Seq<char>| chain_of(gs, k) == chain_of(old_gs, k) by {
                        if k != key@ {
                            if find_group(old_gs, k) >= 0 {
                                lemma_find_group(gs, k, find_group(old_gs, k));
                            } else {
                                assert(forall|i: int| 0 <= i < gs.len() ==> (#[trigger] gs[i]).key@ != k);
                            }
                        }
                    }
                    assert(chains(gs) =~= chains(old_gs));
                }
                g
            },
        }
    }

    /// Live update of one stream binding: replaces the entry with the same
    /// binding key in its chain, or appends it.
    pub fn upsert_stream_transform(&mut self, org: &str, st: StreamTransform)
        requires
            old(self).wf(),
        ensures
            final(self).wf(),
            final(self).query_view() == old(self).query_view(),
            final(self).stream_view() == old(self).stream_view().insert(
                group_key(org@, st),
                upsert_seq(old(self).stream_view()[group_key(org@, st)], st),
            ),
    {
        let key = stream_group_key(org, &st);
        let g = self.with_group(key);
        let ghost mid = self.stream_functions@;
        let ghost st2 = st;
        let mut group = self.stream_functions.remove(g);
        group.upsert(st);
        self.stream_functions.insert(g, group);
        proof { self.lemma_replaced_group(mid, g as int, org@, st2); }
    }

    /// Bulk load of one stream binding: appends it to its chain.
    pub fn append_stream_transform(&mut self, org: &str, st: StreamTransform)
        requires
            old(self).wf(),
        ensures
            final(self).wf(),
            final(self).query_view() == old(self).query_view(),
            final(self).stream_view() == old(self).stream_view().insert(
                group_key(org@, st),
                old(self).stream_view()[group_key(org@, st)].push(st),
            ),
    {
        let key = stream_group_key(org, &st);
        let g = self.with_group(key);
        let ghost mid = self.stream_functions@;
        let ghost st2 = st;
        let mut group = self.stream_functions.remove(g);
        group.list.push(st);
        self.stream_functions.insert(g, group);
        proof { self.lemma_replaced_group(mid, g as int, org@, st2); }
    }

    proof fn lemma_replaced_group(&self, mid: Seq<StreamGroup>, g: int, org: Seq<char>, st: StreamTransform)
        requires
            groups_unique(mid),
            0 <= g < mid.len(),
            mid[g].key@ == group_key(org, st),
            self.stream_functions@.len() == mid.len(),
            self.stream_functions@[g].key == mid[g].key,
            forall|i: int| 0 <= i < mid.len() && i != g ==> self.stream_functions@[i] == mid[i],
        ensures
            groups_unique(self.stream_functions@),
            chains(self.stream_functions@) == chains(mid).insert(
                group_key(org, st),
                self.stream_functions@[g].list@,
            ),
    {
        let gs = self.stream_functions@;
        let k0 = group_key(org, st);
        assert forall|i: int, j: int|
            0 <= i < gs.len() && 0 <= j < gs.len() && i != j implies (#[trigger] gs[i]).key@
            != (#[trigger] gs[j]).key@ by {
            assert(mid[i].key@ != mid[j].key@);
        }
        lemma_find_group(gs, k0, g);
        lemma_find_group(mid, k0, g);
        assert forall|k: Seq<char>| k != k0 implies chain_of(gs, k) == chain_of(mid, k) by {
            if find_group(mid, k) >= 0 {
                lemma_find_group(gs, k, find_group(mid, k));
            } else {
                assert forall|i: int| 0 <= i < gs.len() implies (#[trigger] gs[i]).key@ != k by {
                    if i != g {
                        assert(gs[i] == mid[i]);
                    }
                }
            }
        }
        assert(chains(gs) =~= chains(mid).insert(k0, gs[g].list@));
    }
}

// ---------------------------------------------------------------- query-time functions

/// Keys of the query-time cache are unique.
pub open spec fn query_unique(es: Seq<QueryEntry>) -> bool {
    forall|i: int, j: int|
        0 <= i < es.len() && 0 <= j < es.len() && i != j ==> (#[trigger] es[i]).key@
            != (#[trigger] es[j]).key@
}

/// The query-time functions by key.
pub open spec fn query_map(es: Seq<QueryEntry>) -> Map<Seq<char>, Transform> {
    Map::new(
        |k: Seq<char>| exists|i: int| 0 <= i < es.len() && (#[trigger] es[i]).key@ == k,
        |k: Seq<char>|
            es[choose|i: int| 0 <= i < es.len() && (#[trigger] es[i]).key@ == k].transform,
    )
}

impl FunctionCache {
    fn find_query_index(&self, key: &String) -> (r: Option<usize>)
        ensures
            r matches Some(i) ==> i < self.query_functions@.len()
                && self.query_functions@[i as int].key@ == key@,
            r is None ==> forall|q: int|
                0 <= q < self.query_functions@.len() ==> (
                #[trigger] self.query_functions@[q]).key@ != key@,
    {
        let mut i: usize = 0;
        while i < self.query_functions.len()
            invariant
                i <= self.query_functions@.len(),
                forall|q: int|
                    0 <= q < i ==> (#[trigger] self.query_functions@[q]).key@ != key@,
            decreases self.query_functions@.len() - i,
        {
            if self.query_functions[i].key == *key {
                return Some(i);
            }
            i = i + 1;
        }
        None
    }

    /// Stores query-time function `t` under `key`, replacing any earlier one.
    pub fn insert_query_function(&mut self, key: String, t: Transform)
        requires
            old(self).wf(),
        ensures
            final(self).wf(),
            final(self).stream_view() == old(self).stream_view(),
            final(self).query_view() == old(self).query_view().insert(key@, t),
    {
        let ghost old_es = self.query_functions@;
        let ghost k = key@;
        let ghost t2 = t;
        match self.find_query_index(&key) {
            Some(i) => {
                self.query_functions.set(i, QueryEntry { key, transform: t });
                proof {
                    let es = self.query_functions@;
                    assert(query_unique(es)) by {
                        assert forall|a: int, b: int|
                            0 <= a < es.len() && 0 <= b < es.len() && a != b implies (
                            #[trigger] es[a]).key@ != (#[trigger] es[b]).key@ by {
                            assert(old_es[a].key@ != old_es[b].key@);
                        }
                    }
                    assert(query_map(es) =~= query_map(old_es).insert(k, t2)) by {
                        assert forall|kk: Seq<char>| #[trigger] query_map(es).contains_key(kk) ==
                            query_map(old_es).insert(k, t2).contains_key(kk) by {
                            if kk == k {
                                assert(es[i as int].key@ == kk);
                                assert(old_es[i as int].key@ == kk);
                            } else if query_map(old_es).contains_key(kk) {
                                let j = choose|j: int| 0 <= j < old_es.len() && (#[trigger] old_es[j]).key@ == kk;
                                assert(es[j].key@ == kk);
                            }
                        }
                        assert forall|kk: Seq<char>| #[trigger] query_map(es).contains_key(kk)
                            implies query_map(es)[kk] == query_map(old_es).insert(k, t2)[kk] by {
                            let j = choose|j: int| 0 <= j < es.len() && (#[trigger] es[j]).key@ == kk;
                            if kk != k {
                                let j0 = choose|j: int| 0 <= j < old_es.len() && (#[trigger] old_es[j]).key@ == kk;
                                assert(es[j0].key@ == kk);
                            }
                        }
                    }
                }
            },
            None => {
                self.query_functions.push(QueryEntry { key, transform: t });
                proof {
                    let es = self.query_functions@;
                    assert(forall|j: int| 0 <= j < old_es.len() ==> es[j] == old_es[j]);
                    assert(query_map(es) =~= query_map(old_es).insert(k, t2)) by {
                        assert forall|kk: Seq<char>| #[trigger] query_map(es).contains_key(kk) ==
                            query_map(old_es).insert(k, t2).contains_key(kk) by {
                            if kk == k {
                                assert(es[old_es.len() as int].key@ == kk);
                            } else if query_map(old_es).contains_key(kk) {
                                let j = choose|j: int| 0 <= j < old_es.len() && (#[trigger] old_es[j]).key@ == kk;
                                assert(es[j].key@ == kk);
                            }
                        }
                        assert forall|kk: Seq<char>| #[trigger] query_map(es).contains_key(kk)
                            implies query_map(es)[kk] == query_map(old_es).insert(k, t2)[kk] by {
                            let j = choose|j: int| 0 <= j < es.len() && (#[trigger] es[j]).key@ == kk;
                            if kk != k {
                                let j0 = choose|j: int| 0 <= j < old_es.len() && (#[trigger] old_es[j]).key@ == kk;
                                assert(es[j0].key@ == kk);
                            }
                        }
                    }
                }
            },
        }
    }

    /// Removes the query-time function under `key`, if any.
    pub fn remove_query_function(&mut self, key: &String)
        requires
            old(self).wf(),
        ensures
            final(self).wf(),
            final(self).stream_view() == old(self).stream_view(),
            final(self).query_view() == old(self).query_view().remove(key@),
    {
        let ghost old_es = self.query_functions@;
        match self.find_query_index(key) {
            Some(i) => {
                self.query_functions.remove(i);
                proof {
                    let es = self.query_functions@;
                    assert(forall|j: int| 0 <= j < i ==> es[j] == old_es[j]);
                    assert(forall|j: int| i <= j < es.len() ==> es[j] == old_es[j + 1]);
                    assert(query_unique(es)) by {
                        assert forall|a: int, b: int|
                            0 <= a < es.len() && 0 <= b < es.len() && a != b implies (
                            #[trigger] es[a]).key@ != (#[trigger] es[b]).key@ by {
                            let a0 = if a < i { a } else { a + 1 };
                            let b0 = if b < i { b } else { b + 1 };
                            assert(old_es[a0].key@ != old_es[b0].key@);
                        }
                    }
                    assert(query_map(es) =~= query_map(old_es).remove(key@)) by {
                        assert forall|kk: Seq<char>| #[trigger] query_map(es).contains_key(kk) ==
                            query_map(old_es).remove(key@).contains_key(kk) by {
                            if query_map(es).contains_key(kk) {
                                let j = choose|j: int| 0 <= j < es.len() && (#[trigger] es[j]).key@ == kk;
                                let j0 = if j < i { j } else { j + 1 };
                                assert(old_es[j0].key@ == kk);
                                assert(j0 != i);
                            }
                            if kk != key@ && query_map(old_es).contains_key(kk) {
                                let j0 = choose|j: int| 0 <= j < old_es.len() && (#[trigger] old_es[j]).key@ == kk;
                                let j = if j0 < i { j0 } else { j0 - 1 };
                                assert(es[j].key@ == kk);
                            }
                        }
                        assert forall|kk: Seq<char>| #[trigger] query_map(es).contains_key(kk)
                            implies query_map(es)[kk] == query_map(old_es).remove(key@)[kk] by {
                            let j = choose|j: int| 0 <= j < es.len() && (#[trigger] es[j]).key@ == kk;
                            let j0 = if j < i { j } else { j + 1 };
                            assert(old_es[j0].key@ == kk);
                        }
                    }
                }
            },
            None => {
                proof {
                    assert(query_map(old_es) =~= query_map(old_es).remove(key@));
                }
            },
        }
    }
}

// ---------------------------------------------------------------- change events

/// The organization of an item key `{org}/{name}`, when it has a `/`.
pub open spec fn org_part(item: Seq<char>) -> Option<Seq<char>> {
    if exists|p: int| first_slash_at(item, p) {
        Some(item.take(choose|p: int| first_slash_at(item, p)))
    } else {
        None
    }
}

proof fn lemma_first_slash_unique(s: Seq<char>, p: int, q: int)
    requires
        first_slash_at(s, p),
        first_slash_at(s, q),
    ensures
        p == q,
{
    if p < q {
        assert(s[p] == '/');
    } else if q < p {
        assert(s[q] == '/');
    }
}

/// The item key and organization of a registry key, or `BadKey`.
pub fn split_registry_key(key: &str) -> (r: Result<(String, String), CacheError>)
    ensures
        r matches Ok((item, org)) ==> item_key_of(key@) == Some(item@) && org_part(item@) == Some(
            org@,
        ),
        r is Err ==> r == Err::<(String, String), CacheError>(CacheError::BadKey) && (
        item_key_of(key@) is None || org_part(item_key_of(key@)->0) is None),
{
    match strip_registry_prefix(key) {
        None => Err(CacheError::BadKey),
        Some(item) => match org_of_item_key(item.as_str()) {
            Some(org) => {
                proof {
                    let p = choose|p: int| first_slash_at(item@, p) && org@ == item@.take(p);
                    let c = choose|p: int| first_slash_at(item@, p);
                    lemma_first_slash_unique(item@, p, c);
                }
                Ok((item, org))
            },
            None => Err(CacheError::BadKey),
        },
    }
}

/// A change to the registry as the watch stream delivers it.
#[derive(Debug)]
pub enum FunctionEvent {
    /// A transform record was written under `key`.
    Put { key: String, value: Vec<u8> },
    /// The record under `key` was removed.
    Delete { key: String },
    /// A heartbeat.
    Empty,
}

/// The caches after a live write of `t` under item key `item` of organization
/// `org`: a stream-bound transform updates each of its chains in place, a
/// query-time one replaces the entry under its item key.
pub open spec fn after_put(
    c: (Map<Seq<char>, Transform>, Map<Seq<char>, Seq<StreamTransform>>),
    item: Seq<char>,
    org: Seq<char>,
    t: Transform,
) -> (Map<Seq<char>, Transform>, Map<Seq<char>, Seq<StreamTransform>>) {
    if t.streams is Some {
        (c.0, put_chains(c.1, org, expansion(t)))
    } else {
        (c.0.insert(item, t), c.1)
    }
}

/// The caches after a bulk load of `t`: like a live write, but stream entries
/// are appended to their chains.
pub open spec fn after_load(
    c: (Map<Seq<char>, Transform>, Map<Seq<char>, Seq<StreamTransform>>),
    item: Seq<char>,
    org: Seq<char>,
    t: Transform,
) -> (Map<Seq<char>, Transform>, Map<Seq<char>, Seq<StreamTransform>>) {
    if t.streams is Some {
        (c.0, load_chains(c.1, org, expansion(t)))
    } else {
        (c.0.insert(item, t), c.1)
    }
}

impl FunctionCache {
    /// Both caches together.
    pub open spec fn view_pair(&self) -> (
        Map<Seq<char>, Transform>,
        Map<Seq<char>, Seq<StreamTransform>>,
    ) {
        (self.query_view(), self.stream_view())
    }

    fn put_stream_transforms(&mut self, org: &str, sts: Vec<StreamTransform>, append: bool)
        requires
            old(self).wf(),
        ensures
            final(self).wf(),
            final(self).query_view() == old(self).query_view(),
            append ==> final(self).stream_view() == load_chains(old(self).stream_view(), org@, sts@),
            !append ==> final(self).stream_view() == put_chains(old(self).stream_view(), org@, sts@),
    {
        let ghost all = sts@;
        let n = sts.len();
        let mut sts = sts;
        let mut i: usize = 0;
        while sts.len() > 0
            invariant
                self.wf(),
                self.query_view() == old(self).query_view(),
                all.len() == n,
                i + sts@.len() == all.len(),
                sts@ == all.skip(i as int),
                append ==> self.stream_view() == load_chains(old(self).stream_view(), org@, all.take(i as int)),
                !append ==> self.stream_view() == put_chains(old(self).stream_view(), org@, all.take(i as int)),
            decreases sts@.len(),
        {
            let st = sts.remove(0);
            proof {
                assert(st == all[i as int]);
                assert(all.take(i + 1).drop_last() =~= all.take(i as int));
            }
            if append {
                self.append_stream_transform(org, st);
            } else {
                self.upsert_stream_transform(org, st);
            }
            i = i + 1;
            proof { assert(sts@ =~= all.skip(i as int)); }
        }
        proof { assert(all.take(i as int) =~= all); }
    }

    /// Live write of transform `t` under registry key `key`.
    pub fn apply_put(&mut self, key: &str, t: Transform) -> (r: Result<(), CacheError>)
        requires
            old(self).wf(),
        ensures
            final(self).wf(),
            r is Ok <==> (item_key_of(key@) is Some && org_part(item_key_of(key@)->0) is Some),
            r is Err ==> r == Err::<(), CacheError>(CacheError::BadKey) && final(self).view_pair()
                == old(self).view_pair(),
            r is Ok ==> final(self).view_pair() == after_put(
                old(self).view_pair(),
                item_key_of(key@)->0,
                org_part(item_key_of(key@)->0)->0,
                t,
            ),
    {
        let (item, org) = split_registry_key(key)?;
        if t.is_stream_bound() {
            let sts = t.to_stream_transform();
            self.put_stream_transforms(org.as_str(), sts, false);
        } else {
            self.insert_query_function(item, t);
        }
        Ok(())
    }

    /// Bulk-load entry: transform `t` as listed under registry key `key`.
    pub fn load_entry(&mut self, key: &str, t: Transform) -> (r: Result<(), CacheError>)
        requires
            old(self).wf(),
        ensures
            final(self).wf(),
            r is Ok <==> (item_key_of(key@) is Some && org_part(item_key_of(key@)->0) is Some),
            r is Err ==> r == Err::<(), CacheError>(CacheError::BadKey) && final(self).view_pair()
                == old(self).view_pair(),
            r is Ok ==> final(self).view_pair() == after_load(
                old(self).view_pair(),
                item_key_of(key@)->0,
                org_part(item_key_of(key@)->0)->0,
                t,
            ),
    {
        let (item, org) = split_registry_key(key)?;
        if t.is_stream_bound() {
            let sts = t.to_stream_transform();
            self.put_stream_transforms(org.as_str(), sts, true);
        } else {
            self.insert_query_function(item, t);
        }
        Ok(())
    }

    /// Live removal of the record under registry key `key`: the query-time
    /// entry under its item key goes; stream chains are left as they are.
    pub fn apply_delete(&mut self, key: &str) -> (r: Result<(), CacheError>)
        requires
            old(self).wf(),
        ensures
            final(self).wf(),
            r is Ok <==> item_key_of(key@) is Some,
            r is Err ==> r == Err::<(), CacheError>(CacheError::BadKey) && final(self).view_pair()
                == old(self).view_pair(),
            r is Ok ==> final(self).view_pair() == (
                old(self).query_view().remove(item_key_of(key@)->0),
                old(self).stream_view(),
            ),
    {
        match strip_registry_prefix(key) {
            Some(item) => {
                self.remove_query_function(&item);
                Ok(())
            },
            None => Err(CacheError::BadKey),
        }
    }
}

/// Both caches together: query-time functions and stream chains.
pub type Caches = (Map<Seq<char>, Transform>, Map<Seq<char>, Seq<StreamTransform>>);

/// A registry key with the prefix and an organization.
pub open spec fn key_ok(k: Seq<char>) -> bool {
    item_key_of(k) is Some && org_part(item_key_of(k)->0) is Some
}

/// Stored bytes that serde_json reads as a transform record.
pub open spec fn value_ok(v: Seq<u8>) -> bool {
    json_of_bytes(v) matches Some(j) && transform_record_ok(j)
}

/// A listed entry with a well-formed key and value.
pub open spec fn entry_ok(e: (String, Vec<u8>)) -> bool {
    key_ok(e.0@) && value_ok(e.1@)
}

/// The error for a malformed entry: a bad key first, else a bad value.
pub open spec fn entry_error(e: (String, Vec<u8>)) -> CacheError {
    if key_ok(e.0@) {
        CacheError::BadValue
    } else {
        CacheError::BadKey
    }
}

/// The transforms `ts` are what the values of listing `l` read as, one each.
pub open spec fn reads_as(l: Seq<(String, Vec<u8>)>, ts: Seq<Transform>) -> bool {
    &&& ts.len() == l.len()
    &&& forall|i: int| 0 <= i < l.len() ==> transform_record(json_of_bytes((#[trigger] l[i]).1@)->0, ts[i])
}

/// Caches `c` after a bulk load of listing `l`, whose values read as `ts`,
/// entry by entry in listing order.
pub open spec fn load_fold(c: Caches, l: Seq<(String, Vec<u8>)>, ts: Seq<Transform>) -> Caches
    decreases l.len(),
{
    if l.len() == 0 || ts.len() != l.len() {
        c
    } else {
        let e = l.last();
        after_load(
            load_fold(c, l.drop_last(), ts.drop_last()),
            item_key_of(e.0@)->0,
            org_part(item_key_of(e.0@)->0)->0,
            ts.last(),
        )
    }
}

impl FunctionCache {
    /// Applies one change event. A `Put` whose key is malformed fails with
    /// `BadKey`, one whose value is not a transform record with `BadValue`;
    /// either changes nothing.
    pub fn apply_event(&mut self, ev: FunctionEvent) -> (r: Result<(), CacheError>)
        requires
            old(self).wf(),
        ensures
            final(self).wf(),
            r is Err ==> final(self).view_pair() == old(self).view_pair(),
            ev is Empty ==> r is Ok && final(self).view_pair() == old(self).view_pair(),
            ev matches FunctionEvent::Delete { key } ==> {
                &&& (r is Ok <==> item_key_of(key@) is Some)
                &&& r is Err ==> r == Err::<(), CacheError>(CacheError::BadKey)
                &&& r is Ok ==> final(self).view_pair() == (
                    old(self).query_view().remove(item_key_of(key@)->0),
                    old(self).stream_view(),
                )
            },
            ev matches FunctionEvent::Put { key, value } ==> {
                &&& (r == Err::<(), CacheError>(CacheError::BadKey) <==> !key_ok(key@))
                &&& (r == Err::<(), CacheError>(CacheError::BadValue) <==> (key_ok(key@)
                    && !value_ok(value@)))
                &&& r is Ok ==> exists|t: Transform|
                    transform_record(json_of_bytes(value@)->0, t) && final(self).view_pair()
                        == after_put(
                        old(self).view_pair(),
                        item_key_of(key@)->0,
                        org_part(item_key_of(key@)->0)->0,
                        t,
                    )
            },
    {
        match ev {
            FunctionEvent::Put { key, value } => {
                split_registry_key(key.as_str())?;
                match Transform::from_json(value.as_slice()) {
                    Some(t) => self.apply_put(key.as_str(), t),
                    None => Err(CacheError::BadValue),
                }
            },
            FunctionEvent::Delete { key } => self.apply_delete(key.as_str()),
            FunctionEvent::Empty => Ok(()),
        }
    }

    /// Bulk load of a registry listing, entry by entry in order. It stops at
    /// the first malformed entry, with `BadKey` or `BadValue`.
    pub fn load_listing(&mut self, listing: Vec<(String, Vec<u8>)>) -> (r: Result<(), CacheError>)
        requires
            old(self).wf(),
        ensures
            final(self).wf(),
            r is Ok <==> forall|i: int| 0 <= i < listing@.len() ==> entry_ok(#[trigger] listing@[i]),
            r is Ok ==> exists|ts: Seq<Transform>|
                reads_as(listing@, ts) && final(self).view_pair() == load_fold(
                    old(self).view_pair(),
                    listing@,
                    ts,
                ),
            r matches Err(e) ==> exists|i: int|
                0 <= i < listing@.len() && (forall|k: int| 0 <= k < i ==> entry_ok(#[trigger] listing@[k]))
                    && !entry_ok(listing@[i]) && e == entry_error(listing@[i]),
    {
        let mut i: usize = 0;
        let ghost ts: Seq<Transform> = Seq::empty();
        proof { assert(listing@.take(0) =~= Seq::<(String, Vec<u8>)>::empty()); }
        while i < listing.len()
            invariant
                self.wf(),
                i <= listing@.len(),
                forall|k: int| 0 <= k < i ==> entry_ok(#[trigger] listing@[k]),
                reads_as(listing@.take(i as int), ts),
                self.view_pair() == load_fold(old(self).view_pair(), listing@.take(i as int), ts),
            decreases listing@.len() - i,
        {
            let key = listing[i].0.as_str();
            let ghost mid = self.view_pair();
            match Transform::from_json(listing[i].1.as_slice()) {
                Some(t) => {
                    let ghost tg = t;
                    match self.load_entry(key, t) {
                        Ok(()) => {
                            proof {
                                let l = listing@.take(i + 1);
                                assert(l.drop_last() =~= listing@.take(i as int));
                                assert(l.last() == listing@[i as int]);
                                assert(key@ == l.last().0@);
                                let ts2 = ts.push(tg);
                                assert(ts2.drop_last() =~= ts);
                                assert forall|k: int| 0 <= k < l.len() implies transform_record(
                                    json_of_bytes((#[trigger] l[k]).1@)->0,
                                    ts2[k],
                                ) by {
                                    if k < i {
                                        assert(l[k] == listing@.take(i as int)[k]);
                                    }
                                }
                                ts = ts2;
                            }
                        },
                        Err(e) => {
                            proof { assert(!entry_ok(listing@[i as int])); }
                            return Err(e);
                        },
                    }
                },
                None => {
                    proof { assert(!entry_ok(listing@[i as int])); }
                    match split_registry_key(key) {
                        Ok(_) => return Err(CacheError::BadValue),
                        Err(e) => return Err(e),
                    }
                },
            }
            i = i + 1;
        }
        proof { assert(listing@.take(i as int) =~= listing@); }
        Ok(())
    }
}

// ---------------------------------------------------------------- convergence of live writes

proof fn lemma_upsert(l: Seq<StreamTransform>, st: StreamTransform)
    requires
        no_dup(l),
    ensures
        no_dup(upsert_seq(l, st)),
        upsert_seq(l, st).len() >= l.len(),
        exists|p: int| 0 <= p < upsert_seq(l, st).len() && upsert_seq(l, st)[p] == st,
        forall|q: int|
            0 <= q < l.len() && binding_key(l[q]) != binding_key(st) ==> upsert_seq(l, st)[q]
                == l[q],
{
    lemma_index_of_binding_bounds(l, binding_key(st));
    let j = index_of_binding(l, binding_key(st));
    let u = upsert_seq(l, st);
    if j >= 0 {
        assert(u[j] == st);
        assert forall|a: int, b: int|
            0 <= a < u.len() && 0 <= b < u.len() && a != b implies binding_key(#[trigger] u[a])
            != binding_key(#[trigger] u[b]) by {
            assert(binding_key(u[a]) == binding_key(l[a]));
            assert(binding_key(u[b]) == binding_key(l[b]));
        }
    } else {
        assert(u[l.len() as int] == st);
        assert forall|a: int, b: int|
            0 <= a < u.len() && 0 <= b < u.len() && a != b implies binding_key(#[trigger] u[a])
            != binding_key(#[trigger] u[b]) by {
            if a < l.len() && b < l.len() {
                assert(u[a] == l[a] && u[b] == l[b]);
            } else if a < l.len() {
                assert(u[a] == l[a]);
            } else {
                assert(u[b] == l[b]);
            }
        }
    }
}

/// `st` is the last entry of `sts` with its binding key.
pub open spec fn last_of_key(sts: Seq<StreamTransform>, i: int) -> bool {
    &&& 0 <= i < sts.len()
    &&& forall|j: int| i < j < sts.len() ==> binding_key(#[trigger] sts[j]) != binding_key(sts[i])
}

/// Live writes converge: starting from chains without duplicate bindings, a
/// sequence of live writes leaves every chain without duplicates, and the
/// chain of each written binding holds that binding exactly once, as its
/// last write left it.
pub proof fn lemma_put_converges(
    m: Map<Seq<char>, Seq<StreamTransform>>,
    org: Seq<char>,
    sts: Seq<StreamTransform>,
)
    requires
        forall|k: Seq<char>| m.contains_key(k),
        forall|k: Seq<char>| no_dup(#[trigger] m[k]),
    ensures
        forall|k: Seq<char>| put_chains(m, org, sts).contains_key(k),
        forall|k: Seq<char>| no_dup(#[trigger] put_chains(m, org, sts)[k]),
        forall|i: int|
            #[trigger] last_of_key(sts, i) ==> exists|p: int|
                0 <= p < put_chains(m, org, sts)[group_key(org, sts[i])].len() && put_chains(
                    m,
                    org,
                    sts,
                )[group_key(org, sts[i])][p] == sts[i],
    decreases sts.len(),
{
    if sts.len() > 0 {
        let d = sts.drop_last();
        let prev = put_chains(m, org, d);
        let last = sts.last();
        let k0 = group_key(org, last);
        lemma_put_converges(m, org, d);
        lemma_upsert(prev[k0], last);
        let res = put_chains(m, org, sts);
        assert(res == prev.insert(k0, upsert_seq(prev[k0], last)));
        assert forall|k: Seq<char>| no_dup(#[trigger] res[k]) by {
            if k != k0 {
                assert(res[k] == prev[k]);
            }
        }
        assert forall|i: int| #[trigger] last_of_key(sts, i) implies exists|p: int|
            0 <= p < res[group_key(org, sts[i])].len() && res[group_key(org, sts[i])][p]
                == sts[i] by {
            if i == sts.len() - 1 {
                assert(sts[i] == last);
                assert(res[k0] == upsert_seq(prev[k0], last));
            } else {
                assert(d[i] == sts[i]);
                assert forall|j: int| i < j < d.len() implies binding_key(#[trigger] d[j])
                    != binding_key(d[i]) by {
                    assert(d[j] == sts[j]);
                }
                assert(last_of_key(d, i));
                let gk = group_key(org, sts[i]);
                let p = choose|p: int| 0 <= p < prev[gk].len() && prev[gk][p] == d[i];
                if gk == k0 {
                    assert(binding_key(sts[i]) != binding_key(last));
                    assert(res[gk] == upsert_seq(prev[k0], last));
                    assert(0 <= p < res[gk].len() && res[gk][p] == sts[i]);
                } else {
                    assert(res[gk] == prev[gk]);
                    assert(0 <= p < res[gk].len() && res[gk][p] == sts[i]);
                }
            }
        }
    }
}

/// A live write applied again, or applied with new values for the same
/// bindings, never duplicates an entry: after writing `first` and then
/// `second` onto chains without duplicates, each chain is still without
/// duplicates and holds each binding of `second` exactly once, with the
/// values that `second` last gave it.
pub proof fn lemma_rewrite_replaces(
    m: Map<Seq<char>, Seq<StreamTransform>>,
    org: Seq<char>,
    first: Seq<StreamTransform>,
    second: Seq<StreamTransform>,
)
    requires
        forall|k: Seq<char>| m.contains_key(k),
        forall|k: Seq<char>| no_dup(#[trigger] m[k]),
    ensures
        forall|k: Seq<char>|
            no_dup(#[trigger] put_chains(put_chains(m, org, first), org, second)[k]),
        forall|i: int|
            #[trigger] last_of_key(second, i) ==> {
                let c = put_chains(put_chains(m, org, first), org, second)[group_key(
                    org,
                    second[i],
                )];
                exists|p: int|
                    0 <= p < c.len() && c[p] == second[i] && forall|q: int|
                        0 <= q < c.len() && binding_key(#[trigger] c[q]) == binding_key(
                            second[i],
                        ) ==> q == p
            },
{
    lemma_put_converges(m, org, first);
    let m1 = put_chains(m, org, first);
    lemma_put_converges(m1, org, second);
    let m2 = put_chains(m1, org, second);
    assert forall|i: int| #[trigger] last_of_key(second, i) implies {
        let c = m2[group_key(org, second[i])];
        exists|p: int|
            0 <= p < c.len() && c[p] == second[i] && forall|q: int|
                0 <= q < c.len() && binding_key(#[trigger] c[q]) == binding_key(second[i]) ==> q
                    == p
    } by {
        let c = m2[group_key(org, second[i])];
        let p = choose|p: int| 0 <= p < c.len() && c[p] == second[i];
        assert(no_dup(c));
        assert forall|q: int|
            0 <= q < c.len() && binding_key(#[trigger] c[q]) == binding_key(second[i]) implies q
            == p by {
            if q != p {
                assert(binding_key(c[q]) != binding_key(c[p]));
            }
        }
    }
}

/// Repeated Put events of a stream-bound transform converge: starting from
/// chains without duplicate bindings, a Put of `first` followed by a Put of
/// `second` under the same key (the same transform again, or one whose
/// bindings carry new orders) leaves every chain without duplicates, and
/// each binding of `second` stands exactly once in its chain, as `second`
/// gives it.
pub proof fn lemma_repeated_put(c: Caches, item: Seq<char>, org: Seq<char>, first: Transform, second: Transform)
    requires
        forall|k: Seq<char>| c.1.contains_key(k),
        forall|k: Seq<char>| no_dup(#[trigger] c.1[k]),
        first.streams is Some,
        second.streams is Some,
    ensures
        ({
            let d = after_put(after_put(c, item, org, first), item, org, second);
            &&& forall|k: Seq<char>| no_dup(#[trigger] d.1[k])
            &&& forall|i: int|
                #[trigger] last_of_key(expansion(second), i) ==> {
                    let ch = d.1[group_key(org, expansion(second)[i])];
                    exists|p: int|
                        0 <= p < ch.len() && ch[p] == expansion(second)[i] && forall|q: int|
                            0 <= q < ch.len() && binding_key(#[trigger] ch[q]) == binding_key(
                                expansion(second)[i],
                            ) ==> q == p
                }
        }),
{
    lemma_rewrite_replaces(c.1, org, expansion(first), expansion(second));
    let m1 = after_put(c, item, org, first);
    assert(m1.1 == put_chains(c.1, org, expansion(first)));
    let d = after_put(m1, item, org, second);
    assert(d.1 == put_chains(m1.1, org, expansion(second)));
}

} // verus!
