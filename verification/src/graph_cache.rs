//! The process-local graph cache: an ordered map from discovery-key strings
//! to decoded identities, fed exclusively by liveliness events. Entries are
//! kept in ascending lexicographic key order, so queries list matches in
//! the same deterministic order in every process, whatever order the
//! events arrived in.
//!
//! An appear event inserts (or refreshes) the entry under its exact key
//! string and triggers the domain's guard condition; a key that does not
//! decode is silently ignored as foreign traffic sharing the namespace. A
//! disappear event removes the entry by exact key match (a no-op when
//! absent) and triggers the guard condition. The cache is the only source
//! of truth for which entities exist; queries scan it linearly with
//! empty-string-means-wildcard filters.

use vstd::prelude::*;
use vstd::seq_lib::group_seq_properties;
use vstd::string::StringExecFns;

use crate::endpoint_info::EndpointInfo;
use crate::endpoint_info::EndpointInfoView;
use crate::endpoint_info::EntityType;
use crate::graph_cache_utils::lemma_lex_irreflexive;
use crate::graph_cache_utils::lemma_lex_transitive;
use crate::graph_cache_utils::lex_lt;
use crate::graph_cache_utils::str_cmp;
use crate::guard_condition::GuardCondition;

verus! {

/// The key/identity pairs a cache holds, as mathematical values.
pub open spec fn entry_views(entries: Seq<(String, EndpointInfo)>) -> Seq<
    (Seq<char>, EndpointInfoView),
> {
    entries.map_values(|p: (String, EndpointInfo)| (p.0@, p.1@))
}

/// The first index holding `key`, or -1 when absent.
pub open spec fn spec_find_key(entries: Seq<(Seq<char>, EndpointInfoView)>, key: Seq<char>) -> int
    decreases entries.len(),
{
    if entries.len() == 0 {
        -1
    } else if entries[0].0 == key {
        0
    } else {
        let r = spec_find_key(entries.drop_first(), key);
        if r < 0 {
            -1
        } else {
            r + 1
        }
    }
}

pub proof fn lemma_find_key(entries: Seq<(Seq<char>, EndpointInfoView)>, key: Seq<char>)
    ensures
        -1 <= spec_find_key(entries, key) < entries.len(),
        spec_find_key(entries, key) == -1 ==> forall|j: int|
            0 <= j < entries.len() ==> (#[trigger] entries[j]).0 != key,
        spec_find_key(entries, key) >= 0 ==> entries[spec_find_key(entries, key)].0 == key,
        spec_find_key(entries, key) >= 0 ==> forall|j: int|
            0 <= j < spec_find_key(entries, key) ==> (#[trigger] entries[j]).0 != key,
    decreases entries.len(),
{
    if entries.len() == 0 {
    } else if entries[0].0 == key {
    } else {
        lemma_find_key(entries.drop_first(), key);
        let r = spec_find_key(entries.drop_first(), key);
        if r < 0 {
            assert forall|j: int| 0 <= j < entries.len() implies (#[trigger] entries[j]).0
                != key by {
                if j > 0 {
                    assert(entries.drop_first()[j - 1] == entries[j]);
                }
            }
        } else {
            assert forall|j: int| 0 <= j < r + 1 implies (#[trigger] entries[j]).0 != key by {
                if j > 0 {
                    assert(entries.drop_first()[j - 1] == entries[j]);
                }
            }
        }
    }
}

/// `key` first occurs at index `k` when everything before differs.
pub proof fn lemma_find_key_at(
    entries: Seq<(Seq<char>, EndpointInfoView)>,
    key: Seq<char>,
    k: int,
)
    requires
        0 <= k < entries.len(),
        entries[k].0 == key,
        forall|j: int| 0 <= j < k ==> (#[trigger] entries[j]).0 != key,
    ensures
        spec_find_key(entries, key) == k,
    decreases entries.len(),
{
    if k == 0 {
    } else {
        assert(entries[0].0 != key);
        assert(entries.drop_first()[k - 1] == entries[k]);
        assert forall|j: int| 0 <= j < k - 1 implies (#[trigger] entries.drop_first()[j]).0
            != key by {
            assert(entries.drop_first()[j] == entries[j + 1]);
        }
        lemma_find_key_at(entries.drop_first(), key, k - 1);
    }
}

/// `key` is never found when no entry holds it.
pub proof fn lemma_find_key_none(entries: Seq<(Seq<char>, EndpointInfoView)>, key: Seq<char>)
    requires
        forall|j: int| 0 <= j < entries.len() ==> (#[trigger] entries[j]).0 != key,
    ensures
        spec_find_key(entries, key) == -1,
{
    lemma_find_key(entries, key);
    if spec_find_key(entries, key) >= 0 {
        assert(entries[spec_find_key(entries, key)].0 == key);
    }
}

/// The position where `key` belongs in an ascending cache: the number of
/// leading entries whose key sorts before it.
pub open spec fn spec_insert_pos(entries: Seq<(Seq<char>, EndpointInfoView)>, key: Seq<char>) -> int
    decreases entries.len(),
{
    if entries.len() == 0 {
        0
    } else if lex_lt(entries[0].0, key) {
        1 + spec_insert_pos(entries.drop_first(), key)
    } else {
        0
    }
}

pub proof fn lemma_insert_pos_bounds(entries: Seq<(Seq<char>, EndpointInfoView)>, key: Seq<char>)
    ensures
        0 <= spec_insert_pos(entries, key) <= entries.len(),
        forall|j: int|
            0 <= j < spec_insert_pos(entries, key) ==> lex_lt((#[trigger] entries[j]).0, key),
        spec_insert_pos(entries, key) < entries.len() ==> !lex_lt(
            entries[spec_insert_pos(entries, key)].0,
            key,
        ),
    decreases entries.len(),
{
    if entries.len() == 0 {
    } else if lex_lt(entries[0].0, key) {
        lemma_insert_pos_bounds(entries.drop_first(), key);
        let p = spec_insert_pos(entries, key);
        assert forall|j: int| 0 <= j < p implies lex_lt((#[trigger] entries[j]).0, key) by {
            if j > 0 {
                assert(entries.drop_first()[j - 1] == entries[j]);
            }
        }
        if p < entries.len() {
            assert(entries.drop_first()[p - 1] == entries[p]);
        }
    } else {
    }
}

/// The first index whose key does not sort before `key` is the insertion
/// position.
pub proof fn lemma_insert_pos_at(
    entries: Seq<(Seq<char>, EndpointInfoView)>,
    key: Seq<char>,
    k: int,
)
    requires
        0 <= k <= entries.len(),
        forall|j: int| 0 <= j < k ==> lex_lt((#[trigger] entries[j]).0, key),
        k < entries.len() ==> !lex_lt(entries[k].0, key),
    ensures
        spec_insert_pos(entries, key) == k,
    decreases entries.len(),
{
    if entries.len() == 0 {
    } else if k == 0 {
    } else {
        assert(lex_lt(entries[0].0, key));
        assert forall|j: int| 0 <= j < k - 1 implies lex_lt(
            (#[trigger] entries.drop_first()[j]).0,
            key,
        ) by {
            assert(entries.drop_first()[j] == entries[j + 1]);
        }
        if k - 1 < entries.drop_first().len() {
            assert(entries.drop_first()[k - 1] == entries[k]);
        }
        lemma_insert_pos_at(entries.drop_first(), key, k - 1);
    }
}

/// Inserting under `key`: refresh the existing entry in place, or insert it
/// at its ascending-key position.
pub open spec fn spec_upsert(
    entries: Seq<(Seq<char>, EndpointInfoView)>,
    key: Seq<char>,
    v: EndpointInfoView,
) -> Seq<(Seq<char>, EndpointInfoView)> {
    let i = spec_find_key(entries, key);
    if i >= 0 {
        entries.update(i, (key, v))
    } else {
        entries.insert(spec_insert_pos(entries, key), (key, v))
    }
}

/// Removing `key`: drop its entry, or change nothing when absent.
pub open spec fn spec_remove_key(
    entries: Seq<(Seq<char>, EndpointInfoView)>,
    key: Seq<char>,
) -> Seq<(Seq<char>, EndpointInfoView)> {
    let i = spec_find_key(entries, key);
    if i >= 0 {
        entries.remove(i)
    } else {
        entries
    }
}

/// Whether an identity passes the four query filters: empty namespace and
/// node name together match every namespace; otherwise each non-empty
/// filter must match exactly; the entity kind must be among those asked
/// for.
pub open spec fn spec_matches(
    v: EndpointInfoView,
    namespace: Seq<char>,
    node_name: Seq<char>,
    endpoint_name: Seq<char>,
    kinds: Seq<EntityType>,
) -> bool {
    &&& ((namespace.len() == 0 && node_name.len() == 0) || v.namespace == namespace)
    &&& (node_name.len() == 0 || v.node_name == node_name)
    &&& (endpoint_name.len() == 0 || v.endpoint_name == endpoint_name)
    &&& kinds.contains(v.entity_type)
}

/// The identities in the cache that pass the filters, in cache order.
pub open spec fn spec_matching(
    entries: Seq<(Seq<char>, EndpointInfoView)>,
    namespace: Seq<char>,
    node_name: Seq<char>,
    endpoint_name: Seq<char>,
    kinds: Seq<EntityType>,
) -> Seq<EndpointInfoView> {
    entries.map_values(|p: (Seq<char>, EndpointInfoView)| p.1).filter(
        |v: EndpointInfoView| spec_matches(v, namespace, node_name, endpoint_name, kinds),
    )
}

/// The graph cache plus the guard condition woken on every change.
pub struct GraphCache {
    pub endpoint_map: Vec<(String, EndpointInfo)>,
    pub guard_condition: GuardCondition,
}

impl GraphCache {
    /// The cache's contents as mathematical values.
    pub open spec fn entries(&self) -> Seq<(Seq<char>, EndpointInfoView)> {
        entry_views(self.endpoint_map@)
    }

    /// Keys strictly ascending in lexicographic order, as an ordered map
    /// keeps them; in particular each key occurs at most once, and queries
    /// list matches in ascending key order.
    pub open spec fn wf(&self) -> bool {
        forall|i: int, j: int|
            0 <= i < j < self.entries().len() ==> lex_lt(
                (#[trigger] self.entries()[i]).0,
                (#[trigger] self.entries()[j]).0,
            )
    }

    /// A fresh, empty cache.
    pub fn new() -> (c: GraphCache)
        ensures
            c.wf(),
            c.entries().len() == 0,
            !c.guard_condition.triggered,
    {
        let c = GraphCache { endpoint_map: Vec::new(), guard_condition: GuardCondition::new() };
        proof {
            assert(c.entries() =~= Seq::<(Seq<char>, EndpointInfoView)>::empty());
        }
        c
    }

    /// Finds the index of `key` in the map, if present.
    fn find_index(&self, key: &String) -> (r: Option<usize>)
        ensures
            r matches Some(i) ==> i < self.entries().len() && spec_find_key(self.entries(), key@)
                == i,
            r is None ==> spec_find_key(self.entries(), key@) == -1,
    {
        let n = self.endpoint_map.len();
        let mut i: usize = 0;
        while i < n
            invariant
                i <= n,
                n == self.endpoint_map@.len(),
                forall|j: int| 0 <= j < i ==> (#[trigger] self.entries()[j]).0 != key@,
            decreases n - i,
        {
            if self.endpoint_map[i].0 == *key {
                proof {
                    assert(self.entries()[i as int].0 == key@);
                    lemma_find_key_at(self.entries(), key@, i as int);
                }
                return Some(i);
            }
            proof {
                assert(self.entries()[i as int].0 == self.endpoint_map@[i as int].0@);
            }
            i = i + 1;
        }
        proof {
            lemma_find_key_none(self.entries(), key@);
        }
        None
    }

    /// Applies one appear event: when the key decodes, the entry is
    /// refreshed in place or inserted at its ascending-key position, and
    /// the guard condition triggers; a key that does not decode changes
    /// nothing.
    pub fn insert_entity(&mut self, key_expr: &str)
        requires
            old(self).wf(),
        ensures
            final(self).wf(),
            match EndpointInfo::spec_decode_key(key_expr@) {
                Some(v) => final(self).entries() == spec_upsert(
                    old(self).entries(),
                    key_expr@,
                    v,
                ) && final(self).guard_condition.triggered,
                None => *final(self) == *old(self),
            },
    {
        let info = match EndpointInfo::from_str(key_expr) {
            Ok(info) => info,
            Err(_) => {
                return ;
            },
        };
        let key = String::from_str(key_expr);
        let ghost old_entries = self.entries();
        let n = self.endpoint_map.len();
        let mut p: usize = 0;
        while p < n && str_cmp(self.endpoint_map[p].0.as_str(), key_expr) == -1
            invariant
                p <= n,
                n == self.endpoint_map@.len(),
                *self == *old(self),
                old_entries == self.entries(),
                forall|j: int| 0 <= j < p ==> lex_lt((#[trigger] self.entries()[j]).0, key_expr@),
            decreases n - p,
        {
            proof {
                assert(self.entries()[p as int].0 == self.endpoint_map@[p as int].0@);
            }
            p = p + 1;
        }
        let mut found = false;
        if p < n {
            let c = str_cmp(self.endpoint_map[p].0.as_str(), key_expr);
            proof {
                assert(self.entries()[p as int].0 == self.endpoint_map@[p as int].0@);
            }
            if c == 0 {
                found = true;
            } else {
                proof {
                    assert(lex_lt(key_expr@, self.entries()[p as int].0));
                }
            }
        }
        if found {
            self.endpoint_map[p] = (key, info);
            proof {
                assert forall|j: int| 0 <= j < p implies (#[trigger] old_entries[j]).0
                    != key_expr@ by {
                    if old_entries[j].0 == key_expr@ {
                        lemma_lex_irreflexive(key_expr@);
                    }
                }
                lemma_find_key_at(old_entries, key_expr@, p as int);
                assert(self.entries() =~= old_entries.update(p as int, (key_expr@, info@)));
                assert forall|a: int, b: int| 0 <= a < b < self.entries().len() implies lex_lt(
                    (#[trigger] self.entries()[a]).0,
                    (#[trigger] self.entries()[b]).0,
                ) by {
                    assert(self.entries()[a].0 == old_entries[a].0);
                    assert(self.entries()[b].0 == old_entries[b].0);
                }
            }
        } else {
            proof {
                assert forall|j: int| 0 <= j < old_entries.len() implies (
                #[trigger] old_entries[j]).0 != key_expr@ by {
                    if j < p {
                        if old_entries[j].0 == key_expr@ {
                            lemma_lex_irreflexive(key_expr@);
                        }
                    } else if j > p {
                        assert(lex_lt(old_entries[p as int].0, old_entries[j].0));
                        lemma_lex_transitive(key_expr@, old_entries[p as int].0, old_entries[j].0);
                        if old_entries[j].0 == key_expr@ {
                            lemma_lex_irreflexive(key_expr@);
                        }
                    }
                }
                lemma_find_key_none(old_entries, key_expr@);
                lemma_insert_pos_at(old_entries, key_expr@, p as int);
            }
            self.endpoint_map.insert(p, (key, info));
            proof {
                assert(self.entries() =~= old_entries.insert(p as int, (key_expr@, info@)));
                assert forall|a: int, b: int| 0 <= a < b < self.entries().len() implies lex_lt(
                    (#[trigger] self.entries()[a]).0,
                    (#[trigger] self.entries()[b]).0,
                ) by {
                    let nt = self.entries();
                    if b < p {
                        assert(nt[a] == old_entries[a] && nt[b] == old_entries[b]);
                    } else if a < p && b == p {
                        assert(nt[a] == old_entries[a]);
                        assert(lex_lt(old_entries[a].0, key_expr@));
                    } else if a < p && b > p {
                        assert(nt[a] == old_entries[a] && nt[b] == old_entries[b - 1]);
                        assert(lex_lt(old_entries[a].0, old_entries[b - 1].0));
                    } else if a == p && b > p {
                        assert(nt[b] == old_entries[b - 1]);
                        if b - 1 == p {
                            assert(lex_lt(key_expr@, old_entries[p as int].0));
                        } else {
                            assert(lex_lt(old_entries[p as int].0, old_entries[b - 1].0));
                            lemma_lex_transitive(
                                key_expr@,
                                old_entries[p as int].0,
                                old_entries[b - 1].0,
                            );
                        }
                    } else {
                        assert(nt[a] == old_entries[a - 1] && nt[b] == old_entries[b - 1]);
                        assert(lex_lt(old_entries[a - 1].0, old_entries[b - 1].0));
                    }
                }
            }
        }
        self.guard_condition.trigger();
    }

    /// Applies one disappear event: the entry under the exact key is
    /// removed (a no-op when absent) and the guard condition triggers.
    pub fn remove_entity(&mut self, key_expr: &str)
        requires
            old(self).wf(),
        ensures
            final(self).wf(),
            final(self).entries() == spec_remove_key(old(self).entries(), key_expr@),
            final(self).guard_condition.triggered,
    {
        let key = String::from_str(key_expr);
        let ghost old_entries = self.entries();
        match self.find_index(&key) {
            Some(i) => {
                self.endpoint_map.remove(i);
                proof {
                    assert(self.entries() =~= old_entries.remove(i as int));
                    assert forall|a: int, b: int|
                        0 <= a < b < self.entries().len() implies lex_lt(
                        (#[trigger] self.entries()[a]).0,
                        (#[trigger] self.entries()[b]).0,
                    ) by {
                        let aa = if a < i as int {
                            a
                        } else {
                            a + 1
                        };
                        let bb = if b < i as int {
                            b
                        } else {
                            b + 1
                        };
                        assert(lex_lt(old_entries[aa].0, old_entries[bb].0));
                    }
                }
            },
            None => {},
        }
        self.guard_condition.trigger();
    }

    /// Whether an identity passes the query filters.
    fn matches_filters(
        info: &EndpointInfo,
        namespace: &String,
        node_name: &String,
        endpoint_name: &String,
        entity_types: &Vec<EntityType>,
    ) -> (r: bool)
        ensures
            r == spec_matches(info@, namespace@, node_name@, endpoint_name@, entity_types@),
    {
        let ns_wild = namespace.as_str().unicode_len() == 0 && node_name.as_str().unicode_len()
            == 0;
        if !(ns_wild || info.namespace == *namespace) {
            return false;
        }
        if !(node_name.as_str().unicode_len() == 0 || info.node_name == *node_name) {
            return false;
        }
        if !(endpoint_name.as_str().unicode_len() == 0 || info.endpoint_name == *endpoint_name) {
            return false;
        }
        let n = entity_types.len();
        let mut i: usize = 0;
        while i < n
            invariant
                i <= n,
                n == entity_types@.len(),
                forall|j: int| 0 <= j < i ==> entity_types@[j] != info@.entity_type,
                (namespace@.len() == 0 && node_name@.len() == 0) || info@.namespace == namespace@,
                node_name@.len() == 0 || info@.node_name == node_name@,
                endpoint_name@.len() == 0 || info@.endpoint_name == endpoint_name@,
            decreases n - i,
        {
            if entity_types[i] == info.entity_type {
                proof {
                    assert(entity_types@[i as int] == info@.entity_type);
                    assert(entity_types@.contains(info@.entity_type));
                }
                return true;
            }
            i = i + 1;
        }
        proof {
            if entity_types@.contains(info@.entity_type) {
                let w = choose|j: int|
                    0 <= j < entity_types@.len() && entity_types@[j] == info@.entity_type;
                assert(entity_types@[w] == info@.entity_type);
            }
        }
        false
    }

    /// Lists the identities matching the filters, in cache order — with
    /// the cache invariant, that is ascending discovery-key order.
    pub fn get_endpoint_list(
        &self,
        namespace: &str,
        node_name: &str,
        endpoint_name: &str,
        entity_types: &Vec<EntityType>,
    ) -> (r: Vec<EndpointInfo>)
        ensures
            r@.map_values(|e: EndpointInfo| e@) == spec_matching(
                self.entries(),
                namespace@,
                node_name@,
                endpoint_name@,
                entity_types@,
            ),
    {
        broadcast use group_seq_properties;

        let ns = String::from_str(namespace);
        let nn = String::from_str(node_name);
        let en = String::from_str(endpoint_name);
        let ghost pred = |v: EndpointInfoView|
            spec_matches(v, namespace@, node_name@, endpoint_name@, entity_types@);
        let ghost values = self.entries().map_values(|p: (Seq<char>, EndpointInfoView)| p.1);
        let n = self.endpoint_map.len();
        let mut r: Vec<EndpointInfo> = Vec::new();
        let mut i: usize = 0;
        while i < n
            invariant
                i <= n,
                n == self.endpoint_map@.len(),
                ns@ == namespace@,
                nn@ == node_name@,
                en@ == endpoint_name@,
                values == self.entries().map_values(|p: (Seq<char>, EndpointInfoView)| p.1),
                pred == (|v: EndpointInfoView|
                    spec_matches(v, namespace@, node_name@, endpoint_name@, entity_types@)),
                r@.map_values(|e: EndpointInfo| e@) =~= values.take(i as int).filter(pred),
            decreases n - i,
        {
            let ghost old_r = r@;
            if Self::matches_filters(&self.endpoint_map[i].1, &ns, &nn, &en, entity_types) {
                r.push(self.endpoint_map[i].1.clone());
            }
            proof {
                let t = values.take(i + 1);
                assert(t.drop_last() =~= values.take(i as int));
                assert(t.last() == values[i as int]);
                assert(values[i as int] == self.entries()[i as int].1);
                reveal(Seq::filter);
                if pred(values[i as int]) {
                    assert(r@.map_values(|e: EndpointInfo| e@) =~= old_r.map_values(
                        |e: EndpointInfo| e@,
                    ).push(self.endpoint_map@[i as int].1@));
                }
                assert(r@.map_values(|e: EndpointInfo| e@) =~= values.take(i + 1).filter(pred));
            }
            i = i + 1;
        }
        proof {
            assert(values.take(n as int) =~= values);
        }
        r
    }

    /// Counts the identities matching the filters.
    pub fn count_endpoint(
        &self,
        namespace: &str,
        node_name: &str,
        endpoint_name: &str,
        entity_types: &Vec<EntityType>,
    ) -> (r: usize)
        ensures
            r == spec_matching(
                self.entries(),
                namespace@,
                node_name@,
                endpoint_name@,
                entity_types@,
            ).len(),
    {
        let list = self.get_endpoint_list(namespace, node_name, endpoint_name, entity_types);
        proof {
            assert(list@.map_values(|e: EndpointInfo| e@).len() == list@.len());
        }
        list.len()
    }
}

/// An appear event followed by a disappear event with the same key leaves
/// the cache exactly as a lone disappear would: without that entry. In
/// particular the key is then absent.
pub proof fn lemma_appear_then_disappear(
    entries: Seq<(Seq<char>, EndpointInfoView)>,
    key: Seq<char>,
    v: EndpointInfoView,
)
    requires
        forall|i: int, j: int|
            0 <= i < j < entries.len() ==> lex_lt(
                (#[trigger] entries[i]).0,
                (#[trigger] entries[j]).0,
            ),
    ensures
        spec_remove_key(spec_upsert(entries, key, v), key) == spec_remove_key(entries, key),
        spec_find_key(spec_remove_key(spec_upsert(entries, key, v), key), key) == -1,
{
    lemma_find_key(entries, key);
    let i = spec_find_key(entries, key);
    if i >= 0 {
        let up = entries.update(i, (key, v));
        assert forall|j: int| 0 <= j < i implies (#[trigger] up[j]).0 != key by {
            assert(up[j] == entries[j]);
        }
        lemma_find_key_at(up, key, i);
        assert(up.remove(i) =~= entries.remove(i));
        assert forall|j: int| 0 <= j < entries.remove(i).len() implies (#[trigger] entries.remove(
            i,
        )[j]).0 != key by {
            let jj = if j < i {
                j
            } else {
                j + 1
            };
            assert(entries.remove(i)[j] == entries[jj]);
            if jj < i {
                assert(lex_lt(entries[jj].0, entries[i].0));
            } else {
                assert(lex_lt(entries[i].0, entries[jj].0));
            }
            if entries[jj].0 == key {
                lemma_lex_irreflexive(key);
            }
        }
        lemma_find_key_none(entries.remove(i), key);
    } else {
        lemma_insert_pos_bounds(entries, key);
        let p = spec_insert_pos(entries, key);
        let up = entries.insert(p, (key, v));
        assert forall|j: int| 0 <= j < p implies (#[trigger] up[j]).0 != key by {
            assert(up[j] == entries[j]);
            assert(lex_lt(entries[j].0, key));
            if entries[j].0 == key {
                lemma_lex_irreflexive(key);
            }
        }
        assert(up[p].0 == key);
        lemma_find_key_at(up, key, p);
        assert(up.remove(p) =~= entries);
        lemma_find_key_none(entries, key);
    }
}

/// A disappear event with no matching prior appear changes nothing.
pub proof fn lemma_disappear_no_match(entries: Seq<(Seq<char>, EndpointInfoView)>, key: Seq<char>)
    requires
        spec_find_key(entries, key) == -1,
    ensures
        spec_remove_key(entries, key) == entries,
{
}

} // verus!
