//! The reconciliation cache.
//!
//! When a view rebuilds, its old subtree is deconstructed into a cache
//! mapping widget identity to the retained widget node, and the fresh
//! descriptions are built through that cache: a description whose identity
//! the cache holds reuses the retained node in place; entries never
//! claimed are dropped when the cache goes out of scope at the end of the
//! rebuild. A cache is scoped to exactly one rebuild of one view node.

use vstd::prelude::*;

use crate::description::WidgetKey;
use crate::view::{tree_view, view_count, NodeModel, WidgetTree, WidgetTreeFactory};

verus! {

broadcast use vstd::std_specs::vec::group_vec_axioms;

/// A retained node may sit in a reconciliation cache only if it is a
/// widget node holding no view nodes (deconstruction clears its children,
/// so this always holds).
pub open spec fn cache_val_ok(n: NodeModel) -> bool {
    &&& n is Widget
    &&& view_count(n) == 0
}

/// No two entries share a key.
pub(crate) open spec fn unique_keys(s: Seq<(WidgetKey, WidgetTree)>) -> bool {
    forall|i: int, j: int| 0 <= i < j < s.len() ==> s[i].0 != s[j].0
}

/// The index of the entry holding `k`.
pub(crate) open spec fn key_index(s: Seq<(WidgetKey, WidgetTree)>, k: WidgetKey) -> int {
    choose|i: int| 0 <= i < s.len() && s[i].0 == k
}

/// The finite map a sequence of entries denotes.
pub(crate) open spec fn entries_map(s: Seq<(WidgetKey, WidgetTree)>) -> Map<
    WidgetKey,
    NodeModel,
> {
    Map::new(
        |k: WidgetKey| exists|i: int| 0 <= i < s.len() && s[i].0 == k,
        |k: WidgetKey| tree_view(s[key_index(s, k)].1),
    )
}

/// Under unique keys, each entry is mapped to its own node.
pub(crate) proof fn lemma_entries_map_at(s: Seq<(WidgetKey, WidgetTree)>, i: int)
    requires
        unique_keys(s),
        0 <= i < s.len(),
    ensures
        entries_map(s).dom().contains(s[i].0),
        entries_map(s)[s[i].0] == tree_view(s[i].1),
        key_index(s, s[i].0) == i,
{
    assert(exists|j: int| 0 <= j < s.len() && s[j].0 == s[i].0);
    let j = key_index(s, s[i].0);
    if j != i {
        assert(s[i].0 != s[j].0);
    }
}

/// The keyed widget cache used during one rebuild of one view node.
pub struct WidgetCache {
    pub(crate) factory: WidgetTreeFactory,
    pub(crate) entries: Vec<(WidgetKey, WidgetTree)>,
}

impl View for WidgetCache {
    type V = Map<WidgetKey, NodeModel>;

    closed spec fn view(&self) -> Map<WidgetKey, NodeModel> {
        entries_map(self.entries@)
    }
}

impl WidgetCache {
    /// Internal well-formedness: keys are unique and every cached node is
    /// a childless widget node.
    pub closed spec fn wf(&self) -> bool {
        &&& unique_keys(self.entries@)
        &&& forall|i: int|
            0 <= i < self.entries@.len() ==> cache_val_ok(tree_view(#[trigger] self.entries@[i].1))
    }

    /// Every value of a well-formed cache is a childless widget node.
    pub proof fn lemma_wf_values(&self)
        requires
            self.wf(),
        ensures
            forall|k: WidgetKey| self@.dom().contains(k) ==> cache_val_ok(#[trigger] self@[k]),
    {
        assert forall|k: WidgetKey| self@.dom().contains(k) implies cache_val_ok(self@[k]) by {
            let i = key_index(self.entries@, k);
            lemma_entries_map_at(self.entries@, i);
        }
    }

    /// An empty cache: used for first materialization, where there is no
    /// old subtree to reuse.
    pub(crate) fn empty(factory: WidgetTreeFactory) -> (c: WidgetCache)
        ensures
            c@ == Map::<WidgetKey, NodeModel>::empty(),
            c.wf(),
    {
        let c = WidgetCache { factory, entries: Vec::new() };
        proof {
            assert(c@ =~= Map::<WidgetKey, NodeModel>::empty());
        }
        c
    }

    /// The factory used to create fresh nodes during this rebuild.
    pub fn factory(&self) -> &WidgetTreeFactory {
        &self.factory
    }

    /// Store a retained node under its identity; a node already stored
    /// under the same identity is replaced (and dropped).
    pub(crate) fn insert_node(&mut self, key: WidgetKey, t: WidgetTree)
        requires
            old(self).wf(),
            cache_val_ok(t@),
        ensures
            final(self).wf(),
            final(self)@ == old(self)@.insert(key, t@),
    {
        let ghost pre = self.entries@;
        let mut i: usize = 0;
        while i < self.entries.len()
            invariant
                *self == *old(self),
                pre == old(self).entries@,
                old(self).wf(),
                cache_val_ok(t@),
                unique_keys(pre),
                forall|j: int| 0 <= j < pre.len() ==> cache_val_ok(tree_view(#[trigger] pre[j].1)),
                i <= pre.len(),
                forall|j: int| 0 <= j < i ==> pre[j].0 != key,
            decreases pre.len() - i,
        {
            if self.entries[i].0 == key {
                let ghost tv = t@;
                self.entries[i] = (key, t);
                proof {
                    let post = self.entries@;
                    assert(forall|j: int| 0 <= j < pre.len() && j != i ==> post[j] == pre[j]);
                    assert(tree_view(post[i as int].1) == tv);
                    lemma_insert_update(pre, i as int, key, post);
                    assert forall|j: int|
                        0 <= j < post.len() implies cache_val_ok(
                        tree_view(#[trigger] post[j].1),
                    ) by {
                        if j != i {
                            assert(post[j] == pre[j]);
                        }
                    }
                }
                return ;
            }
            i += 1;
        }
        let ghost tv = t@;
        self.entries.push((key, t));
        proof {
            let post = self.entries@;
            assert(tree_view(post.last().1) == tv);
            lemma_insert_push(pre, key, post);
            assert forall|j: int|
                0 <= j < post.len() implies cache_val_ok(tree_view(#[trigger] post[j].1)) by {
                if j < pre.len() {
                    assert(post[j] == pre[j]);
                }
            }
        }
    }

    /// Claim and remove the node stored under `key`, if any.
    pub(crate) fn remove(&mut self, key: WidgetKey) -> (r: Option<WidgetTree>)
        requires
            old(self).wf(),
        ensures
            final(self).wf(),
            match r {
                Some(t) => {
                    &&& old(self)@.dom().contains(key)
                    &&& t@ == old(self)@[key]
                    &&& final(self)@ == old(self)@.remove(key)
                },
                None => {
                    &&& !old(self)@.dom().contains(key)
                    &&& *final(self) == *old(self)
                },
            },
    {
        let ghost pre = self.entries@;
        let mut i: usize = 0;
        while i < self.entries.len()
            invariant
                *self == *old(self),
                pre == old(self).entries@,
                old(self).wf(),
                unique_keys(pre),
                forall|j: int| 0 <= j < pre.len() ==> cache_val_ok(tree_view(#[trigger] pre[j].1)),
                i <= pre.len(),
                forall|j: int| 0 <= j < i ==> pre[j].0 != key,
            decreases pre.len() - i,
        {
            if self.entries[i].0 == key {
                let entry = self.entries.swap_remove(i);
                proof {
                    let n = pre.len() as int;
                    lemma_entries_map_at(pre, i as int);
                    lemma_remove_at(pre, i as int, self.entries@);
                    assert forall|j: int|
                        0 <= j < self.entries@.len() implies cache_val_ok(
                        tree_view(#[trigger] self.entries@[j].1),
                    ) by {
                        assert(self.entries@[j] == pre[j] || self.entries@[j] == pre[n - 1]);
                    }
                }
                return Some(entry.1);
            }
            i += 1;
        }
        proof {
            if self@.dom().contains(key) {
                let j = choose|j: int| 0 <= j < pre.len() && pre[j].0 == key;
                assert(false);
            }
        }
        None
    }
}

/// Replacing the entry at `i` (which holds `key`) denotes a map insert.
pub(crate) proof fn lemma_insert_update(
    pre: Seq<(WidgetKey, WidgetTree)>,
    i: int,
    key: WidgetKey,
    post: Seq<(WidgetKey, WidgetTree)>,
)
    requires
        unique_keys(pre),
        0 <= i < pre.len(),
        pre[i].0 == key,
        post.len() == pre.len(),
        forall|j: int| 0 <= j < pre.len() && j != i ==> post[j] == pre[j],
        post[i].0 == key,
    ensures
        unique_keys(post),
        entries_map(post) == entries_map(pre).insert(key, tree_view(post[i].1)),
{
    assert forall|a: int, b: int| 0 <= a < b < post.len() implies post[a].0 != post[b].0 by {
        assert(pre[a].0 == post[a].0 || a == i);
        assert(pre[b].0 == post[b].0 || b == i);
    }
    assert forall|k: WidgetKey|
        entries_map(post).dom().contains(k) <==> entries_map(pre).insert(
            key,
            tree_view(post[i].1),
        ).dom().contains(k) by {
        if entries_map(post).dom().contains(k) {
            let j = choose|j: int| 0 <= j < post.len() && post[j].0 == k;
            if j != i {
                assert(pre[j].0 == k);
            }
        }
        if entries_map(pre).dom().contains(k) && k != key {
            let j = choose|j: int| 0 <= j < pre.len() && pre[j].0 == k;
            assert(j != i);
            assert(post[j].0 == k);
        }
        if k == key {
            assert(post[i].0 == k);
        }
    }
    assert forall|k: WidgetKey| #[trigger]
        entries_map(post).dom().contains(k) implies entries_map(post)[k] == entries_map(
        pre,
    ).insert(key, tree_view(post[i].1))[k] by {
        let j = key_index(post, k);
        lemma_entries_map_at(post, j);
        if k == key {
            lemma_entries_map_at(post, i);
        } else {
            assert(j != i);
            assert(pre[j] == post[j]);
            lemma_entries_map_at(pre, j);
        }
    }
    assert(entries_map(post) =~= entries_map(pre).insert(key, tree_view(post[i].1)));
}

/// Appending an entry with a fresh key denotes a map insert.
pub(crate) proof fn lemma_insert_push(
    pre: Seq<(WidgetKey, WidgetTree)>,
    key: WidgetKey,
    post: Seq<(WidgetKey, WidgetTree)>,
)
    requires
        unique_keys(pre),
        forall|j: int| 0 <= j < pre.len() ==> pre[j].0 != key,
        post == pre.push(post.last()),
        post.len() == pre.len() + 1,
        post.last().0 == key,
    ensures
        unique_keys(post),
        entries_map(post) == entries_map(pre).insert(key, tree_view(post.last().1)),
{
    let n = pre.len() as int;
    assert forall|a: int, b: int| 0 <= a < b < post.len() implies post[a].0 != post[b].0 by {
        if b < n {
            assert(post[a] == pre[a] && post[b] == pre[b]);
        } else {
            assert(post[a] == pre[a] && post[b].0 == key);
        }
    }
    assert forall|k: WidgetKey|
        entries_map(post).dom().contains(k) <==> entries_map(pre).insert(
            key,
            tree_view(post.last().1),
        ).dom().contains(k) by {
        if entries_map(post).dom().contains(k) {
            let j = choose|j: int| 0 <= j < post.len() && post[j].0 == k;
            if j < n {
                assert(pre[j].0 == k);
            }
        }
        if entries_map(pre).dom().contains(k) {
            let j = choose|j: int| 0 <= j < pre.len() && pre[j].0 == k;
            assert(post[j].0 == k);
        }
        if k == key {
            assert(post[n].0 == k);
        }
    }
    assert forall|k: WidgetKey| #[trigger]
        entries_map(post).dom().contains(k) implies entries_map(post)[k] == entries_map(
        pre,
    ).insert(key, tree_view(post.last().1))[k] by {
        let j = key_index(post, k);
        lemma_entries_map_at(post, j);
        if k == key {
            lemma_entries_map_at(post, n);
        } else {
            assert(j < n);
            assert(pre[j] == post[j]);
            lemma_entries_map_at(pre, j);
        }
    }
    assert(entries_map(post) =~= entries_map(pre).insert(key, tree_view(post.last().1)));
}

/// Swap-removing the entry at `i` denotes removing its key from the map.
pub(crate) proof fn lemma_remove_at(
    pre: Seq<(WidgetKey, WidgetTree)>,
    i: int,
    post: Seq<(WidgetKey, WidgetTree)>,
)
    requires
        unique_keys(pre),
        0 <= i < pre.len(),
        post == pre.update(i, pre.last()).drop_last(),
    ensures
        unique_keys(post),
        entries_map(post) == entries_map(pre).remove(pre[i].0),
{
    let n = pre.len() as int;
    let key = pre[i].0;
    assert forall|a: int, b: int| 0 <= a < b < post.len() implies post[a].0 != post[b].0 by {
        assert(post[a] == pre[a] || (a == i && post[a] == pre[n - 1]));
        assert(post[b] == pre[b] || (b == i && post[b] == pre[n - 1]));
    }
    assert forall|k: WidgetKey|
        entries_map(post).dom().contains(k) <==> (entries_map(pre).dom().contains(k) && k
            != key) by {
        if entries_map(post).dom().contains(k) {
            let j = choose|j: int| 0 <= j < post.len() && post[j].0 == k;
            if j == i {
                assert(pre[n - 1].0 == k);
                assert(k != key || i == n - 1);
            } else {
                assert(pre[j].0 == k);
                assert(k != key);
            }
        }
        if entries_map(pre).dom().contains(k) && k != key {
            let j = choose|j: int| 0 <= j < pre.len() && pre[j].0 == k;
            assert(j != i);
            if j < n - 1 {
                assert(post[j].0 == k);
            } else {
                assert(i < n - 1);
                assert(post[i].0 == k);
            }
        }
    }
    assert forall|k: WidgetKey| #[trigger]
        entries_map(post).dom().contains(k) implies entries_map(post)[k] == entries_map(
        pre,
    ).remove(key)[k] by {
        let j = key_index(post, k);
        lemma_entries_map_at(post, j);
        if j == i && post[j] == pre[n - 1] && pre[j] != pre[n - 1] {
            lemma_entries_map_at(pre, n - 1);
        } else {
            lemma_entries_map_at(pre, j);
        }
    }
    assert(entries_map(post) =~= entries_map(pre).remove(key));
}

} // verus!
