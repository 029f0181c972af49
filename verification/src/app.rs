//! The application context: the process-wide view-identity counter and the
//! invalidation registry.
//!
//! The registry is the one piece of state that worker threads may write:
//! they insert view identities, and the UI thread takes the whole set once
//! per iteration, strictly before layout and paint, so every mark made up
//! to that instant is honoured in the same iteration. This module holds
//! the verified registry logic; the surrounding application supplies the
//! mutual exclusion when it shares the context across threads.

use vstd::prelude::*;

verus! {

/// A set of view identities due for rebuild. Repeated marks of one
/// identity collapse to a single entry.
pub struct DirtySet {
    ids: Vec<u64>,
}

impl View for DirtySet {
    type V = Set<u64>;

    closed spec fn view(&self) -> Set<u64> {
        self.ids@.to_set()
    }
}

impl DirtySet {
    /// The empty set.
    pub fn new() -> (d: DirtySet)
        ensures
            d@ == Set::<u64>::empty(),
    {
        let d = DirtySet { ids: Vec::new() };
        proof {
            assert(d@ =~= Set::<u64>::empty());
        }
        d
    }

    /// Whether `id` has been marked.
    pub fn contains(&self, id: u64) -> (r: bool)
        ensures
            r == self@.contains(id),
    {
        let mut i: usize = 0;
        while i < self.ids.len()
            invariant
                i <= self.ids.len(),
                forall|j: int| 0 <= j < i ==> self.ids@[j] != id,
            decreases self.ids.len() - i,
        {
            if self.ids[i] == id {
                return true;
            }
            i += 1;
        }
        false
    }

    /// Mark `id`. Marking an identity twice is the same as marking it
    /// once.
    pub fn insert(&mut self, id: u64)
        ensures
            final(self)@ == old(self)@.insert(id),
    {
        let ghost pre = self.ids@;
        if !self.contains(id) {
            self.ids.push(id);
            proof {
                assert forall|x: u64| self.ids@.contains(x) <==> (pre.contains(x) || x == id) by {
                    assert(self.ids@ == pre.push(id));
                    if x == id {
                        assert(self.ids@[pre.len() as int] == id);
                        assert(self.ids@.contains(x));
                    }
                    if pre.contains(x) {
                        let j = choose|j: int| 0 <= j < pre.len() && pre[j] == x;
                        assert(self.ids@[j] == x);
                        assert(self.ids@.contains(x));
                    }
                    if self.ids@.contains(x) {
                        let j = choose|j: int| 0 <= j < self.ids@.len() && self.ids@[j] == x;
                        if j < pre.len() {
                            assert(pre[j] == x);
                            assert(pre.contains(x));
                        } else {
                            assert(x == id);
                        }
                    }
                }
                assert(self@ =~= old(self)@.insert(id));
            }
        } else {
            proof {
                assert(self@ =~= old(self)@.insert(id));
            }
        }
    }

    /// Hand the whole set out and leave the registry empty.
    pub fn take(&mut self) -> (d: DirtySet)
        ensures
            d@ == old(self)@,
            final(self)@ == Set::<u64>::empty(),
    {
        let mut taken: Vec<u64> = Vec::new();
        core::mem::swap(&mut taken, &mut self.ids);
        proof {
            assert(self@ =~= Set::<u64>::empty());
        }
        DirtySet { ids: taken }
    }
}

/// The application context: allocates process-unique view identities and
/// owns the registry of views to rebuild.
pub struct AppInner {
    /// The next identity to hand out; identities are monotonically
    /// increasing and never reused.
    pub view_id_counter: u64,
    /// The identities marked dirty since the last drain.
    pub views_to_update: DirtySet,
}

impl AppInner {
    /// A fresh context with no identities handed out and nothing marked.
    pub fn new() -> (app: AppInner)
        ensures
            app.view_id_counter == 0,
            app.views_to_update@ == Set::<u64>::empty(),
    {
        AppInner { view_id_counter: 0, views_to_update: DirtySet::new() }
    }

    /// Allocate a fresh, process-unique view identity.
    pub fn new_view_id(&mut self) -> (id: u64)
        requires
            old(self).view_id_counter < u64::MAX,
        ensures
            id == old(self).view_id_counter,
            final(self).view_id_counter == old(self).view_id_counter + 1,
            final(self).views_to_update@ == old(self).views_to_update@,
    {
        let id = self.view_id_counter;
        self.view_id_counter = self.view_id_counter + 1;
        id
    }

    /// Mark a view identity dirty: it will be rebuilt when the registry is
    /// next drained. Identities of destroyed views are harmless no-ops to
    /// the tree walk.
    pub fn update_view(&mut self, view_id: u64)
        ensures
            final(self).views_to_update@ == old(self).views_to_update@.insert(view_id),
            final(self).view_id_counter == old(self).view_id_counter,
    {
        self.views_to_update.insert(view_id);
    }

    /// Drain the registry: every mark made before this call is in the
    /// result, exactly once; the registry is left empty, so later marks
    /// are deferred to the next drain.
    pub fn take_views_to_update(&mut self) -> (d: DirtySet)
        ensures
            d@ == old(self).views_to_update@,
            final(self).views_to_update@ == Set::<u64>::empty(),
            final(self).view_id_counter == old(self).view_id_counter,
    {
        self.views_to_update.take()
    }
}

/// Law (cross-iteration invalidation ordering): starting from registry
/// contents `pending`, a mark of `a` made before a drain is contained in
/// what that drain hands out; the drain leaves the registry empty, so a
/// mark of `b` made after it is honoured exactly at the following drain,
/// which contains `b` and — unless the same identity was marked again —
/// does not repeat `a`. Marking an identity twice before a drain collapses
/// to one entry.
pub proof fn lemma_invalidation_ordering(pending: Set<u64>, a: u64, b: u64)
    ensures
        pending.insert(a).contains(a),
        Set::<u64>::empty().insert(b).contains(b),
        a != b ==> !Set::<u64>::empty().insert(b).contains(a),
        pending.insert(a).insert(a) == pending.insert(a),
{
    assert(pending.insert(a).insert(a) =~= pending.insert(a));
    assert(a != b ==> !Set::<u64>::empty().insert(b).contains(a));
}

} // verus!
