//! A handler that simply stores components: one registry per ownership
//! tier, each keyed by the component's type key.

use vstd::prelude::*;
use std::cell::RefCell;
use std::sync::Arc;
use crate::comp::{NodeComponent, new_ref_cell, clone_arc};
use crate::node::NodeHandler;

verus! {

/// The map an association list of keyed entries stands for: the frontmost
/// entry of a key wins.
pub open spec fn alist_map<V>(s: Seq<(u64, V)>) -> Map<u64, V>
    decreases s.len(),
{
    if s.len() == 0 {
        Map::empty()
    } else {
        alist_map(s.skip(1)).insert(s[0].0, s[0].1)
    }
}

/// A key is in the map exactly when some entry holds it.
proof fn lemma_alist_dom<V>(s: Seq<(u64, V)>, k: u64)
    ensures
        alist_map(s).contains_key(k) <==> exists|i: int| 0 <= i < s.len() && (#[trigger] s[i]).0
            == k,
    decreases s.len(),
{
    if s.len() > 0 {
        lemma_alist_dom(s.skip(1), k);
        if s[0].0 == k {
        } else {
            if alist_map(s).contains_key(k) {
                let i = choose|i: int| 0 <= i < s.skip(1).len() && (#[trigger] s.skip(1)[i]).0
                    == k;
                assert(s[i + 1].0 == k);
            }
            if exists|i: int| 0 <= i < s.len() && (#[trigger] s[i]).0 == k {
                let i = choose|i: int| 0 <= i < s.len() && (#[trigger] s[i]).0 == k;
                assert(s.skip(1)[i - 1].0 == k);
            }
        }
    }
}

/// The value of the first entry that holds a key is the map's value.
proof fn lemma_alist_first<V>(s: Seq<(u64, V)>, k: u64, i: int)
    requires
        0 <= i < s.len(),
        s[i].0 == k,
        forall|j: int| 0 <= j < i ==> (#[trigger] s[j]).0 != k,
    ensures
        alist_map(s).contains_key(k),
        alist_map(s)[k] == s[i].1,
    decreases i,
{
    if i == 0 {
    } else {
        assert(s.skip(1)[i - 1] == s[i]);
        assert(forall|j: int| 0 <= j < i - 1 ==> (#[trigger] s.skip(1)[j]).0 != k);
        lemma_alist_first(s.skip(1), k, i - 1);
    }
}

/// Replacing the first entry of a key updates the map at that key alone.
proof fn lemma_alist_set<V>(s: Seq<(u64, V)>, i: int, v: V)
    requires
        0 <= i < s.len(),
        forall|j: int| 0 <= j < i ==> (#[trigger] s[j]).0 != s[i].0,
    ensures
        alist_map(s.update(i, (s[i].0, v))) == alist_map(s).insert(s[i].0, v),
    decreases i,
{
    let k = s[i].0;
    if i == 0 {
        assert(s.update(0, (k, v)).skip(1) =~= s.skip(1));
        assert(alist_map(s.update(0, (k, v))) =~= alist_map(s).insert(k, v));
    } else {
        assert(s.skip(1)[i - 1] == s[i]);
        assert(forall|j: int| 0 <= j < i - 1 ==> (#[trigger] s.skip(1)[j]).0 != k);
        lemma_alist_set(s.skip(1), i - 1, v);
        assert(s.update(i, (k, v)).skip(1) =~= s.skip(1).update(i - 1, (k, v)));
        assert(s.update(i, (k, v))[0] == s[0]);
        assert(alist_map(s.update(i, (k, v))) =~= alist_map(s).insert(k, v));
    }
}

/// Appending an entry of a fresh key adds it to the map.
proof fn lemma_alist_push<V>(s: Seq<(u64, V)>, k: u64, v: V)
    requires
        forall|j: int| 0 <= j < s.len() ==> (#[trigger] s[j]).0 != k,
    ensures
        alist_map(s.push((k, v))) == alist_map(s).insert(k, v),
    decreases s.len(),
{
    if s.len() == 0 {
        assert(s.push((k, v)).skip(1) =~= Seq::<(u64, V)>::empty());
        assert(s.push((k, v))[0] == (k, v));
        assert(alist_map(Seq::<(u64, V)>::empty()) =~= Map::<u64, V>::empty());
        assert(alist_map(s) =~= Map::<u64, V>::empty());
        assert(alist_map(s.push((k, v))) =~= alist_map(s).insert(k, v));
    } else {
        assert(s.push((k, v)).skip(1) =~= s.skip(1).push((k, v)));
        assert(forall|j: int| 0 <= j < s.skip(1).len() ==> (#[trigger] s.skip(1)[j]).0 != k);
        lemma_alist_push(s.skip(1), k, v);
        assert(s.push((k, v))[0] == s[0]);
        assert(alist_map(s.push((k, v))) =~= alist_map(s).insert(k, v));
    }
}

/// An event handler that does nothing with events but stores components:
/// one registry per ownership tier, each an association list keyed by the
/// component's type key.
#[verifier::reject_recursive_types(C)]
pub struct CStoreEventHandler<C> {
    stored: Vec<(u64, C)>,
    celled: Vec<(u64, RefCell<C>)>,
    shared: Vec<(u64, Arc<C>)>,
}

impl<C: NodeComponent> CStoreEventHandler<C> {
    /// The exclusively-owned components, by type key.
    pub closed spec fn spec_stored(&self) -> Map<u64, C> {
        alist_map(self.stored@)
    }

    /// The singly-mutable-shared components, by type key.
    pub closed spec fn spec_celled(&self) -> Map<u64, RefCell<C>> {
        alist_map(self.celled@)
    }

    /// The multiply-shared components, by type key.
    pub closed spec fn spec_shared(&self) -> Map<u64, Arc<C>> {
        alist_map(self.shared@)
    }

    /// Each registry holds at most one entry per key.
    pub closed spec fn spec_keys_unique(&self) -> bool {
        &&& unique_keys(self.stored@)
        &&& unique_keys(self.celled@)
        &&& unique_keys(self.shared@)
    }

    /// Creates an empty store.
    pub fn new() -> (r: Self)
        ensures
            r.spec_stored() == Map::<u64, C>::empty(),
            r.spec_celled() == Map::<u64, RefCell<C>>::empty(),
            r.spec_shared() == Map::<u64, Arc<C>>::empty(),
            r.spec_keys_unique(),
    {
        CStoreEventHandler { stored: Vec::new(), celled: Vec::new(), shared: Vec::new() }
    }

    /// Adds an exclusively-owned component to this store, under its own
    /// type key; an already-stored component of the same key is replaced.
    /// Returns whether the key was new.
    pub fn insert_box(&mut self, comp: C) -> (r: bool)
        requires
            old(self).spec_keys_unique(),
        ensures
            final(self).spec_keys_unique(),
            final(self).spec_stored() == old(self).spec_stored().insert(comp.spec_type_id(), comp),
            final(self).spec_celled() == old(self).spec_celled(),
            final(self).spec_shared() == old(self).spec_shared(),
            r == !old(self).spec_stored().contains_key(comp.spec_type_id()),
    {
        let type_id = comp.get_component_type_id();
        let r = alist_insert(&mut self.stored, type_id, comp);
        r
    }

    /// Adds a singly-mutable-shared component to this store, wrapped in a
    /// runtime-checked cell, under its own type key; an already-stored
    /// cell of the same key is replaced. Returns whether the key was new.
    pub fn insert_cell(&mut self, comp: C) -> (r: bool)
        requires
            old(self).spec_keys_unique(),
        ensures
            final(self).spec_keys_unique(),
            final(self).spec_celled().dom() == old(self).spec_celled().dom().insert(
                comp.spec_type_id(),
            ),
            forall|k: u64|
                k != comp.spec_type_id() && old(self).spec_celled().contains_key(k)
                    ==> #[trigger] final(self).spec_celled()[k] == old(self).spec_celled()[k],
            final(self).spec_stored() == old(self).spec_stored(),
            final(self).spec_shared() == old(self).spec_shared(),
            r == !old(self).spec_celled().contains_key(comp.spec_type_id()),
    {
        let type_id = comp.get_component_type_id();
        let cell = new_ref_cell(comp);
        let ghost pre = self.spec_celled();
        let r = alist_insert(&mut self.celled, type_id, cell);
        proof {
            assert(final(self).spec_celled().dom() =~= pre.dom().insert(type_id));
        }
        r
    }

    /// Adds a multiply-shared component to this store, under its own type
    /// key; an already-stored handle of the same key is replaced. Returns
    /// whether the key was new.
    pub fn insert_arc(&mut self, comp: Arc<C>) -> (r: bool)
        requires
            old(self).spec_keys_unique(),
        ensures
            final(self).spec_keys_unique(),
            final(self).spec_shared() == old(self).spec_shared().insert(
                (*comp).spec_type_id(),
                comp,
            ),
            final(self).spec_stored() == old(self).spec_stored(),
            final(self).spec_celled() == old(self).spec_celled(),
            r == !old(self).spec_shared().contains_key((*comp).spec_type_id()),
    {
        let type_id = arc_type_id(&comp);
        let r = alist_insert(&mut self.shared, type_id, comp);
        r
    }
}

impl<C: NodeComponent> CStoreEventHandler<C> {
    /// Merges the given store into this one, tier by tier: where both
    /// stores hold a key, the other store's component wins.
    pub fn with(&mut self, other: CStoreEventHandler<C>)
        requires
            old(self).spec_keys_unique(),
            other.spec_keys_unique(),
        ensures
            final(self).spec_keys_unique(),
            final(self).spec_stored() == old(self).spec_stored().union_prefer_right(
                other.spec_stored(),
            ),
            final(self).spec_celled() == old(self).spec_celled().union_prefer_right(
                other.spec_celled(),
            ),
            final(self).spec_shared() == old(self).spec_shared().union_prefer_right(
                other.spec_shared(),
            ),
    {
        let CStoreEventHandler { stored, celled, shared } = other;
        alist_merge(&mut self.stored, stored);
        alist_merge(&mut self.celled, celled);
        alist_merge(&mut self.shared, shared);
    }
}

impl<C: NodeComponent> Default for CStoreEventHandler<C> {
    /// An empty store.
    fn default() -> (r: Self)
        ensures
            r.spec_stored() == Map::<u64, C>::empty(),
            r.spec_celled() == Map::<u64, RefCell<C>>::empty(),
            r.spec_shared() == Map::<u64, Arc<C>>::empty(),
            r.spec_keys_unique(),
    {
        CStoreEventHandler::new()
    }
}

/// Merges one association list into another, front first: entries of `src`
/// replace entries of `dst` that share their key.
fn alist_merge<V>(dst: &mut Vec<(u64, V)>, src: Vec<(u64, V)>)
    requires
        unique_keys(old(dst)@),
        unique_keys(src@),
    ensures
        unique_keys(final(dst)@),
        alist_map(final(dst)@) == alist_map(old(dst)@).union_prefer_right(alist_map(src@)),
{
    let ghost orig = src@;
    let mut src = src;
    let ghost mut i: int = 0;
    proof {
        assert(src@ =~= orig.skip(0));
        assert(orig.take(0) =~= Seq::<(u64, V)>::empty());
        assert(alist_map(orig.take(0)) =~= Map::<u64, V>::empty());
        assert(alist_map(dst@) =~= alist_map(dst@).union_prefer_right(alist_map(orig.take(0))));
    }
    while src.len() > 0
        invariant
            0 <= i,
            i + src@.len() == orig.len(),
            src@ == orig.skip(i),
            unique_keys(orig),
            unique_keys(dst@),
            alist_map(dst@) == alist_map(old(dst)@).union_prefer_right(alist_map(orig.take(i))),
        decreases src@.len(),
    {
        let (k, v) = src.remove(0);
        proof {
            assert(orig.skip(i)[0] == orig[i]);
            assert(src@ =~= orig.skip(i + 1));
            assert forall|j: int| 0 <= j < orig.take(i).len() implies (#[trigger] orig.take(
                i,
            )[j]).0 != k by {
                assert(orig.take(i)[j] == orig[j]);
                assert(orig[i].0 == k);
            }
            lemma_alist_push(orig.take(i), k, v);
            assert(orig.take(i).push((k, v)) =~= orig.take(i + 1));
        }
        let ghost dst_pre = alist_map(dst@);
        alist_insert(dst, k, v);
        proof {
            assert(alist_map(dst@) =~= alist_map(old(dst)@).union_prefer_right(
                alist_map(orig.take(i + 1)),
            ));
            i = i + 1;
        }
    }
    proof {
        assert(orig.take(orig.len() as int) =~= orig);
    }
}

/// The type key of a shared component, read through its handle.
fn arc_type_id<C: NodeComponent>(comp: &Arc<C>) -> (k: u64)
    ensures
        k == (**comp).spec_type_id(),
{
    let inner: &C = &**comp;
    inner.get_component_type_id()
}

/// Whether an association list holds at most one entry per key.
pub open spec fn unique_keys<V>(s: Seq<(u64, V)>) -> bool {
    forall|i: int, j: int|
        0 <= i < j < s.len() ==> (#[trigger] s[i]).0 != (#[trigger] s[j]).0
}

/// Replace-or-append insertion into an association list with unique keys.
fn alist_insert<V>(s: &mut Vec<(u64, V)>, k: u64, v: V) -> (r: bool)
    requires
        unique_keys(old(s)@),
    ensures
        unique_keys(final(s)@),
        alist_map(final(s)@) == alist_map(old(s)@).insert(k, v),
        r == !alist_map(old(s)@).contains_key(k),
    {
        let n = s.len();
        let mut i: usize = 0;
        while i < n
            invariant
                i <= n,
                n == s@.len(),
                s@ == old(s)@,
                unique_keys(s@),
                forall|j: int| 0 <= j < i ==> (#[trigger] s@[j]).0 != k,
            decreases n - i,
        {
            if s[i].0 == k {
                proof {
                    lemma_alist_first(s@, k, i as int);
                    lemma_alist_set(s@, i as int, v);
                }
                let ghost pre = s@;
                s.set(i, (k, v));
                proof {
                    assert(s@ =~= pre.update(i as int, (pre[i as int].0, v)));
                    assert forall|a: int, b: int| 0 <= a < b < s@.len() implies (
                    #[trigger] s@[a]).0 != (#[trigger] s@[b]).0 by {
                        assert(s@[a].0 == pre[a].0);
                        assert(s@[b].0 == pre[b].0);
                    }
                }
                return false;
            }
            i += 1;
        }
        proof {
            lemma_alist_dom(s@, k);
            lemma_alist_push(s@, k, v);
        }
        let ghost pre = s@;
        s.push((k, v));
        proof {
            assert forall|a: int, b: int| 0 <= a < b < s@.len() implies (#[trigger] s@[a]).0 != (
            #[trigger] s@[b]).0 by {
                if b < pre.len() {
                    assert(s@[a] == pre[a]);
                    assert(s@[b] == pre[b]);
                } else {
                    assert(s@[a] == pre[a]);
                    assert(s@[b] == (k, v));
                }
            }
        }
        return true;
    }

impl<C: NodeComponent, B> NodeHandler<B> for CStoreEventHandler<C> {
    type Comp = C;

    closed spec fn spec_comps(&self) -> Map<u64, C> {
        self.spec_stored()
    }

    closed spec fn spec_comps_mut(&self) -> Map<u64, RefCell<C>> {
        self.spec_celled()
    }

    closed spec fn spec_comps_arc(&self) -> Map<u64, C> {
        self.spec_shared().map_values(|a: Arc<C>| *a)
    }

    fn get_comp(&self, ctype: u64) -> (r: Option<&C>) {
        let n = self.stored.len();
        let mut i: usize = 0;
        while i < n
            invariant
                i <= n,
                n == self.stored@.len(),
                forall|j: int| 0 <= j < i ==> (#[trigger] self.stored@[j]).0 != ctype,
            decreases n - i,
        {
            if self.stored[i].0 == ctype {
                proof {
                    lemma_alist_first(self.stored@, ctype, i as int);
                }
                return Some(&self.stored[i].1);
            }
            i += 1;
        }
        proof {
            lemma_alist_dom(self.stored@, ctype);
        }
        None
    }

    fn get_comp_mut(&self, ctype: u64) -> (r: Option<&RefCell<C>>) {
        let n = self.celled.len();
        let mut i: usize = 0;
        while i < n
            invariant
                i <= n,
                n == self.celled@.len(),
                forall|j: int| 0 <= j < i ==> (#[trigger] self.celled@[j]).0 != ctype,
            decreases n - i,
        {
            if self.celled[i].0 == ctype {
                proof {
                    lemma_alist_first(self.celled@, ctype, i as int);
                }
                return Some(&self.celled[i].1);
            }
            i += 1;
        }
        proof {
            lemma_alist_dom(self.celled@, ctype);
        }
        None
    }

    fn get_comp_arc(&self, ctype: u64) -> (r: Option<Arc<C>>) {
        let n = self.shared.len();
        let mut i: usize = 0;
        while i < n
            invariant
                i <= n,
                n == self.shared@.len(),
                forall|j: int| 0 <= j < i ==> (#[trigger] self.shared@[j]).0 != ctype,
            decreases n - i,
        {
            if self.shared[i].0 == ctype {
                proof {
                    lemma_alist_first(self.shared@, ctype, i as int);
                }
                return Some(clone_arc(&self.shared[i].1));
            }
            i += 1;
        }
        proof {
            lemma_alist_dom(self.shared@, ctype);
        }
        None
    }
}

} // verus!
