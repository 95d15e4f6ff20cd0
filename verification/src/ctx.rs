//! Node contexts: disjoint views over a run of the node stack, and the
//! three-phase event dispatch that runs over them.

use vstd::prelude::*;
use std::cell::RefCell;
use std::sync::Arc;
use vstd::string::StringExecFns;
use crate::node::{NamedNodeHandlerBox, NodeHandler, names_of};
use crate::event::{Event, EventWrapper, EventPhase, HistStep, phase_rank};


verus! {

/// A node context: the node of interest's name together with the run of
/// stack entries strictly before it (its ancestors, root first).
///
/// Handed to a handler so it can fetch components from other nodes while its
/// own entry is held exclusively elsewhere: the two never overlap.
pub struct NodeContext<B> {
    /// Name of the current node.
    pub name: String,
    /// The entries before the current node, root first.
    pub cons: Vec<NamedNodeHandlerBox<B>>,
}

/// An outer node context: a [`NodeContext`] paired with the current node's
/// own entry, held separately so that it can be mutated while the ancestor
/// run is inspected — the two occupy distinct stack positions.
pub struct OuterNodeContext<B> {
    /// The ancestors of the current node, and its name.
    pub context: NodeContext<B>,
    /// The currently active node.
    pub current: NamedNodeHandlerBox<B>,
}

/// The path that a root-first run of segment names spells: `/` for the root
/// alone, else one `/`-prefixed segment per entry after the root.
pub open spec fn spec_path(names: Seq<Seq<char>>) -> Seq<char> {
    if names.len() <= 1 {
        seq!['/']
    } else {
        spec_path_tail(names, 1)
    }
}

/// The concatenation of `/` + segment for every name from position `i` on.
pub open spec fn spec_path_tail(names: Seq<Seq<char>>, i: int) -> Seq<char>
    decreases names.len() - i,
{
    if i < 0 || i >= names.len() {
        Seq::empty()
    } else {
        seq!['/'] + names[i] + spec_path_tail(names, i + 1)
    }
}

/// The full path of a child named `child` below the node whose root-first
/// run of names (ancestors, then the node itself) is `names`: the node's
/// path, a `/`, and the child's name, where the root's path contributes
/// nothing but the separator.
pub open spec fn spec_child_path(names: Seq<Seq<char>>, child: Seq<char>) -> Seq<char> {
    if names.len() <= 1 {
        seq!['/'] + child
    } else {
        spec_path(names) + seq!['/'] + child
    }
}

/// Appending one more segment extends the spelled tail by `/` + segment.
pub proof fn lemma_path_tail_push(names: Seq<Seq<char>>, x: Seq<char>, i: int)
    requires
        0 <= i <= names.len(),
    ensures
        spec_path_tail(names.push(x), i) == spec_path_tail(names, i) + seq!['/'] + x,
    decreases names.len() - i,
{
    if i == names.len() {
        assert(spec_path_tail(names.push(x), i + 1) =~= Seq::empty());
        assert(names.push(x)[i] == x);
        assert(spec_path_tail(names.push(x), i) =~= spec_path_tail(names, i) + seq!['/'] + x);
    } else {
        lemma_path_tail_push(names, x, i + 1);
        assert(names.push(x)[i] == names[i]);
        assert(spec_path_tail(names.push(x), i) =~= spec_path_tail(names, i) + seq!['/'] + x);
    }
}

/// The names of a reassembled run: ancestors, one entry, and a tail.
proof fn lemma_names_of_concat3<B>(
    a: Seq<NamedNodeHandlerBox<B>>,
    x: NamedNodeHandlerBox<B>,
    b: Seq<NamedNodeHandlerBox<B>>,
)
    ensures
        names_of(a + seq![x] + b) == names_of(a) + seq![x.name@] + names_of(b),
{
    assert(names_of(a + seq![x] + b) =~= names_of(a) + seq![x.name@] + names_of(b));
}

impl<B: NodeHandler<B>> NodeContext<B> {
    /// The root-first run of names this context can see: its ancestors'
    /// names followed by the current node's own name.
    pub open spec fn spec_names(&self) -> Seq<Seq<char>> {
        names_of(self.cons@).push(self.name@)
    }

    /// Returns the fully formed name for a child with the given partial
    /// name: the path of the current node, a `/`, and the child's name.
    pub fn get_child_name(&self, name: &str) -> (r: String)
        ensures
            r@ == spec_child_path(self.spec_names(), name@),
    {
        let ghost all = self.spec_names();
        let ghost cnames = names_of(self.cons@);
        let mut out = String::new();
        let n = self.cons.len();
        let mut i: usize = 1;
        while i < n
            invariant
                1 <= i,
                i <= n || (n == 0 && i == 1),
                n == self.cons@.len(),
                cnames == names_of(self.cons@),
                out@ + spec_path_tail(cnames, i as int) == spec_path_tail(cnames, 1),
            decreases n - i,
        {
            let ghost prev = out@;
            append_seg(&mut out, self.cons[i].name.as_str());
            proof {
                assert(spec_path_tail(cnames, i as int) == seq!['/'] + cnames[i as int]
                    + spec_path_tail(cnames, i + 1));
                assert(prev + seq!['/'] + cnames[i as int] + spec_path_tail(cnames, i + 1) =~= prev
                    + (seq!['/'] + cnames[i as int] + spec_path_tail(cnames, i + 1)));
            }
            i += 1;
        }
        if n >= 1 {
            let ghost prev = out@;
            append_seg(&mut out, self.name.as_str());
            proof {
                assert(spec_path_tail(cnames, n as int) =~= Seq::empty());
                assert(prev + spec_path_tail(cnames, n as int) =~= prev);
                lemma_path_tail_push(cnames, self.name@, 1);
                assert(out@ == spec_path_tail(all, 1));
            }
        }
        // `out` now holds the node's path, or is empty when the node is the
        // root alone; either way the child's path follows as `/` + child.
        append_seg(&mut out, name);
        proof {
            if n >= 1 {
                assert(all.len() >= 2);
            } else {
                assert(out@ =~= seq!['/'] + name@);
            }
        }
        out
    }
}

/// Resolution of a type key over a root-first run of entries, by the given
/// projection of a handler to one of its component stores: the scan runs
/// from the last entry (nearest the node of interest) back towards the
/// root, and the first entry whose store holds the key answers.
pub open spec fn cons_resolve_by<B, V>(
    cons: Seq<NamedNodeHandlerBox<B>>,
    k: u64,
    f: spec_fn(B) -> Map<u64, V>,
) -> Option<V>
    decreases cons.len(),
{
    if cons.len() == 0 {
        None
    } else if f(cons.last().node).contains_key(k) {
        Some(f(cons.last().node)[k])
    } else {
        cons_resolve_by(cons.drop_last(), k, f)
    }
}

/// One step of the reverse scan that the resolution functions describe.
pub proof fn lemma_resolve_step<B: NodeHandler<B>>(cons: Seq<NamedNodeHandlerBox<B>>, i: int, k: u64)
    requires
        0 <= i < cons.len(),
    ensures
        cons_resolve(cons.take(i + 1), k) == (if cons[i].node.spec_comps().contains_key(k) {
            Some(cons[i].node.spec_comps()[k])
        } else {
            cons_resolve(cons.take(i), k)
        }),
        cons_resolve_mut(cons.take(i + 1), k) == (if cons[i].node.spec_comps_mut().contains_key(
            k,
        ) {
            Some(cons[i].node.spec_comps_mut()[k])
        } else {
            cons_resolve_mut(cons.take(i), k)
        }),
        cons_resolve_arc(cons.take(i + 1), k) == (if cons[i].node.spec_comps_arc().contains_key(
            k,
        ) {
            Some(cons[i].node.spec_comps_arc()[k])
        } else {
            cons_resolve_arc(cons.take(i), k)
        }),
{
    assert(cons.take(i + 1).last() == cons[i]);
    assert(cons.take(i + 1).drop_last() =~= cons.take(i));
}

/// Nearest-ancestor-first resolution of an exclusively-owned component.
pub open spec fn cons_resolve<B: NodeHandler<B>>(
    cons: Seq<NamedNodeHandlerBox<B>>,
    k: u64,
) -> Option<B::Comp> {
    cons_resolve_by(cons, k, |b: B| b.spec_comps())
}

/// Nearest-ancestor-first resolution of a singly-mutable-shared component.
pub open spec fn cons_resolve_mut<B: NodeHandler<B>>(
    cons: Seq<NamedNodeHandlerBox<B>>,
    k: u64,
) -> Option<RefCell<B::Comp>> {
    cons_resolve_by(cons, k, |b: B| b.spec_comps_mut())
}

/// Nearest-ancestor-first resolution of a multiply-shared component.
pub open spec fn cons_resolve_arc<B: NodeHandler<B>>(
    cons: Seq<NamedNodeHandlerBox<B>>,
    k: u64,
) -> Option<B::Comp> {
    cons_resolve_by(cons, k, |b: B| b.spec_comps_arc())
}

impl<B: NodeHandler<B>> NodeContext<B> {
    /// Returns a reference to the exclusively-owned component registered
    /// under `type_id` by the nearest ancestor that has one, if any.
    pub fn get_cons_component(&self, type_id: u64) -> (r: Option<&B::Comp>)
        ensures
            match r {
                Some(c) => cons_resolve(self.cons@, type_id) == Some(*c),
                None => cons_resolve(self.cons@, type_id) is None,
            },
    {
        let mut i = self.cons.len();
        proof {
            assert(self.cons@.take(i as int) =~= self.cons@);
        }
        while i > 0
            invariant
                i <= self.cons@.len(),
                cons_resolve(self.cons@, type_id) == cons_resolve(
                    self.cons@.take(i as int),
                    type_id,
                ),
            decreases i,
        {
            i -= 1;
            proof {
                lemma_resolve_step(self.cons@, i as int, type_id);
            }
            if let Some(c) = self.cons[i].node.get_comp(type_id) {
                return Some(c);
            }
        }
        proof {
            assert(self.cons@.take(0) =~= Seq::<NamedNodeHandlerBox<B>>::empty());
        }
        None
    }

    /// Returns the cell of the singly-mutable-shared component registered
    /// under `type_id` by the nearest ancestor that has one, if any.
    pub fn get_cons_component_mut(&self, type_id: u64) -> (r: Option<&RefCell<B::Comp>>)
        ensures
            match r {
                Some(c) => cons_resolve_mut(self.cons@, type_id) == Some(*c),
                None => cons_resolve_mut(self.cons@, type_id) is None,
            },
    {
        let mut i = self.cons.len();
        proof {
            assert(self.cons@.take(i as int) =~= self.cons@);
        }
        while i > 0
            invariant
                i <= self.cons@.len(),
                cons_resolve_mut(self.cons@, type_id) == cons_resolve_mut(
                    self.cons@.take(i as int),
                    type_id,
                ),
            decreases i,
        {
            i -= 1;
            proof {
                lemma_resolve_step(self.cons@, i as int, type_id);
            }
            if let Some(c) = self.cons[i].node.get_comp_mut(type_id) {
                return Some(c);
            }
        }
        proof {
            assert(self.cons@.take(0) =~= Seq::<NamedNodeHandlerBox<B>>::empty());
        }
        None
    }

    /// Returns a fresh handle to the multiply-shared component registered
    /// under `type_id` by the nearest ancestor that has one, if any.
    pub fn get_cons_component_arc(&self, type_id: u64) -> (r: Option<Arc<B::Comp>>)
        ensures
            match r {
                Some(c) => cons_resolve_arc(self.cons@, type_id) matches Some(v) && v == c,
                None => cons_resolve_arc(self.cons@, type_id) is None,
            },
    {
        let mut i = self.cons.len();
        proof {
            assert(self.cons@.take(i as int) =~= self.cons@);
        }
        while i > 0
            invariant
                i <= self.cons@.len(),
                cons_resolve_arc(self.cons@, type_id) == cons_resolve_arc(
                    self.cons@.take(i as int),
                    type_id,
                ),
            decreases i,
        {
            i -= 1;
            proof {
                lemma_resolve_step(self.cons@, i as int, type_id);
            }
            if let Some(c) = self.cons[i].node.get_comp_arc(type_id) {
                return Some(c);
            }
        }
        proof {
            assert(self.cons@.take(0) =~= Seq::<NamedNodeHandlerBox<B>>::empty());
        }
        None
    }
}

impl<B: NodeHandler<B>> OuterNodeContext<B> {
    /// The resolution this context gives an exclusively-owned component:
    /// the current node's own registry answers first; on a miss the
    /// ancestors answer, nearest first.
    pub open spec fn spec_resolve(&self, k: u64) -> Option<B::Comp> {
        if self.current.node.spec_comps().contains_key(k) {
            Some(self.current.node.spec_comps()[k])
        } else {
            cons_resolve(self.context.cons@, k)
        }
    }

    /// As [`Self::spec_resolve`], for singly-mutable-shared components.
    pub open spec fn spec_resolve_mut(&self, k: u64) -> Option<RefCell<B::Comp>> {
        if self.current.node.spec_comps_mut().contains_key(k) {
            Some(self.current.node.spec_comps_mut()[k])
        } else {
            cons_resolve_mut(self.context.cons@, k)
        }
    }

    /// As [`Self::spec_resolve`], for multiply-shared components.
    pub open spec fn spec_resolve_arc(&self, k: u64) -> Option<B::Comp> {
        if self.current.node.spec_comps_arc().contains_key(k) {
            Some(self.current.node.spec_comps_arc()[k])
        } else {
            cons_resolve_arc(self.context.cons@, k)
        }
    }

    /// Returns a reference to the current node's entry.
    pub fn get_current_node(&self) -> (r: &NamedNodeHandlerBox<B>)
        ensures
            *r == self.current,
    {
        &self.current
    }

    /// The name of the current node.
    pub open spec fn spec_name(&self) -> Seq<char> {
        self.context.name@
    }

    /// The names of the current node's ancestors, root first.
    pub open spec fn spec_cons_names(&self) -> Seq<Seq<char>> {
        names_of(self.context.cons@)
    }

    /// Returns the fully formed name for a child with the given partial
    /// name.
    pub fn get_child_name(&self, name: &str) -> (r: String)
        ensures
            r@ == spec_child_path(self.context.spec_names(), name@),
    {
        self.context.get_child_name(name)
    }

    /// Returns a reference to the exclusively-owned component of the given
    /// type key, if one exists: the current node's component shadows any
    /// ancestor's component of the same key.
    pub fn get_component(&self, type_id: u64) -> (r: Option<&B::Comp>)
        ensures
            match r {
                Some(c) => self.spec_resolve(type_id) == Some(*c),
                None => self.spec_resolve(type_id) is None,
            },
    {
        match self.current.node.get_comp(type_id) {
            Some(c) => Some(c),
            None => self.context.get_cons_component(type_id),
        }
    }

    /// Returns the cell of the singly-mutable-shared component of the given
    /// type key, if one exists; the current node shadows its ancestors.
    pub fn get_component_mut(&self, type_id: u64) -> (r: Option<&RefCell<B::Comp>>)
        ensures
            match r {
                Some(c) => self.spec_resolve_mut(type_id) == Some(*c),
                None => self.spec_resolve_mut(type_id) is None,
            },
    {
        match self.current.node.get_comp_mut(type_id) {
            Some(c) => Some(c),
            None => self.context.get_cons_component_mut(type_id),
        }
    }

    /// Returns a fresh handle to the multiply-shared component of the given
    /// type key, if one exists; the current node shadows its ancestors.
    pub fn get_component_arc(&self, type_id: u64) -> (r: Option<Arc<B::Comp>>)
        ensures
            match r {
                Some(c) => self.spec_resolve_arc(type_id) matches Some(v) && v == c,
                None => self.spec_resolve_arc(type_id) is None,
            },
    {
        match self.current.node.get_comp_arc(type_id) {
            Some(c) => Some(c),
            None => self.context.get_cons_component_arc(type_id),
        }
    }

    /// Splits off the part of this context that lies strictly before
    /// ancestor `at` and makes that ancestor the current node of the
    /// returned subcontext. What remains in `self` is the window after
    /// `at`: the ancestors above it, with the current node unchanged.
    ///
    /// The split partitions the visible stack: every entry lands either in
    /// the subcontext or in the remainder, and the two share nothing.
    /// [`Self::restore_subcontext_before`] undoes it exactly.
    pub fn get_subcontext_before(&mut self, at: usize) -> (r: Option<OuterNodeContext<B>>)
        ensures
            at >= old(self).context.cons@.len() ==> r is None && *final(self) == *old(self),
            at < old(self).context.cons@.len() ==> (r matches Some(sub) && {
                &&& sub.context.cons@ == old(self).context.cons@.take(at as int)
                &&& sub.current == old(self).context.cons@[at as int]
                &&& sub.context.name@ == old(self).context.cons@[at as int].name@
                &&& final(self).context.cons@ == old(self).context.cons@.skip(at as int + 1)
                &&& final(self).context.name == old(self).context.name
                &&& final(self).current == old(self).current
            }),
    {
        if at >= self.context.cons.len() {
            return None;
        }
        let mut tail = self.context.cons.split_off(at);
        let sub_current = tail.remove(0);
        core::mem::swap(&mut self.context.cons, &mut tail);
        let name = sub_current.name.clone();
        Some(
            OuterNodeContext {
                context: NodeContext { name, cons: tail },
                current: sub_current,
            },
        )
    }

    /// Splits this context at ancestor `at`, keeping the current node:
    /// the returned subcontext sees the ancestors from `at` on and the
    /// same current node under its same name, while the ancestors
    /// strictly before `at` are handed back separately — a narrower
    /// window onto the same stack, used when a sub-event is re-dispatched
    /// below the node that produced it.
    /// [`Self::unsplit_subcontext_after`] undoes the split exactly.
    pub fn get_subcontext_after(self, at: usize) -> (r: (
        OuterNodeContext<B>,
        Vec<NamedNodeHandlerBox<B>>,
    ))
        requires
            at <= self.context.cons@.len(),
        ensures
            r.0.context.cons@ == self.context.cons@.skip(at as int),
            r.0.current == self.current,
            r.0.context.name == self.context.name,
            r.1@ == self.context.cons@.take(at as int),
    {
        let OuterNodeContext { context: NodeContext { name, cons: mut kept }, current } = self;
        let tail = kept.split_off(at);
        (OuterNodeContext { context: NodeContext { name, cons: tail }, current }, kept)
    }

    /// Rejoins a subcontext split off by [`Self::get_subcontext_after`]
    /// with the ancestors that were held back, restoring the original
    /// context.
    pub fn unsplit_subcontext_after(
        sub: OuterNodeContext<B>,
        kept: Vec<NamedNodeHandlerBox<B>>,
    ) -> (r: OuterNodeContext<B>)
        ensures
            r.context.cons@ == kept@ + sub.context.cons@,
            r.current == sub.current,
            r.context.name == sub.context.name,
    {
        let OuterNodeContext { context: NodeContext { name, cons: mut tail }, current } = sub;
        let mut v = kept;
        v.append(&mut tail);
        OuterNodeContext { context: NodeContext { name, cons: v }, current }
    }

    /// Puts a subcontext split off by [`Self::get_subcontext_before`] back
    /// in front of this context's ancestors, restoring the original stack:
    /// the subcontext's ancestors, then its current entry, then whatever
    /// `self` kept.
    pub fn restore_subcontext_before(&mut self, sub: OuterNodeContext<B>)
        ensures
            final(self).context.cons@ == sub.context.cons@ + seq![sub.current] + old(
                self,
            ).context.cons@,
            final(self).context.name == old(self).context.name,
            final(self).current == old(self).current,
    {
        let OuterNodeContext { context: NodeContext { name: _sub_name, cons: mut v }, current } =
            sub;
        v.push(current);
        core::mem::swap(&mut self.context.cons, &mut v);
        self.context.cons.append(&mut v);
    }
}

/// Every node name mentioned anywhere in one history step, nested
/// dispatches included.
pub open spec fn step_names(s: HistStep) -> Set<Seq<char>>
    decreases s,
{
    match s {
        HistStep::Visit { name, .. } => set![name],
        HistStep::Nested { sub, .. } => hist_names(sub),
    }
}

/// Every node name mentioned anywhere in a dispatch history.
pub open spec fn hist_names(steps: Seq<HistStep>) -> Set<Seq<char>>
    decreases steps,
{
    if steps.len() == 0 {
        Set::empty()
    } else {
        step_names(steps[0]) + hist_names(steps.skip(1))
    }
}

/// The number of handler visits recorded at the top level of a history.
pub open spec fn visit_count(tr: Seq<HistStep>) -> int
    decreases tr.len(),
{
    if tr.len() == 0 {
        0
    } else {
        visit_count(tr.drop_last()) + (if tr.last() is Visit {
            1int
        } else {
            0int
        })
    }
}

/// The longest prefix of a history whose steps all happened under the
/// given phase.
pub open spec fn phase_prefix(tr: Seq<HistStep>, ph: EventPhase) -> Seq<HistStep>
    decreases tr.len(),
{
    if tr.len() > 0 && tr[0].step_phase() == ph {
        seq![tr[0]] + phase_prefix(tr.skip(1), ph)
    } else {
        Seq::empty()
    }
}

/// The falling part of a dispatch history over ancestors `anc` with target
/// `cur`, covering indices `[0, m)`: one `Visit` per index in ascending
/// order, each optionally followed by the `Nested` record of the sub-event
/// its handler returned — itself a valid dispatch over the window strictly
/// above that ancestor, with the original target preserved.
pub open spec fn fall_trace_upto(
    tr: Seq<HistStep>,
    anc: Seq<Seq<char>>,
    cur: Seq<char>,
    m: int,
) -> bool
    decreases anc.len(), m, tr.len(),
{
    if m <= 0 || m > anc.len() {
        m == 0 && tr.len() == 0
    } else {
        ||| (tr.len() >= 1 && (tr.last() matches HistStep::Visit { name, phase } && name == anc[m
            - 1] && phase == EventPhase::Falling) && fall_trace_upto(tr.drop_last(), anc, cur, m
            - 1))
        ||| (tr.len() >= 2 && (tr.last() matches HistStep::Nested { at, phase, sub, cf, ce, cr }
            && at == m - 1 && phase == EventPhase::Falling && valid_dispatch_hist(
            sub,
            anc.skip(m),
            cur,
            cf,
            ce,
            cr,
        )) && (tr[tr.len() - 2] matches HistStep::Visit { name, phase } && name == anc[m - 1]
            && phase == EventPhase::Falling) && fall_trace_upto(tr.take(tr.len() - 2), anc, cur, m
            - 1))
    }
}

/// The rising part of a dispatch history over ancestors `anc` with target
/// `cur`, covering the topmost `k` indices: one `Visit` per index from
/// `anc.len() - 1` downward, each optionally followed by its `Nested`
/// record, valid over the window strictly above its ancestor.
pub open spec fn rise_trace_upto(
    tr: Seq<HistStep>,
    anc: Seq<Seq<char>>,
    cur: Seq<char>,
    k: int,
) -> bool
    decreases anc.len(), k, tr.len(),
{
    if k <= 0 || k > anc.len() {
        k == 0 && tr.len() == 0
    } else {
        ||| (tr.len() >= 1 && (tr.last() matches HistStep::Visit { name, phase } && name
            == anc[anc.len() - k] && phase == EventPhase::Rising) && rise_trace_upto(
            tr.drop_last(),
            anc,
            cur,
            k - 1,
        ))
        ||| (tr.len() >= 2 && (tr.last() matches HistStep::Nested { at, phase, sub, cf, ce, cr }
            && at == anc.len() - k && phase == EventPhase::Rising && valid_dispatch_hist(
            sub,
            anc.skip(anc.len() - k + 1),
            cur,
            cf,
            ce,
            cr,
        )) && (tr[tr.len() - 2] matches HistStep::Visit { name, phase } && name == anc[anc.len()
            - k] && phase == EventPhase::Rising) && rise_trace_upto(tr.take(tr.len() - 2), anc, cur, k
            - 1))
    }
}

/// The falling segment of a dispatch history: its longest all-`Falling`
/// prefix.
pub open spec fn fall_of(tr: Seq<HistStep>) -> Seq<HistStep> {
    phase_prefix(tr, EventPhase::Falling)
}

/// The acting segment of a dispatch history: what follows the falling
/// segment, as far as it happened under `Acting`.
pub open spec fn act_of(tr: Seq<HistStep>) -> Seq<HistStep> {
    phase_prefix(tr.skip(fall_of(tr).len() as int), EventPhase::Acting)
}

/// The rising segment of a dispatch history: everything after the falling
/// and acting segments.
pub open spec fn rise_of(tr: Seq<HistStep>) -> Seq<HistStep> {
    tr.skip(fall_of(tr).len() + act_of(tr).len() as int)
}

/// What one dispatch appends to a wrapper's history, given the final state
/// of its cancellation flags: a falling pass over a prefix of the
/// ancestors (all of them when `can_fall` survived), at most one acting
/// visit of the target (exactly one when `can_eval` survived), and a
/// rising pass over a top run of the ancestors (all of them when
/// `can_rise` survived) — in that order.
pub open spec fn valid_dispatch_hist(
    tr: Seq<HistStep>,
    anc: Seq<Seq<char>>,
    cur: Seq<char>,
    cf: bool,
    ce: bool,
    cr: bool,
) -> bool
    decreases anc.len(), anc.len() + 2, tr.len(),
{
    let fa = fall_of(tr);
    let ac = act_of(tr);
    let ri = rise_of(tr);
    let m = visit_count(fa);
    let k = visit_count(ri);
    if 0 <= m <= anc.len() && 0 <= k <= anc.len() {
        &&& fall_trace_upto(fa, anc, cur, m)
        &&& (cf ==> m == anc.len())
        &&& (ac == Seq::<HistStep>::empty() || ac == seq![
            HistStep::Visit { name: cur, phase: EventPhase::Acting },
        ])
        &&& (ce ==> ac.len() == 1)
        &&& (ac.len() == 0 ==> !ce)
        &&& rise_trace_upto(ri, anc, cur, k)
        &&& (cr ==> k == anc.len())
    } else {
        false
    }
}

/// The longest same-phase prefix of `a + b` is exactly `a`, when every
/// step of `a` happened under that phase and `b` opens with another.
proof fn lemma_phase_prefix_exact(a: Seq<HistStep>, b: Seq<HistStep>, ph: EventPhase)
    requires
        forall|i: int| 0 <= i < a.len() ==> (#[trigger] a[i].step_phase()) == ph,
        b.len() > 0 ==> b[0].step_phase() != ph,
    ensures
        phase_prefix(a + b, ph) == a,
    decreases a.len(),
{
    if a.len() == 0 {
        if b.len() == 0 {
            assert(phase_prefix(a + b, ph) =~= a);
        } else {
            assert((a + b)[0] == b[0]);
            assert(phase_prefix(a + b, ph) =~= a);
        }
    } else {
        assert((a + b)[0] == a[0]);
        assert((a + b).skip(1) =~= a.skip(1) + b);
        lemma_phase_prefix_exact(a.skip(1), b, ph);
        assert(phase_prefix(a + b, ph) =~= seq![a[0]] + a.skip(1));
        assert(seq![a[0]] + a.skip(1) =~= a);
    }
}

impl<B: NodeHandler<B>> OuterNodeContext<B> {
    /// Fires an [`Event`] to run through the backbone to the current node,
    /// and hands the event back once the dispatch is over.
    pub fn process_event<E: Event>(&mut self, event: E) -> (r: E)
        ensures
            names_of(final(self).context.cons@) == names_of(old(self).context.cons@),
            final(self).context.name@ == old(self).context.name@,
            final(self).current.name@ == old(self).current.name@,
    {
        let mut wrapper = EventWrapper::new(event);
        self.process_event_wrapper(&mut wrapper);
        wrapper.unwrap()
    }

    /// Fires an [`Event`], wrapped in an [`EventWrapper`], to run through
    /// the backbone to the current node: a falling pass over the ancestors
    /// root-first, one acting delivery to the target, and a rising pass
    /// back towards the root, each step guarded by its cancellation flag.
    /// A sub-event returned during Falling or Rising is re-dispatched at
    /// once into the window strictly below the node that returned it; one
    /// returned during Acting is discarded.
    ///
    /// Everything the dispatch delivered is appended to the wrapper's
    /// history, in order, and forms a valid dispatch history over this
    /// context's ancestor names and target name.
    pub fn process_event_wrapper<E: Event>(&mut self, wrapper: &mut EventWrapper<E>)
        ensures
            names_of(final(self).context.cons@) == names_of(old(self).context.cons@),
            final(self).context.name@ == old(self).context.name@,
            final(self).current.name@ == old(self).current.name@,
            old(wrapper).flags_monotone_to(final(wrapper)),
            phase_rank(final(wrapper).spec_phase()) >= phase_rank(old(wrapper).spec_phase()),
            final(wrapper).spec_hist().len() >= old(wrapper).spec_hist().len(),
            final(wrapper).spec_hist().take(old(wrapper).spec_hist().len() as int) == old(
                wrapper,
            ).spec_hist(),
            valid_dispatch_hist(
                final(wrapper).spec_hist().skip(old(wrapper).spec_hist().len() as int),
                names_of(old(self).context.cons@),
                old(self).current.name@,
                final(wrapper).spec_can_fall(),
                final(wrapper).spec_can_eval(),
                final(wrapper).spec_can_rise(),
            ),
        decreases old(self).context.cons@.len(),
    {
        let ghost anc = names_of(self.context.cons@);
        let ghost cur = self.current.name@;
        let ghost hist0 = wrapper.spec_hist();
        let ghost name0 = self.context.name@;
        let n = self.context.cons.len();

        // Falling: root towards the node just above the target.
        let ghost mut fa: Seq<HistStep> = Seq::empty();
        let ghost mut m: int = 0;
        let mut idx: usize = 0;
        proof {
            assert(hist0 + fa =~= hist0);
        }
        while idx < n
            invariant
                idx <= n,
                n == self.context.cons@.len(),
                names_of(self.context.cons@) == anc,
                self.context.name@ == name0,
                self.current.name@ == cur,
                anc.len() == n,
                anc == names_of(old(self).context.cons@),
                cur == old(self).current.name@,
                name0 == old(self).context.name@,
                hist0 == old(wrapper).spec_hist(),
                wrapper.spec_hist() == hist0 + fa,
                fall_trace_upto(fa, anc, cur, m),
                visit_count(fa) == m,
                forall|i: int|
                    0 <= i < fa.len() ==> (#[trigger] fa[i].step_phase()) == EventPhase::Falling,
                0 <= m <= idx,
                wrapper.spec_can_fall() ==> m == idx,
                old(wrapper).flags_monotone_to(wrapper),
                phase_rank(wrapper.spec_phase()) >= phase_rank(old(wrapper).spec_phase()),
            decreases n - idx,
        {
            if wrapper.can(EventPhase::Falling) {
                proof {
                    assert(m == idx as int);
                }
                wrapper.next_phase(EventPhase::Falling);
                let mut sub = self.get_subcontext_before(idx).unwrap();
                let ghost fa_before = fa;
                let ghost visit = HistStep::Visit {
                    name: anc[idx as int],
                    phase: EventPhase::Falling,
                };
                proof {
                    assert(names_of(self.context.cons@) =~= anc.skip(idx + 1));
                    assert(names_of(sub.context.cons@) =~= anc.take(idx as int));
                    assert(sub.current.name@ == anc[idx as int]);
                    assert(wrapper.spec_phase() != EventPhase::Creation);
                }
                wrapper.record(Ghost(visit));
                proof {
                    fa = fa.push(visit);
                    assert(wrapper.spec_hist() =~= hist0 + fa);
                }
                let subev = sub.current.node.handle_event(wrapper, &mut sub.context);
                if let Some(se) = subev {
                    let mut sw = wrapper.sub_wrapper(se);
                    proof {
                        assert(self.context.cons@.len() < old(self).context.cons@.len());
                    }
                    self.process_event_wrapper(&mut sw);
                    let ghost nested = HistStep::Nested {
                        at: idx as int,
                        phase: EventPhase::Falling,
                        sub: sw.spec_hist(),
                        cf: sw.spec_can_fall(),
                        ce: sw.spec_can_eval(),
                        cr: sw.spec_can_rise(),
                    };
                    wrapper.record(Ghost(nested));
                    proof {
                        assert(sw.spec_hist().skip(0) =~= sw.spec_hist());
                        assert(valid_dispatch_hist(
                            sw.spec_hist(),
                            anc.skip(idx + 1),
                            cur,
                            sw.spec_can_fall(),
                            sw.spec_can_eval(),
                            sw.spec_can_rise(),
                        ));
                        assert(nested->sub == sw.spec_hist());
                        let fa2 = fa.push(nested);
                        assert(wrapper.spec_hist() =~= hist0 + fa2);
                        assert(fa2.take(fa2.len() - 2) =~= fa_before);
                        assert(fa2[fa2.len() - 2] == visit);
                        assert(fa2.last() == nested);
                        assert(fa2.drop_last() =~= fa);
                        assert(fa.drop_last() =~= fa_before);
                        assert(fa.last() == visit);
                        assert(visit_count(fa) == visit_count(fa_before) + 1);
                        assert(visit_count(fa2) == visit_count(fa));
                        fa = fa2;
                        m = idx + 1;
                        assert(fall_trace_upto(fa_before, anc, cur, m - 1));
                        assert(fall_trace_upto(fa, anc, cur, m));
                    }
                } else {
                    proof {
                        assert(fa.last() == visit);
                        assert(fa.drop_last() =~= fa_before);
                        assert(visit_count(fa) == visit_count(fa_before) + 1);
                        m = idx + 1;
                        assert(fall_trace_upto(fa_before, anc, cur, m - 1));
                        assert(fall_trace_upto(fa, anc, cur, m));
                    }
                }
                let ghost sub_snapshot = sub.context.cons@;
                let ghost sub_cur = sub.current;
                let ghost prev = self.context.cons@;
                proof {
                    assert(names_of(sub_snapshot) =~= anc.take(idx as int));
                    assert(names_of(prev) =~= anc.skip(idx + 1));
                }
                self.restore_subcontext_before(sub);
                proof {
                    lemma_names_of_concat3(sub_snapshot, sub_cur, prev);
                    assert(anc.take(idx as int) + seq![anc[idx as int]] + anc.skip(idx + 1) =~= anc);
                    assert(names_of(self.context.cons@) == anc);
                }
            }
            idx += 1;
        }

        // Acting: exactly once, on the target itself, with the full
        // ancestor run in context. A sub-event returned here is discarded.
        let ghost mut ac: Seq<HistStep> = Seq::empty();
        if wrapper.can(EventPhase::Acting) {
            wrapper.next_phase(EventPhase::Acting);
            let ghost acting = HistStep::Visit { name: cur, phase: EventPhase::Acting };
            wrapper.record(Ghost(acting));
            proof {
                ac = seq![acting];
                assert(wrapper.spec_hist() =~= hist0 + fa + ac);
                assert(wrapper.spec_phase() != EventPhase::Creation);
            }
            let _discarded = self.current.node.handle_event(wrapper, &mut self.context);
        } else {
            proof {
                assert(hist0 + fa + ac =~= hist0 + fa);
            }
        }

        // Rising: the node just above the target back towards the root.
        let ghost mut ri: Seq<HistStep> = Seq::empty();
        let ghost mut k: int = 0;
        let mut ridx: usize = n;
        proof {
            assert(hist0 + fa + ac + ri =~= hist0 + fa + ac);
        }
        while ridx > 0
            invariant
                ridx <= n,
                n == self.context.cons@.len(),
                names_of(self.context.cons@) == anc,
                self.context.name@ == name0,
                self.current.name@ == cur,
                anc.len() == n,
                anc == names_of(old(self).context.cons@),
                cur == old(self).current.name@,
                name0 == old(self).context.name@,
                hist0 == old(wrapper).spec_hist(),
                wrapper.spec_hist() == hist0 + fa + ac + ri,
                fall_trace_upto(fa, anc, cur, m),
                visit_count(fa) == m,
                forall|i: int|
                    0 <= i < fa.len() ==> (#[trigger] fa[i].step_phase()) == EventPhase::Falling,
                0 <= m <= n,
                wrapper.spec_can_fall() ==> m == n,
                ac == Seq::<HistStep>::empty() || ac == seq![
                    HistStep::Visit { name: cur, phase: EventPhase::Acting },
                ],
                ac.len() == 0 ==> !wrapper.spec_can_eval(),
                rise_trace_upto(ri, anc, cur, k),
                visit_count(ri) == k,
                forall|i: int|
                    0 <= i < ri.len() ==> (#[trigger] ri[i].step_phase()) == EventPhase::Rising,
                0 <= k <= n - ridx,
                wrapper.spec_can_rise() ==> k == n - ridx,
                old(wrapper).flags_monotone_to(wrapper),
                phase_rank(wrapper.spec_phase()) >= phase_rank(old(wrapper).spec_phase()),
            decreases ridx,
        {
            ridx -= 1;
            if wrapper.can(EventPhase::Rising) {
                proof {
                    assert(k == n - ridx - 1);
                }
                wrapper.next_phase(EventPhase::Rising);
                let mut sub = self.get_subcontext_before(ridx).unwrap();
                let ghost ri_before = ri;
                let ghost visit = HistStep::Visit {
                    name: anc[ridx as int],
                    phase: EventPhase::Rising,
                };
                proof {
                    assert(names_of(self.context.cons@) =~= anc.skip(ridx + 1));
                    assert(names_of(sub.context.cons@) =~= anc.take(ridx as int));
                    assert(sub.current.name@ == anc[ridx as int]);
                    assert(anc.len() - (k + 1) == ridx);
                    assert(wrapper.spec_phase() != EventPhase::Creation);
                }
                wrapper.record(Ghost(visit));
                proof {
                    ri = ri.push(visit);
                    assert(wrapper.spec_hist() =~= hist0 + fa + ac + ri);
                }
                let subev = sub.current.node.handle_event(wrapper, &mut sub.context);
                if let Some(se) = subev {
                    let mut sw = wrapper.sub_wrapper(se);
                    proof {
                        assert(self.context.cons@.len() < old(self).context.cons@.len());
                    }
                    self.process_event_wrapper(&mut sw);
                    let ghost nested = HistStep::Nested {
                        at: ridx as int,
                        phase: EventPhase::Rising,
                        sub: sw.spec_hist(),
                        cf: sw.spec_can_fall(),
                        ce: sw.spec_can_eval(),
                        cr: sw.spec_can_rise(),
                    };
                    wrapper.record(Ghost(nested));
                    proof {
                        assert(sw.spec_hist().skip(0) =~= sw.spec_hist());
                        assert(valid_dispatch_hist(
                            sw.spec_hist(),
                            anc.skip(ridx + 1),
                            cur,
                            sw.spec_can_fall(),
                            sw.spec_can_eval(),
                            sw.spec_can_rise(),
                        ));
                        assert(nested->sub == sw.spec_hist());
                        let ri2 = ri.push(nested);
                        assert(wrapper.spec_hist() =~= hist0 + fa + ac + ri2);
                        assert(ri2.take(ri2.len() - 2) =~= ri_before);
                        assert(ri2[ri2.len() - 2] == visit);
                        assert(ri2.last() == nested);
                        assert(ri2.drop_last() =~= ri);
                        assert(ri.drop_last() =~= ri_before);
                        assert(ri.last() == visit);
                        assert(visit_count(ri) == visit_count(ri_before) + 1);
                        assert(visit_count(ri2) == visit_count(ri));
                        ri = ri2;
                        k = k + 1;
                        assert(anc.len() - k == ridx);
                        assert(rise_trace_upto(ri_before, anc, cur, k - 1));
                        assert(rise_trace_upto(ri, anc, cur, k));
                    }
                } else {
                    proof {
                        assert(ri.last() == visit);
                        assert(ri.drop_last() =~= ri_before);
                        assert(visit_count(ri) == visit_count(ri_before) + 1);
                        k = k + 1;
                        assert(anc.len() - k == ridx);
                        assert(rise_trace_upto(ri_before, anc, cur, k - 1));
                        assert(rise_trace_upto(ri, anc, cur, k));
                    }
                }
                let ghost sub_snapshot = sub.context.cons@;
                let ghost sub_cur = sub.current;
                let ghost prev = self.context.cons@;
                proof {
                    assert(names_of(sub_snapshot) =~= anc.take(ridx as int));
                    assert(names_of(prev) =~= anc.skip(ridx + 1));
                }
                self.restore_subcontext_before(sub);
                proof {
                    lemma_names_of_concat3(sub_snapshot, sub_cur, prev);
                    assert(anc.take(ridx as int) + seq![anc[ridx as int]] + anc.skip(ridx + 1)
                        =~= anc);
                    assert(names_of(self.context.cons@) == anc);
                }
            }
        }

        proof {
            let appended = fa + ac + ri;
            assert(wrapper.spec_hist() =~= hist0 + appended);
            assert(wrapper.spec_hist().take(hist0.len() as int) =~= hist0);
            assert(wrapper.spec_hist().skip(hist0.len() as int) =~= appended);
            lemma_phase_prefix_exact(fa, ac + ri, EventPhase::Falling);
            assert(fa + (ac + ri) =~= appended);
            assert(fall_of(appended) == fa);
            lemma_phase_prefix_exact(ac, ri, EventPhase::Acting);
            assert(appended.skip(fall_of(appended).len() as int) =~= ac + ri);
            assert(act_of(appended) == ac);
            assert(rise_of(appended) =~= ri);
            assert(valid_dispatch_hist(
                appended,
                anc,
                cur,
                wrapper.spec_can_fall(),
                wrapper.spec_can_eval(),
                wrapper.spec_can_rise(),
            ));
        }
    }
}

/// Appends `/` followed by `seg` to `out`.
pub(crate) fn append_seg(out: &mut String, seg: &str)
    ensures
        final(out)@ == old(out)@ + seq!['/'] + seg@,
{
    proof {
        reveal_strlit("/");
    }
    let ghost prev = out@;
    out.append("/");
    proof {
        assert("/"@ =~= seq!['/']);
    }
    out.append(seg);
    proof {
        assert(out@ =~= prev + seq!['/'] + seg@);
    }
}

} // verus!
