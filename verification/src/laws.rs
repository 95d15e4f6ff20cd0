//! The engine's cross-cutting guarantees, stated and proved over the
//! dispatch histories and stack views that the contracts use.

use vstd::prelude::*;
use crate::event::{EventPhase, HistStep};
use crate::ctx::{hist_names, step_names};
use crate::ctx::{
    fall_of, act_of, rise_of, fall_trace_upto, rise_trace_upto, phase_prefix, visit_count,
    valid_dispatch_hist,
};
use crate::node::{NamedNodeHandlerBox, NodeHandler, NavError};
use crate::backbone::{Backbone, pump_post};
use crate::thunk::ThunkView;

verus! {

/// The handler visits a history records, in order, with the nested
/// dispatch records left out.
pub open spec fn visits_of(tr: Seq<HistStep>) -> Seq<HistStep> {
    tr.filter(|s: HistStep| s is Visit)
}

/// The visits of a falling part covering `[0, m)` are exactly one visit
/// per ancestor index, in ascending order.
proof fn lemma_fall_visits(fa: Seq<HistStep>, anc: Seq<Seq<char>>, cur: Seq<char>, m: int)
    requires
        fall_trace_upto(fa, anc, cur, m),
    ensures
        visits_of(fa).len() == m,
        forall|i: int|
            0 <= i < m ==> visits_of(fa)[i] == (HistStep::Visit {
                name: anc[i],
                phase: EventPhase::Falling,
            }),
    decreases fa.len(),
{
    reveal_with_fuel(Seq::filter, 3);
    if m <= 0 || m > anc.len() {
        assert(visits_of(fa).len() == 0);
    } else if fa.len() >= 1 && (fa.last() matches HistStep::Visit { name, phase } && name == anc[m
        - 1] && phase == EventPhase::Falling) && fall_trace_upto(fa.drop_last(), anc, cur, m - 1) {
        lemma_fall_visits(fa.drop_last(), anc, cur, m - 1);
        assert(visits_of(fa) == visits_of(fa.drop_last()).push(fa.last()));
    } else {
        let pre = fa.take(fa.len() - 2);
        lemma_fall_visits(pre, anc, cur, m - 1);
        assert(fa.drop_last() =~= pre.push(fa[fa.len() - 2]));
        assert(visits_of(fa) == visits_of(fa.drop_last()));
        assert(pre.push(fa[fa.len() - 2]).drop_last() =~= pre);
        assert(pre.push(fa[fa.len() - 2]).last() == fa[fa.len() - 2]);
        assert(visits_of(fa.drop_last()) == visits_of(pre).push(fa[fa.len() - 2]));
    }
}

/// The visits of a rising part covering the topmost `k` indices are
/// exactly one visit per index, in descending order from the top.
proof fn lemma_rise_visits(ri: Seq<HistStep>, anc: Seq<Seq<char>>, cur: Seq<char>, k: int)
    requires
        rise_trace_upto(ri, anc, cur, k),
    ensures
        visits_of(ri).len() == k,
        forall|i: int|
            0 <= i < k ==> visits_of(ri)[i] == (HistStep::Visit {
                name: anc[anc.len() - 1 - i],
                phase: EventPhase::Rising,
            }),
    decreases ri.len(),
{
    reveal_with_fuel(Seq::filter, 3);
    if k <= 0 || k > anc.len() {
        assert(visits_of(ri).len() == 0);
    } else if ri.len() >= 1 && (ri.last() matches HistStep::Visit { name, phase } && name
        == anc[anc.len() - k] && phase == EventPhase::Rising) && rise_trace_upto(
        ri.drop_last(),
        anc,
        cur,
        k - 1,
    ) {
        lemma_rise_visits(ri.drop_last(), anc, cur, k - 1);
        assert(visits_of(ri) == visits_of(ri.drop_last()).push(ri.last()));
    } else {
        let pre = ri.take(ri.len() - 2);
        lemma_rise_visits(pre, anc, cur, k - 1);
        assert(ri.drop_last() =~= pre.push(ri[ri.len() - 2]));
        assert(visits_of(ri) == visits_of(ri.drop_last()));
        assert(pre.push(ri[ri.len() - 2]).drop_last() =~= pre);
        assert(pre.push(ri[ri.len() - 2]).last() == ri[ri.len() - 2]);
        assert(visits_of(ri.drop_last()) == visits_of(pre).push(ri[ri.len() - 2]));
    }
}

/// Monotone cancellation: in any dispatch history, the falling visits are
/// one visit per ancestor index `0, 1, 2, ...` in that order and with no
/// gaps — so once falling stops at some index, no handler at any higher
/// index is visited during that falling pass. When `can_fall` survived
/// the dispatch, the pass covered every ancestor.
pub proof fn lemma_monotone_cancellation(
    tr: Seq<HistStep>,
    anc: Seq<Seq<char>>,
    cur: Seq<char>,
    cf: bool,
    ce: bool,
    cr: bool,
)
    requires
        valid_dispatch_hist(tr, anc, cur, cf, ce, cr),
    ensures
        visits_of(fall_of(tr)).len() <= anc.len(),
        forall|i: int|
            0 <= i < visits_of(fall_of(tr)).len() ==> visits_of(fall_of(tr))[i] == (
            HistStep::Visit { name: anc[i], phase: EventPhase::Falling }),
        cf ==> visits_of(fall_of(tr)).len() == anc.len(),
{
    let fa = fall_of(tr);
    let m = visit_count(fa);
    lemma_fall_visits(fa, anc, cur, m);
}

/// A same-phase prefix really is a prefix of the history it was scanned
/// from.
proof fn lemma_phase_prefix_take(tr: Seq<HistStep>, ph: EventPhase)
    ensures
        phase_prefix(tr, ph).len() <= tr.len(),
        phase_prefix(tr, ph) == tr.take(phase_prefix(tr, ph).len() as int),
    decreases tr.len(),
{
    if tr.len() > 0 && tr[0].step_phase() == ph {
        lemma_phase_prefix_take(tr.skip(1), ph);
        let l = phase_prefix(tr.skip(1), ph).len() as int;
        assert(seq![tr[0]] + tr.skip(1).take(l) =~= tr.take(l + 1));
    }
}

/// Filtering for visits keeps a history that holds nothing else.
proof fn lemma_visits_of_all_visits(s: Seq<HistStep>)
    requires
        forall|i: int| 0 <= i < s.len() ==> (#[trigger] s[i]) is Visit,
    ensures
        visits_of(s) == s,
    decreases s.len(),
{
    reveal_with_fuel(Seq::filter, 2);
    if s.len() > 0 {
        lemma_visits_of_all_visits(s.drop_last());
        assert(visits_of(s) == visits_of(s.drop_last()).push(s.last()));
        assert(visits_of(s.drop_last()).push(s.last()) =~= s);
    }
}

/// The exact call sequence of an uncancelled dispatch without sub-events:
/// one falling visit per ancestor from the root down, one acting visit of
/// the target, and one rising visit per ancestor from the target back up.
pub open spec fn full_dispatch_seq(anc: Seq<Seq<char>>, cur: Seq<char>) -> Seq<HistStep> {
    Seq::new(
        anc.len(),
        |i: int| HistStep::Visit { name: anc[i], phase: EventPhase::Falling },
    ) + seq![HistStep::Visit { name: cur, phase: EventPhase::Acting }] + Seq::new(
        anc.len(),
        |i: int| HistStep::Visit { name: anc[anc.len() - 1 - i], phase: EventPhase::Rising },
    )
}

/// Phase ordering: a dispatch in which every flag survived and no handler
/// returned a sub-event visits, in order, every ancestor falling
/// (root-first), then the target acting, then every ancestor rising
/// (target-first) — nothing more, nothing less, nothing reordered.
#[verifier::rlimit(60)]
pub proof fn lemma_phase_ordering(tr: Seq<HistStep>, anc: Seq<Seq<char>>, cur: Seq<char>)
    requires
        valid_dispatch_hist(tr, anc, cur, true, true, true),
        forall|i: int| 0 <= i < tr.len() ==> (#[trigger] tr[i]) is Visit,
    ensures
        tr == full_dispatch_seq(anc, cur),
{
    let fa = fall_of(tr);
    let ac = act_of(tr);
    let ri = rise_of(tr);
    let n = anc.len() as int;
    lemma_phase_prefix_take(tr, EventPhase::Falling);
    lemma_phase_prefix_take(tr.skip(fa.len() as int), EventPhase::Acting);
    assert(tr == fa + ac + ri) by {
        assert(fa + ac + ri =~= tr);
    }
    assert(forall|i: int| 0 <= i < fa.len() ==> (#[trigger] fa[i]) is Visit) by {
        assert(forall|i: int| 0 <= i < fa.len() ==> fa[i] == tr[i]);
    }
    assert(forall|i: int|
        0 <= i < ri.len() ==> (#[trigger] ri[i]) is Visit) by {
        assert(forall|i: int|
            0 <= i < ri.len() ==> ri[i] == tr[i + fa.len() + ac.len()]);
    }
    lemma_fall_visits(fa, anc, cur, visit_count(fa));
    lemma_rise_visits(ri, anc, cur, visit_count(ri));
    lemma_visits_of_all_visits(fa);
    lemma_visits_of_all_visits(ri);
    assert(fa =~= Seq::new(
        anc.len(),
        |i: int| HistStep::Visit { name: anc[i], phase: EventPhase::Falling },
    ));
    assert(ri =~= Seq::new(
        anc.len(),
        |i: int| HistStep::Visit { name: anc[anc.len() - 1 - i], phase: EventPhase::Rising },
    ));
    assert(tr =~= full_dispatch_seq(anc, cur));
}

/// Names mentioned by a concatenation of histories.
proof fn lemma_hist_names_add(a: Seq<HistStep>, b: Seq<HistStep>)
    ensures
        hist_names(a + b) == hist_names(a) + hist_names(b),
    decreases a.len(),
{
    if a.len() == 0 {
        assert(a + b =~= b);
        assert(hist_names(a) =~= Set::<Seq<char>>::empty());
        assert(hist_names(a + b) =~= hist_names(a) + hist_names(b));
    } else {
        assert((a + b)[0] == a[0]);
        assert((a + b).skip(1) =~= a.skip(1) + b);
        lemma_hist_names_add(a.skip(1), b);
        assert(hist_names(a + b) =~= hist_names(a) + hist_names(b));
    }
}

/// Names mentioned by a snoc.
proof fn lemma_hist_names_push(s: Seq<HistStep>, x: HistStep)
    ensures
        hist_names(s.push(x)) == hist_names(s) + step_names(x),
{
    assert(s.push(x) =~= s + seq![x]);
    lemma_hist_names_add(s, seq![x]);
    assert(seq![x].skip(1) =~= Seq::<HistStep>::empty());
    assert(hist_names(seq![x].skip(1)) =~= Set::<Seq<char>>::empty());
    assert(seq![x][0] == x);
    assert(hist_names(seq![x]) =~= step_names(x));
}

/// Every name a valid dispatch history mentions — nested dispatches
/// included — belongs to the window it ran over: its ancestors and its
/// target.
pub proof fn lemma_valid_names(
    tr: Seq<HistStep>,
    anc: Seq<Seq<char>>,
    cur: Seq<char>,
    cf: bool,
    ce: bool,
    cr: bool,
)
    requires
        valid_dispatch_hist(tr, anc, cur, cf, ce, cr),
    ensures
        hist_names(tr).subset_of(anc.to_set().insert(cur)),
    decreases anc.len(), anc.len() + 2, tr.len(),
{
    let fa = fall_of(tr);
    let ac = act_of(tr);
    let ri = rise_of(tr);
    lemma_phase_prefix_take(tr, EventPhase::Falling);
    lemma_phase_prefix_take(tr.skip(fa.len() as int), EventPhase::Acting);
    assert(fa + ac + ri =~= tr);
    lemma_fall_names(fa, anc, cur, visit_count(fa));
    lemma_rise_names(ri, anc, cur, visit_count(ri));
    assert(hist_names(ac).subset_of(anc.to_set().insert(cur))) by {
        if ac.len() > 0 {
            assert(ac =~= seq![HistStep::Visit { name: cur, phase: EventPhase::Acting }]);
            assert(ac.skip(1) =~= Seq::<HistStep>::empty());
            assert(hist_names(ac.skip(1)) =~= Set::<Seq<char>>::empty());
            assert(ac[0] == HistStep::Visit { name: cur, phase: EventPhase::Acting });
            assert(step_names(ac[0]) =~= set![cur]);
            assert(hist_names(ac) =~= set![cur]);
        } else {
            assert(hist_names(ac) =~= Set::<Seq<char>>::empty());
        }
    }
    lemma_hist_names_add(fa + ac, ri);
    lemma_hist_names_add(fa, ac);
    assert(hist_names(tr) == hist_names(fa) + hist_names(ac) + hist_names(ri));
}

/// As [`lemma_valid_names`], for the falling part alone.
proof fn lemma_fall_names(fa: Seq<HistStep>, anc: Seq<Seq<char>>, cur: Seq<char>, m: int)
    requires
        fall_trace_upto(fa, anc, cur, m),
    ensures
        hist_names(fa).subset_of(anc.to_set().insert(cur)),
    decreases anc.len(), m, fa.len(),
{
    if m <= 0 || m > anc.len() {
        assert(hist_names(fa) =~= Set::<Seq<char>>::empty());
    } else if fa.len() >= 1 && (fa.last() matches HistStep::Visit { name, phase } && name == anc[m
        - 1] && phase == EventPhase::Falling) && fall_trace_upto(fa.drop_last(), anc, cur, m - 1) {
        lemma_fall_names(fa.drop_last(), anc, cur, m - 1);
        lemma_hist_names_push(fa.drop_last(), fa.last());
        assert(fa.drop_last().push(fa.last()) =~= fa);
        assert(anc.contains(anc[m - 1]));
    } else {
        let pre = fa.take(fa.len() - 2);
        let visit = fa[fa.len() - 2];
        let nested = fa.last();
        lemma_fall_names(pre, anc, cur, m - 1);
        let sub = nested->sub;
        lemma_valid_names(sub, anc.skip(m), cur, nested->cf, nested->ce, nested->cr);
        assert forall|x: Seq<char>| hist_names(sub).contains(x) implies anc.to_set().insert(
            cur,
        ).contains(x) by {
            if x != cur {
                assert(anc.skip(m).to_set().contains(x));
                assert(anc.skip(m).contains(x));
                let j = choose|j: int|
                    0 <= j < anc.skip(m).len() && #[trigger] anc.skip(m)[j] == x;
                assert(anc[j + m] == x);
                assert(anc.contains(x));
            }
        }
        lemma_hist_names_push(pre, visit);
        lemma_hist_names_push(pre.push(visit), nested);
        assert(pre.push(visit).push(nested) =~= fa);
        assert(anc.contains(anc[m - 1]));
        assert(step_names(visit) =~= set![anc[m - 1]]);
    }
}

/// As [`lemma_valid_names`], for the rising part alone.
proof fn lemma_rise_names(ri: Seq<HistStep>, anc: Seq<Seq<char>>, cur: Seq<char>, k: int)
    requires
        rise_trace_upto(ri, anc, cur, k),
    ensures
        hist_names(ri).subset_of(anc.to_set().insert(cur)),
    decreases anc.len(), k, ri.len(),
{
    if k <= 0 || k > anc.len() {
        assert(hist_names(ri) =~= Set::<Seq<char>>::empty());
    } else if ri.len() >= 1 && (ri.last() matches HistStep::Visit { name, phase } && name
        == anc[anc.len() - k] && phase == EventPhase::Rising) && rise_trace_upto(
        ri.drop_last(),
        anc,
        cur,
        k - 1,
    ) {
        lemma_rise_names(ri.drop_last(), anc, cur, k - 1);
        lemma_hist_names_push(ri.drop_last(), ri.last());
        assert(ri.drop_last().push(ri.last()) =~= ri);
        assert(anc.contains(anc[anc.len() - k]));
    } else {
        let pre = ri.take(ri.len() - 2);
        let visit = ri[ri.len() - 2];
        let nested = ri.last();
        lemma_rise_names(pre, anc, cur, k - 1);
        let sub = nested->sub;
        lemma_valid_names(
            sub,
            anc.skip(anc.len() - k + 1),
            cur,
            nested->cf,
            nested->ce,
            nested->cr,
        );
        assert forall|x: Seq<char>| hist_names(sub).contains(x) implies anc.to_set().insert(
            cur,
        ).contains(x) by {
            if x != cur {
                assert(anc.skip(anc.len() - k + 1).to_set().contains(x));
                assert(anc.skip(anc.len() - k + 1).contains(x));
                let j = choose|j: int|
                    0 <= j < anc.skip(anc.len() - k + 1).len() && #[trigger] anc.skip(
                        anc.len() - k + 1,
                    )[j] == x;
                assert(anc[j + anc.len() - k + 1] == x);
                assert(anc.contains(x));
            }
        }
        lemma_hist_names_push(pre, visit);
        lemma_hist_names_push(pre.push(visit), nested);
        assert(pre.push(visit).push(nested) =~= ri);
        assert(anc.contains(anc[anc.len() - k]));
        assert(step_names(visit) =~= set![anc[anc.len() - k]]);
    }
}

/// Locates one nested record inside a falling part and gives what holds
/// of it.
proof fn lemma_fall_nested_at(fa: Seq<HistStep>, anc: Seq<Seq<char>>, cur: Seq<char>, m: int, i: int)
    requires
        fall_trace_upto(fa, anc, cur, m),
        0 <= i < fa.len(),
        fa[i] is Nested,
    ensures
        0 <= fa[i]->at < anc.len(),
        hist_names(fa[i]->sub).subset_of(anc.skip(fa[i]->at + 1).to_set().insert(cur)),
    decreases fa.len(),
{
    if fa.len() >= 1 && (fa.last() matches HistStep::Visit { name, phase } && name == anc[m - 1]
        && phase == EventPhase::Falling) && fall_trace_upto(fa.drop_last(), anc, cur, m - 1) {
        assert(i < fa.len() - 1);
        assert(fa.drop_last()[i] == fa[i]);
        lemma_fall_nested_at(fa.drop_last(), anc, cur, m - 1, i);
    } else {
        let pre = fa.take(fa.len() - 2);
        if i == fa.len() - 1 {
            let nested = fa.last();
            lemma_valid_names(nested->sub, anc.skip(m), cur, nested->cf, nested->ce, nested->cr);
        } else {
            assert(i < fa.len() - 2);
            assert(pre[i] == fa[i]);
            lemma_fall_nested_at(pre, anc, cur, m - 1, i);
        }
    }
}

/// Locates one nested record inside a rising part and gives what holds of
/// it.
proof fn lemma_rise_nested_at(ri: Seq<HistStep>, anc: Seq<Seq<char>>, cur: Seq<char>, k: int, i: int)
    requires
        rise_trace_upto(ri, anc, cur, k),
        0 <= i < ri.len(),
        ri[i] is Nested,
    ensures
        0 <= ri[i]->at < anc.len(),
        hist_names(ri[i]->sub).subset_of(anc.skip(ri[i]->at + 1).to_set().insert(cur)),
    decreases ri.len(),
{
    if ri.len() >= 1 && (ri.last() matches HistStep::Visit { name, phase } && name == anc[anc.len()
        - k] && phase == EventPhase::Rising) && rise_trace_upto(ri.drop_last(), anc, cur, k - 1) {
        assert(i < ri.len() - 1);
        assert(ri.drop_last()[i] == ri[i]);
        lemma_rise_nested_at(ri.drop_last(), anc, cur, k - 1, i);
    } else {
        let pre = ri.take(ri.len() - 2);
        if i == ri.len() - 1 {
            let nested = ri.last();
            lemma_valid_names(
                nested->sub,
                anc.skip(anc.len() - k + 1),
                cur,
                nested->cf,
                nested->ce,
                nested->cr,
            );
        } else {
            assert(i < ri.len() - 2);
            assert(pre[i] == ri[i]);
            lemma_rise_nested_at(pre, anc, cur, k - 1, i);
        }
    }
}

/// Sub-event containment: a sub-event recorded at ancestor `at` of a
/// valid dispatch history played out entirely within the window strictly
/// above that ancestor — every node its nested dispatch mentions, however
/// deep, is an ancestor past `at` or the original target itself. It never
/// re-triggered processing at `at` or below.
pub proof fn lemma_sub_event_containment(
    tr: Seq<HistStep>,
    anc: Seq<Seq<char>>,
    cur: Seq<char>,
    cf: bool,
    ce: bool,
    cr: bool,
    i: int,
)
    requires
        valid_dispatch_hist(tr, anc, cur, cf, ce, cr),
        0 <= i < tr.len(),
        tr[i] is Nested,
    ensures
        0 <= tr[i]->at < anc.len(),
        hist_names(tr[i]->sub).subset_of(anc.skip(tr[i]->at + 1).to_set().insert(cur)),
{
    let fa = fall_of(tr);
    let ac = act_of(tr);
    let ri = rise_of(tr);
    lemma_phase_prefix_take(tr, EventPhase::Falling);
    lemma_phase_prefix_take(tr.skip(fa.len() as int), EventPhase::Acting);
    assert(fa + ac + ri =~= tr);
    if i < fa.len() {
        assert(fa[i] == tr[i]);
        lemma_fall_nested_at(fa, anc, cur, visit_count(fa), i);
    } else if i < fa.len() + ac.len() {
        assert(ac =~= seq![HistStep::Visit { name: cur, phase: EventPhase::Acting }]);
        assert(ac[i - fa.len()] == tr[i]);
        assert(false);
    } else {
        let j = i - fa.len() - ac.len();
        assert(ri[j] == tr[i]);
        lemma_rise_nested_at(ri, anc, cur, visit_count(ri), j);
    }
}

/// Disjointness: splitting a stack at a position partitions it exactly —
/// the run before the position, the entry at it, and the run after it
/// reassemble to the stack, and the ancestor run and the current entry
/// occupy distinct positions by construction.
pub proof fn lemma_context_partition<T>(s: Seq<T>, at: int)
    requires
        0 <= at < s.len(),
    ensures
        s.take(at) + seq![s[at]] + s.skip(at + 1) == s,
        s.take(at).len() == at,
        forall|i: int| 0 <= i < at ==> s.take(at)[i] == s[i],
        forall|i: int| at < i < s.len() ==> s.skip(at + 1)[i - at - 1] == s[i],
{
    assert(s.take(at) + seq![s[at]] + s.skip(at + 1) =~= s);
}

/// Component shadowing: when the target node itself registers a component
/// of a key, resolution from the target's context answers with the
/// target's component, whatever its ancestors registered.
pub proof fn lemma_component_shadowing<B: NodeHandler<B>>(
    ctx: &crate::ctx::OuterNodeContext<B>,
    k: u64,
)
    requires
        ctx.current.node.spec_comps().contains_key(k),
    ensures
        ctx.spec_resolve(k) == Some(ctx.current.node.spec_comps()[k]),
{
}

/// The same, over a whole stack: the node nearest the top that registers
/// a component of a key answers for it, shadowing every node below.
pub proof fn lemma_nearest_node_wins<B: NodeHandler<B>>(
    nodes: Seq<NamedNodeHandlerBox<B>>,
    k: u64,
)
    requires
        nodes.len() > 0,
        nodes.last().node.spec_comps().contains_key(k),
    ensures
        crate::ctx::cons_resolve(nodes, k) == Some(nodes.last().node.spec_comps()[k]),
{
}

/// One-step pump: a tick whose front thunk needs no outside answer — a
/// completion, an error, a self-step or a parent-step — consumes exactly
/// that one thunk, so a queue of `N` such steps drains in exactly `N`
/// ticks. (A `ToNode` step and its `Waiting` answers, and a `ToRoot` above
/// the root, spend extra ticks of their own.)
pub proof fn lemma_one_step_pump<B: NodeHandler<B>>(
    pre: &Backbone<B>,
    post: &Backbone<B>,
    r: Result<(), NavError>,
)
    requires
        pump_post(pre, post, r),
        pre.spec_thunks().len() > 0,
        pre.spec_thunks()[0] is End || pre.spec_thunks()[0] is Error || pre.spec_thunks()[0]
            is ToSelf || pre.spec_thunks()[0] is ToParent,
    ensures
        post.spec_thunks() == pre.spec_thunks().skip(1),
{
}

} // verus!
