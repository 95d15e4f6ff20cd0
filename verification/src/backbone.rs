//! The backbone: a hierarchy of named nodes, root first, with a queue of
//! pending navigation thunks drained one per tick.

use vstd::prelude::*;
use vstd::string::StringExecFns;
use std::collections::VecDeque;
use std::cell::RefCell;
use std::sync::Arc;
use crate::node::{NamedNodeHandlerBox, NodeHandler, NavError, names_of};
use crate::ctx::{
    NodeContext, OuterNodeContext, spec_path, spec_child_path, cons_resolve, cons_resolve_mut,
    cons_resolve_arc, lemma_resolve_step, append_seg, lemma_path_tail_push, spec_path_tail,
};
use crate::comp::NodeComponent;
use crate::thunk::{Thunk, ThunkView, spec_parse_all, lemma_parse_step_shrinks};
use crate::event::Event;

verus! {

/// The backbone: a hierarchy of named nodes.
///
/// It is required to call the [`Backbone::update`] method as part of a main
/// loop: each call drains exactly one pending navigation thunk.
#[verifier::reject_recursive_types(B)]
pub struct Backbone<B> {
    /// Stack of active nodes, root first, current last.
    nodes: Vec<NamedNodeHandlerBox<B>>,
    /// Queue of thunks.
    thunks: VecDeque<Thunk<B>>,
}

/// The views of a run of thunks, in order.
pub open spec fn thunk_views<B>(s: Seq<Thunk<B>>) -> Seq<ThunkView> {
    s.map_values(|t: Thunk<B>| t@)
}

proof fn lemma_thunk_views_push<B>(s: Seq<Thunk<B>>, t: Thunk<B>)
    ensures
        thunk_views(s.push(t)) == thunk_views(s).push(t@),
{
    assert(thunk_views(s.push(t)) =~= thunk_views(s).push(t@));
}

proof fn lemma_thunk_views_skip<B>(s: Seq<Thunk<B>>, i: int)
    requires
        0 <= i <= s.len(),
    ensures
        thunk_views(s.skip(i)) == thunk_views(s).skip(i),
{
    assert(thunk_views(s.skip(i)) =~= thunk_views(s).skip(i));
}

proof fn lemma_thunk_views_front<B>(t: Thunk<B>, s: Seq<Thunk<B>>)
    ensures
        thunk_views(seq![t] + s) == seq![t@] + thunk_views(s),
{
    assert(thunk_views(seq![t] + s) =~= seq![t@] + thunk_views(s));
}

impl<B: NodeHandler<B>> Backbone<B> {
    /// The node stack, root first.
    pub closed spec fn spec_nodes(&self) -> Seq<NamedNodeHandlerBox<B>> {
        self.nodes@
    }

    /// The names of the stacked nodes, root first.
    pub open spec fn spec_names(&self) -> Seq<Seq<char>> {
        names_of(self.spec_nodes())
    }

    /// The queued navigation steps, front first.
    pub closed spec fn spec_thunks(&self) -> Seq<ThunkView> {
        thunk_views(self.thunks@)
    }

    /// The backbone's invariant: a root always exists.
    pub open spec fn wf(&self) -> bool {
        self.spec_nodes().len() >= 1
    }

    /// Creates a new backbone instance with the given root handler.
    pub fn from_box(root_handler: B) -> (r: Self)
        ensures
            r.wf(),
            r.spec_nodes().len() == 1,
            r.spec_names() =~= seq![seq!['/']],
            r.spec_nodes()[0].node == root_handler,
            r.spec_thunks() =~= Seq::<ThunkView>::empty(),
    {
        proof {
            reveal_strlit("/");
        }
        let name = String::from_str("/");
        proof {
            assert(name@ =~= seq!['/']);
        }
        let mut nodes: Vec<NamedNodeHandlerBox<B>> = Vec::new();
        nodes.push(NamedNodeHandlerBox { name, node: root_handler });
        let r = Backbone { nodes, thunks: VecDeque::new() };
        proof {
            assert(r.spec_names() =~= seq![seq!['/']]);
            assert(r.spec_thunks() =~= Seq::<ThunkView>::empty());
        }
        r
    }

    /// Creates a new backbone instance.
    pub fn from_obj(root_handler: B) -> (r: Self)
        ensures
            r.wf(),
            r.spec_nodes().len() == 1,
            r.spec_names() =~= seq![seq!['/']],
            r.spec_nodes()[0].node == root_handler,
            r.spec_thunks() =~= Seq::<ThunkView>::empty(),
    {
        Self::from_box(root_handler)
    }

    /// Wraps the current root with the given handler to form a cascade:
    /// the new root is a [`crate::cascade::CascadingEventHandler`] whose
    /// outer handler is the given one and whose inner handler is the old
    /// root. Only a backbone whose root is the sole node can cascade.
    pub fn cascade<N>(self, handler: N) -> (r: Backbone<
        crate::cascade::CascadingEventHandler<N, B>,
    >) where
        N: NodeHandler<crate::cascade::CascadingEventHandler<N, B>>,
        B: NodeHandler<
            crate::cascade::CascadingEventHandler<N, B>,
            Comp = <N as NodeHandler<crate::cascade::CascadingEventHandler<N, B>>>::Comp,
        >,

        requires
            self.spec_nodes().len() == 1,
        ensures
            r.wf(),
            r.spec_nodes().len() == 1,
            r.spec_names() =~= seq![seq!['/']],
            r.spec_thunks() =~= Seq::<ThunkView>::empty(),
    {
        proof {
            reveal_strlit("/");
        }
        let Backbone { nodes: mut nodes, thunks: _thunks } = self;
        let inner = nodes.remove(0);
        let name = String::from_str("/");
        proof {
            assert(name@ =~= seq!['/']);
        }
        let outer = NamedNodeHandlerBox { name, node: handler };
        Backbone::from_box(crate::cascade::CascadingEventHandler { outer, inner })
    }

    /// Takes the context focused on entry `at` out of the backbone: its
    /// ancestors are the entries before `at`, and what remains in the
    /// backbone are the entries after it. [`Backbone::restore_context`]
    /// puts it back; the two together partition the stack.
    pub fn get_context_at(&mut self, at: usize) -> (r: Option<OuterNodeContext<B>>)
        ensures
            final(self).spec_thunks() == old(self).spec_thunks(),
            at >= old(self).spec_nodes().len() ==> r is None && *final(self) == *old(self),
            at < old(self).spec_nodes().len() ==> (r matches Some(ctx) && {
                &&& ctx.context.cons@ == old(self).spec_nodes().take(at as int)
                &&& ctx.current == old(self).spec_nodes()[at as int]
                &&& ctx.context.name@ == old(self).spec_nodes()[at as int].name@
                &&& final(self).spec_nodes() == old(self).spec_nodes().skip(at as int + 1)
            }),
    {
        if at >= self.nodes.len() {
            return None;
        }
        let mut tail = self.nodes.split_off(at);
        let current = tail.remove(0);
        core::mem::swap(&mut self.nodes, &mut tail);
        let name = current.name.clone();
        Some(OuterNodeContext { context: NodeContext { name, cons: tail }, current })
    }

    /// Puts a context taken by [`Backbone::get_context_at`] back: the
    /// restored stack is the context's ancestors, its current entry, and
    /// whatever the backbone kept, in that order.
    pub fn restore_context(&mut self, ctx: OuterNodeContext<B>)
        ensures
            final(self).spec_nodes() == ctx.context.cons@ + seq![ctx.current] + old(
                self,
            ).spec_nodes(),
            final(self).spec_thunks() == old(self).spec_thunks(),
    {
        let OuterNodeContext { context: NodeContext { name: _name, cons: mut v }, current } = ctx;
        v.push(current);
        core::mem::swap(&mut self.nodes, &mut v);
        self.nodes.append(&mut v);
    }

    /// Takes the context focused on the current (last) node; `None` only
    /// on an empty stack, which a well-formed backbone never has.
    pub fn get_context(&mut self) -> (r: Option<OuterNodeContext<B>>)
        ensures
            final(self).spec_thunks() == old(self).spec_thunks(),
            old(self).spec_nodes().len() == 0 ==> r is None && *final(self) == *old(self),
            old(self).spec_nodes().len() > 0 ==> (r matches Some(ctx) && {
                &&& ctx.context.cons@ == old(self).spec_nodes().drop_last()
                &&& ctx.current == old(self).spec_nodes().last()
                &&& ctx.context.name@ == old(self).spec_nodes().last().name@
                &&& final(self).spec_nodes().len() == 0
            }),
    {
        let n = self.nodes.len();
        if n == 0 {
            return None;
        }
        let r = self.get_context_at(n - 1);
        proof {
            assert(old(self).spec_nodes().take(n - 1) =~= old(self).spec_nodes().drop_last());
            assert(old(self).spec_nodes().skip(n as int) =~= Seq::<
                NamedNodeHandlerBox<B>,
            >::empty());
        }
        r
    }

    /// Takes the context focused on the root node: no ancestors; the rest
    /// of the stack stays behind in the backbone.
    pub fn get_root_context(&mut self) -> (r: Option<OuterNodeContext<B>>)
        ensures
            final(self).spec_thunks() == old(self).spec_thunks(),
            old(self).spec_nodes().len() == 0 ==> r is None && *final(self) == *old(self),
            old(self).spec_nodes().len() > 0 ==> (r matches Some(ctx) && {
                &&& ctx.context.cons@ == Seq::<NamedNodeHandlerBox<B>>::empty()
                &&& ctx.current == old(self).spec_nodes()[0]
                &&& final(self).spec_nodes() == old(self).spec_nodes().skip(1)
            }),
    {
        if self.nodes.len() == 0 {
            return None;
        }
        let r = self.get_context_at(0);
        proof {
            assert(old(self).spec_nodes().take(0) =~= Seq::<NamedNodeHandlerBox<B>>::empty());
        }
        r
    }

    /// Returns a reference to the exclusively-owned component of the given
    /// type key, resolved over the whole stack from the current node back
    /// towards the root: the nearest node wins.
    pub fn get_component(&self, type_id: u64) -> (r: Option<&B::Comp>)
        ensures
            match r {
                Some(c) => cons_resolve(self.spec_nodes(), type_id) == Some(*c),
                None => cons_resolve(self.spec_nodes(), type_id) is None,
            },
    {
        let mut i = self.nodes.len();
        proof {
            assert(self.nodes@.take(i as int) =~= self.nodes@);
        }
        while i > 0
            invariant
                i <= self.nodes@.len(),
                cons_resolve(self.nodes@, type_id) == cons_resolve(
                    self.nodes@.take(i as int),
                    type_id,
                ),
            decreases i,
        {
            i -= 1;
            proof {
                lemma_resolve_step(self.nodes@, i as int, type_id);
            }
            if let Some(c) = self.nodes[i].node.get_comp(type_id) {
                return Some(c);
            }
        }
        proof {
            assert(self.nodes@.take(0) =~= Seq::<NamedNodeHandlerBox<B>>::empty());
        }
        None
    }

    /// Returns the cell of the singly-mutable-shared component of the
    /// given type key, resolved over the whole stack, nearest node first.
    pub fn get_component_mut(&self, type_id: u64) -> (r: Option<&RefCell<B::Comp>>)
        ensures
            match r {
                Some(c) => cons_resolve_mut(self.spec_nodes(), type_id) == Some(*c),
                None => cons_resolve_mut(self.spec_nodes(), type_id) is None,
            },
    {
        let mut i = self.nodes.len();
        proof {
            assert(self.nodes@.take(i as int) =~= self.nodes@);
        }
        while i > 0
            invariant
                i <= self.nodes@.len(),
                cons_resolve_mut(self.nodes@, type_id) == cons_resolve_mut(
                    self.nodes@.take(i as int),
                    type_id,
                ),
            decreases i,
        {
            i -= 1;
            proof {
                lemma_resolve_step(self.nodes@, i as int, type_id);
            }
            if let Some(c) = self.nodes[i].node.get_comp_mut(type_id) {
                return Some(c);
            }
        }
        proof {
            assert(self.nodes@.take(0) =~= Seq::<NamedNodeHandlerBox<B>>::empty());
        }
        None
    }

    /// Returns a fresh handle to the multiply-shared component of the
    /// given type key, resolved over the whole stack, nearest node first.
    pub fn get_component_arc(&self, type_id: u64) -> (r: Option<Arc<B::Comp>>)
        ensures
            match r {
                Some(c) => cons_resolve_arc(self.spec_nodes(), type_id) matches Some(v) && v == c,
                None => cons_resolve_arc(self.spec_nodes(), type_id) is None,
            },
    {
        let mut i = self.nodes.len();
        proof {
            assert(self.nodes@.take(i as int) =~= self.nodes@);
        }
        while i > 0
            invariant
                i <= self.nodes@.len(),
                cons_resolve_arc(self.nodes@, type_id) == cons_resolve_arc(
                    self.nodes@.take(i as int),
                    type_id,
                ),
            decreases i,
        {
            i -= 1;
            proof {
                lemma_resolve_step(self.nodes@, i as int, type_id);
            }
            if let Some(c) = self.nodes[i].node.get_comp_arc(type_id) {
                return Some(c);
            }
        }
        proof {
            assert(self.nodes@.take(0) =~= Seq::<NamedNodeHandlerBox<B>>::empty());
        }
        None
    }

    /// Returns if the backbone is navigating.
    pub fn is_moving(&self) -> (r: bool)
        ensures
            r == (self.spec_thunks().len() != 0),
    {
        self.thunks.len() != 0
    }

    /// Returns if the backbone is idle.
    pub fn is_idle(&self) -> (r: bool)
        ensures
            r == (self.spec_thunks().len() == 0),
    {
        self.thunks.len() == 0
    }

    /// Returns the current path as a [`String`]: `/` for the root alone,
    /// else one `/`-prefixed segment per node after the root.
    pub fn path_as_string(&self) -> (r: String)
        ensures
            r@ == spec_path(self.spec_names()),
    {
        let ghost cnames = self.spec_names();
        let n = self.nodes.len();
        if n <= 1 {
            proof {
                reveal_strlit("/");
            }
            let r = String::from_str("/");
            proof {
                assert(r@ =~= seq!['/']);
            }
            return r;
        }
        let mut out = String::new();
        let mut i: usize = 1;
        while i < n
            invariant
                1 <= i <= n,
                n == self.nodes@.len(),
                cnames == self.spec_names(),
                out@ + spec_path_tail(cnames, i as int) == spec_path_tail(cnames, 1),
            decreases n - i,
        {
            let ghost prev = out@;
            append_seg(&mut out, self.nodes[i].name.as_str());
            proof {
                assert(spec_path_tail(cnames, i as int) == seq!['/'] + cnames[i as int]
                    + spec_path_tail(cnames, i + 1));
                assert(prev + seq!['/'] + cnames[i as int] + spec_path_tail(cnames, i + 1) =~= prev
                    + (seq!['/'] + cnames[i as int] + spec_path_tail(cnames, i + 1)));
            }
            i += 1;
        }
        proof {
            assert(spec_path_tail(cnames, n as int) =~= Seq::<char>::empty());
            assert(out@ + spec_path_tail(cnames, n as int) =~= out@);
        }
        out
    }

    /// Returns the current thunk queue as a [`String`]; for debugging:
    /// one text per queued step, each followed by a space.
    pub fn thunks_as_string(&self) -> (r: String)
        ensures
            r@ == spec_thunks_text(self.spec_thunks()),
    {
        let ghost views = self.spec_thunks();
        let mut out = String::new();
        let n = self.thunks.len();
        let mut i: usize = 0;
        proof {
            assert(views.skip(0) =~= views);
        }
        while i < n
            invariant
                i <= n,
                n == self.thunks@.len(),
                views == self.spec_thunks(),
                views.len() == n,
                out@ + spec_thunks_text(views.skip(i as int)) == spec_thunks_text(views),
            decreases n - i,
        {
            let ghost prev = out@;
            proof {
                reveal_strlit("/");
                reveal_strlit("./");
                reveal_strlit("../");
                reveal_strlit("!Waiting");
                reveal_strlit("!Error");
                reveal_strlit("!Ok");
                reveal_strlit(" ");
                assert(views.skip(i as int)[0] == views[i as int]);
                assert(views.skip(i as int).skip(1) =~= views.skip(i + 1));
            }
            match &self.thunks[i] {
                Thunk::ToRoot => {
                    out.append("/");
                    proof {
                        assert(out@ =~= prev + spec_thunk_text(views[i as int]));
                    }
                },
                Thunk::ToSelf => {
                    out.append("./");
                    proof {
                        assert(out@ =~= prev + spec_thunk_text(views[i as int]));
                    }
                },
                Thunk::ToParent => {
                    out.append("../");
                    proof {
                        assert(out@ =~= prev + spec_thunk_text(views[i as int]));
                    }
                },
                Thunk::ToNode(name) => {
                    out.append(name.as_str());
                    proof {
                        assert(out@ =~= prev + spec_thunk_text(views[i as int]));
                    }
                },
                Thunk::Waiting(_, _) => {
                    out.append("!Waiting");
                    proof {
                        assert(out@ =~= prev + spec_thunk_text(views[i as int]));
                    }
                },
                Thunk::Error(_) => {
                    out.append("!Error");
                    proof {
                        assert(out@ =~= prev + spec_thunk_text(views[i as int]));
                    }
                },
                Thunk::End => {
                    out.append("!Ok");
                    proof {
                        assert(out@ =~= prev + spec_thunk_text(views[i as int]));
                    }
                },
            }
            let ghost mid = out@;
            out.append(" ");
            proof {
                assert(out@ =~= mid + seq![' ']);
                assert(prev + (spec_thunk_text(views[i as int]) + seq![' '] + spec_thunks_text(
                    views.skip(i + 1),
                )) =~= out@ + spec_thunks_text(views.skip(i + 1)));
            }
            i += 1;
        }
        proof {
            assert(views.skip(n as int) =~= Seq::<ThunkView>::empty());
            assert(out@ + spec_thunks_text(views.skip(n as int)) =~= out@);
        }
        out
    }

    /// Navigate to a different path: the path is parsed eagerly into
    /// thunks, terminated by an `End` marker, and queued. Two guards
    /// reject the request up front, leaving the queue untouched: a path
    /// equal to the current one, and a queue already holding more than 16
    /// thunks.
    pub fn navigate(&mut self, path: &str)
        ensures
            final(self).spec_nodes() == old(self).spec_nodes(),
            path@ == spec_path(old(self).spec_names()) ==> final(self).spec_thunks() == old(
                self,
            ).spec_thunks(),
            path@ != spec_path(old(self).spec_names()) && old(self).spec_thunks().len() > 16
                ==> final(self).spec_thunks() == old(self).spec_thunks(),
            path@ != spec_path(old(self).spec_names()) && old(self).spec_thunks().len() <= 16
                ==> final(self).spec_thunks() == old(self).spec_thunks() + spec_parse_all(
                path@,
            ).push(ThunkView::End),
    {
        let current_path = self.path_as_string();
        // Inexact test to avoid moving to the current node.
        if current_path == String::from_str(path) {
            return;
        }
        // Avoid runaway chains of queued movement.
        if self.thunks.len() > 16 {
            return;
        }
        let ghost queued0 = self.spec_thunks();
        let ghost whole = spec_parse_all(path@);
        let mut p = path;
        let ghost mut done: Seq<ThunkView> = Seq::empty();
        proof {
            assert(queued0 + done =~= queued0);
        }
        loop
            invariant
                whole == done + spec_parse_all(p@),
                self.spec_thunks() == queued0 + done,
                self.spec_nodes() == old(self).spec_nodes(),
            ensures
                whole == done,
                self.spec_thunks() == queued0 + done,
                self.spec_nodes() == old(self).spec_nodes(),
            decreases p@.len(),
        {
            proof {
                lemma_parse_step_shrinks(p@);
            }
            match Thunk::parse(p) {
                None => {
                    proof {
                        assert(spec_parse_all(p@) =~= Seq::<ThunkView>::empty());
                        assert(whole =~= done);
                    }
                    break ;
                },
                Some((thunk, subpath)) => {
                    let ghost tv = thunk@;
                    let ghost dq0 = self.thunks@;
                    proof {
                        lemma_thunk_views_push(dq0, thunk);
                    }
                    self.thunks.push_back(thunk);
                    proof {
                        done = done.push(tv);
                        assert((queued0 + done.drop_last()).push(tv) =~= queued0 + done);
                        assert(self.spec_thunks() =~= queued0 + done);
                        assert(whole =~= done + spec_parse_all(subpath@));
                    }
                    p = subpath;
                },
            }
        }
        let ghost dq1 = self.thunks@;
        self.thunks.push_back(Thunk::End);
        proof {
            lemma_thunk_views_push(dq1, Thunk::<B>::End);
            assert(thunk_views(dq1) == queued0 + done);
            assert((queued0 + done).push(ThunkView::End) =~= queued0 + done.push(ThunkView::End));
            assert(self.spec_thunks() =~= old(self).spec_thunks() + whole.push(ThunkView::End));
        }
    }

    /// Backbone update function; to be called repeatedly in a loop. Drains
    /// exactly one pending thunk, per [`pump_post`], and surfaces a fatal
    /// navigation error to the caller.
    pub fn update(&mut self) -> (r: Result<(), NavError>)
        requires
            old(self).wf(),
        ensures
            final(self).wf(),
            pump_post(old(self), final(self), r),
    {
        self.process_thunks()
    }
}

/// The text a queued step shows in debug output.
pub open spec fn spec_thunk_text(t: ThunkView) -> Seq<char> {
    match t {
        ThunkView::ToRoot => seq!['/'],
        ThunkView::ToSelf => seq!['.', '/'],
        ThunkView::ToParent => seq!['.', '.', '/'],
        ThunkView::ToNode(name) => name,
        ThunkView::Waiting(_) => seq!['!', 'W', 'a', 'i', 't', 'i', 'n', 'g'],
        ThunkView::Error(_) => seq!['!', 'E', 'r', 'r', 'o', 'r'],
        ThunkView::End => seq!['!', 'O', 'k'],
    }
}

/// The debug text of a whole queue: each step's text followed by a space.
pub open spec fn spec_thunks_text(ts: Seq<ThunkView>) -> Seq<char>
    decreases ts.len(),
{
    if ts.len() == 0 {
        Seq::empty()
    } else {
        spec_thunk_text(ts[0]) + seq![' '] + spec_thunks_text(ts.skip(1))
    }
}

/// What one drain of the navigation pump does, by the thunk that stood at
/// the front of the queue.
///
/// `End` dispatches the completion event at the current context and is
/// consumed; `Error` aborts by surfacing its cause; `Waiting` polls its
/// request without blocking, and either enters the constructed child,
/// re-enqueues itself at the front, or converts to an error; `ToNode` asks
/// the current node's handler to begin constructing the named child and
/// queues a `Waiting` (or an error, if the handler refuses); `ToSelf` is a
/// no-op; `ToParent` pops the current node unless it is the root; `ToRoot`
/// re-enqueues one `ToParent` per tick until the root is reached.
pub open spec fn pump_post<B: NodeHandler<B>>(
    pre: &Backbone<B>,
    post: &Backbone<B>,
    r: Result<(), NavError>,
) -> bool {
    let tq = pre.spec_thunks();
    let names = pre.spec_names();
    &&& (tq.len() == 0 ==> post.spec_nodes() == pre.spec_nodes() && post.spec_thunks()
        == pre.spec_thunks() && r is Ok)
    &&& (tq.len() > 0 ==> match tq[0] {
        ThunkView::End => {
            &&& post.spec_thunks() == tq.skip(1)
            &&& post.spec_names() == names
            &&& r is Ok
        },
        ThunkView::Error(e) => {
            &&& post.spec_thunks() == tq.skip(1)
            &&& post.spec_nodes() == pre.spec_nodes()
            &&& r == Result::<(), NavError>::Err(e)
        },
        ThunkView::ToSelf => {
            &&& post.spec_thunks() == tq.skip(1)
            &&& post.spec_nodes() == pre.spec_nodes()
            &&& r is Ok
        },
        ThunkView::ToParent => {
            &&& post.spec_thunks() == tq.skip(1)
            &&& post.spec_nodes() == (if pre.spec_nodes().len() > 1 {
                pre.spec_nodes().drop_last()
            } else {
                pre.spec_nodes()
            })
            &&& r is Ok
        },
        ThunkView::ToRoot => {
            &&& post.spec_nodes() == pre.spec_nodes()
            &&& post.spec_thunks() == (if pre.spec_nodes().len() > 1 {
                seq![ThunkView::ToParent, ThunkView::ToRoot] + tq.skip(1)
            } else {
                tq.skip(1)
            })
            &&& r is Ok
        },
        ThunkView::ToNode(nn) => {
            &&& post.spec_names() == names
            &&& post.spec_thunks().len() == tq.len()
            &&& post.spec_thunks().skip(1) == tq.skip(1)
            &&& (post.spec_thunks()[0] == ThunkView::Waiting(spec_child_path(names, nn))
                || post.spec_thunks()[0] is Error)
            &&& r is Ok
        },
        ThunkView::Waiting(nm) => {
            &&& r is Ok
            &&& {
                ||| {
                    // resolved with success: the new entry was pushed
                    &&& post.spec_nodes().len() == pre.spec_nodes().len() + 1
                    &&& post.spec_nodes().drop_last() == pre.spec_nodes()
                    &&& post.spec_thunks() == tq.skip(1)
                }
                ||| {
                    // not resolved yet: the same step waits at the front
                    &&& post.spec_nodes() == pre.spec_nodes()
                    &&& post.spec_thunks() == tq
                }
                ||| {
                    // resolved with failure, or the producer is gone
                    &&& post.spec_nodes() == pre.spec_nodes()
                    &&& post.spec_thunks().len() == tq.len()
                    &&& post.spec_thunks().skip(1) == tq.skip(1)
                    &&& post.spec_thunks()[0] is Error
                }
            }
        },
    })
}

impl<B: NodeHandler<B>> Backbone<B> {
    /// Drains exactly one pending thunk, per [`pump_post`].
    pub(crate) fn process_thunks(&mut self) -> (r: Result<(), NavError>)
        requires
            old(self).wf(),
        ensures
            final(self).wf(),
            pump_post(old(self), final(self), r),
    {
        let ghost tq = self.spec_thunks();
        let ghost dq = self.thunks@;
        let popped = self.thunks.pop_front();
        proof {
            if tq.len() > 0 {
                lemma_thunk_views_skip(dq, 1);
                assert(self.thunks@ =~= dq.skip(1));
                assert(self.spec_thunks() =~= tq.skip(1));
                assert(tq[0] == dq[0]@);
            }
        }
        let pthunk: Option<Thunk<B>> = match popped {
            None => {
                return Ok(());
            },
            Some(Thunk::End) => {
                let ghost names0 = self.spec_names();
                let mut ctx = self.get_context().unwrap();
                let _ = ctx.process_event(crate::thunk::NavigationCompletionEvent);
                let ghost ctx_cons = ctx.context.cons@;
                let ghost ctx_cur = ctx.current;
                self.restore_context(ctx);
                proof {
                    assert(self.spec_nodes() =~= ctx_cons + seq![ctx_cur]);
                    assert(self.spec_names() =~= names_of(ctx_cons).push(ctx_cur.name@));
                    assert(names0 =~= names_of(ctx_cons).push(ctx_cur.name@));
                }
                None
            },
            Some(Thunk::Error(error)) => {
                return Err(error);
            },
            Some(Thunk::Waiting(nid, mut rx)) => {
                match rx.try_recv() {
                    Ok(response) => {
                        match response {
                            Some(result) => match result {
                                Ok(node) => {
                                    // Insert and jump into the node.
                                    let ghost nodes0 = self.nodes@;
                                    self.nodes.push(node);
                                    proof {
                                        assert(self.nodes@.drop_last() =~= nodes0);
                                    }
                                    None
                                },
                                Err(err) => { Some(Thunk::Error(err)) },
                            },
                            None => { Some(Thunk::Waiting(nid, rx)) },
                        }
                    },
                    Err(_canceled) => { Some(Thunk::Error(NavError::Abandoned)) },
                }
            },
            Some(Thunk::ToNode(nn)) => {
                // Construct the full name of the child node and ask the
                // current handler to begin constructing it.
                let ghost names0 = self.spec_names();
                let mut ctx = self.get_context().unwrap();
                proof {
                    assert(ctx.context.spec_names() =~= names0);
                }
                let child_name = ctx.context.get_child_name(nn.as_str());
                let req = ctx.current.node.handle_node_request(
                    child_name.clone(),
                    &mut ctx.context,
                );
                let ghost ctx_cons = ctx.context.cons@;
                let ghost ctx_cur = ctx.current;
                self.restore_context(ctx);
                proof {
                    assert(self.spec_nodes() =~= ctx_cons + seq![ctx_cur]);
                    assert(self.spec_names() =~= names_of(ctx_cons).push(ctx_cur.name@));
                    assert(names0 =~= names_of(ctx_cons).push(ctx_cur.name@));
                }
                match req {
                    Err(err) => { Some(Thunk::Error(err)) },
                    Ok(rx) => { Some(Thunk::Waiting(child_name, rx)) },
                }
            },
            Some(Thunk::ToSelf) => {
                // This is a no-op.
                None
            },
            Some(Thunk::ToParent) => {
                // Don't pop the root!
                if self.nodes.len() > 1 {
                    let _ = self.nodes.pop();
                }
                None
            },
            Some(Thunk::ToRoot) => {
                if self.nodes.len() > 1 {
                    // Not yet at root: keep popping, one parent per tick,
                    // and come back to this step on the tick after.
                    self.thunks.push_front(Thunk::ToRoot);
                    self.thunks.push_front(Thunk::ToParent);
                    proof {
                        assert(self.spec_thunks() =~= seq![
                            ThunkView::ToParent,
                            ThunkView::ToRoot,
                        ] + tq.skip(1));
                    }
                    None
                } else {
                    // Reached root.
                    None
                }
            },
        };

        if let Some(pthunk) = pthunk {
            let ghost tv = pthunk@;
            let ghost dq1 = self.thunks@;
            proof {
                lemma_thunk_views_front(pthunk, dq1);
            }
            self.thunks.push_front(pthunk);
            proof {
                assert(self.spec_thunks() =~= seq![tv] + tq.skip(1));
                assert(self.spec_thunks()[0] == tv);
                assert(self.spec_thunks().skip(1) =~= tq.skip(1));
                if tv == tq[0] {
                    assert(seq![tv] + tq.skip(1) =~= tq);
                }
            }
        }

        // All is okay.
        Ok(())
    }
}

impl Default for Backbone<crate::node::EmptyEventHandler> {
    /// A backbone whose root does precisely nothing.
    fn default() -> (r: Self)
        ensures
            r.wf(),
            r.spec_nodes().len() == 1,
            r.spec_thunks() =~= Seq::<ThunkView>::empty(),
    {
        Backbone::from_obj(crate::node::EmptyEventHandler)
    }
}

} // verus!
