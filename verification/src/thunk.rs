//! Backbone navigation by means of thunks: the navigational steps a path
//! string parses into, consumed one per tick.

use vstd::prelude::*;
use vstd::string::StrSliceExecFns;
use crate::node::{NavError, NodeHandlerRequest};
use crate::event::Event;

verus! {

/// A thunk is one atomic navigational action within the backbone.
#[verifier::reject_recursive_types(B)]
pub enum Thunk<B> {
    /// Navigate to root.
    ToRoot,
    /// Navigate to parent.
    ToParent,
    /// Navigate to self (no-op).
    ToSelf,
    /// Navigate to the named sub-node.
    ToNode(String),
    /// Waiting for a node to construct itself: the child's full path and
    /// the pending construction request.
    Waiting(String, NodeHandlerRequest<B>),
    /// Something went wrong; navigation aborts here.
    Error(NavError),
    /// Navigation completion.
    End,
}

/// What a thunk is to the contracts: the step it stands for, with the
/// pending request itself abstracted away.
pub ghost enum ThunkView {
    /// Navigate to root.
    ToRoot,
    /// Navigate to parent.
    ToParent,
    /// Navigate to self.
    ToSelf,
    /// Navigate to the named sub-node.
    ToNode(Seq<char>),
    /// Waiting on the construction of the child with this full path.
    Waiting(Seq<char>),
    /// A failed navigation carrying its cause.
    Error(NavError),
    /// Navigation completion.
    End,
}

impl<B> View for Thunk<B> {
    type V = ThunkView;

    open spec fn view(&self) -> ThunkView {
        match self {
            Thunk::ToRoot => ThunkView::ToRoot,
            Thunk::ToParent => ThunkView::ToParent,
            Thunk::ToSelf => ThunkView::ToSelf,
            Thunk::ToNode(name) => ThunkView::ToNode(name@),
            Thunk::Waiting(name, _) => ThunkView::Waiting(name@),
            Thunk::Error(e) => ThunkView::Error(*e),
            Thunk::End => ThunkView::End,
        }
    }
}

/// The characters the parser treats as surrounding whitespace.
pub open spec fn is_ws(c: char) -> bool {
    c == ' ' || c == '\t' || c == '\n' || c == '\r'
}

/// `s` without its leading whitespace.
pub open spec fn spec_trim_front(s: Seq<char>) -> Seq<char>
    decreases s.len(),
{
    if s.len() > 0 && is_ws(s[0]) {
        spec_trim_front(s.skip(1))
    } else {
        s
    }
}

/// `s` without its trailing whitespace.
pub open spec fn spec_trim_back(s: Seq<char>) -> Seq<char>
    decreases s.len(),
{
    if s.len() > 0 && is_ws(s.last()) {
        spec_trim_back(s.drop_last())
    } else {
        s
    }
}

/// `s` without leading and trailing whitespace.
pub open spec fn spec_trim(s: Seq<char>) -> Seq<char> {
    spec_trim_back(spec_trim_front(s))
}

/// `s` without its leading `/` characters.
pub open spec fn spec_drop_slashes(s: Seq<char>) -> Seq<char>
    decreases s.len(),
{
    if s.len() > 0 && s[0] == '/' {
        spec_drop_slashes(s.skip(1))
    } else {
        s
    }
}

/// The position of the first `/` in `s`, or the length of `s` if there is
/// none.
pub open spec fn spec_first_slash(s: Seq<char>) -> int
    decreases s.len(),
{
    if s.len() == 0 {
        0
    } else if s[0] == '/' {
        0
    } else {
        1 + spec_first_slash(s.skip(1))
    }
}

/// One step of the path grammar, longest match first, on the trimmed
/// input: a leading `/` is a move to the root (further slashes are
/// swallowed); a leading `..` a move to the parent; a leading `.` a move
/// to self; anything else the name of a child, up to the next `/`. Returns
/// the step and the remaining path, or nothing when the input is blank.
pub open spec fn spec_parse_step(s: Seq<char>) -> Option<(ThunkView, Seq<char>)> {
    let t = spec_trim(s);
    if t.len() == 0 {
        None
    } else if t[0] == '/' {
        Some((ThunkView::ToRoot, spec_drop_slashes(t.skip(1))))
    } else if t.len() >= 2 && t[0] == '.' && t[1] == '.' {
        Some((ThunkView::ToParent, spec_drop_slashes(t.skip(2))))
    } else if t[0] == '.' {
        Some((ThunkView::ToSelf, spec_drop_slashes(t.skip(1))))
    } else {
        let i = spec_first_slash(t);
        if i < t.len() {
            Some((ThunkView::ToNode(t.take(i)), t.skip(i + 1)))
        } else {
            Some((ThunkView::ToNode(t), Seq::empty()))
        }
    }
}

/// Trimming never lengthens a string.
proof fn lemma_trim_front_len(s: Seq<char>)
    ensures
        spec_trim_front(s).len() <= s.len(),
    decreases s.len(),
{
    if s.len() > 0 && is_ws(s[0]) {
        lemma_trim_front_len(s.skip(1));
    }
}

/// Trimming never lengthens a string.
proof fn lemma_trim_back_len(s: Seq<char>)
    ensures
        spec_trim_back(s).len() <= s.len(),
    decreases s.len(),
{
    if s.len() > 0 && is_ws(s.last()) {
        lemma_trim_back_len(s.drop_last());
    }
}

/// Swallowing slashes never lengthens a string.
proof fn lemma_drop_slashes_len(s: Seq<char>)
    ensures
        spec_drop_slashes(s).len() <= s.len(),
    decreases s.len(),
{
    if s.len() > 0 && s[0] == '/' {
        lemma_drop_slashes_len(s.skip(1));
    }
}

/// The first slash lies within the string, or just past its end.
proof fn lemma_first_slash_bounds(s: Seq<char>)
    ensures
        0 <= spec_first_slash(s) <= s.len(),
    decreases s.len(),
{
    if s.len() > 0 && s[0] != '/' {
        lemma_first_slash_bounds(s.skip(1));
    }
}

/// Each parse step consumes at least one character.
pub proof fn lemma_parse_step_shrinks(s: Seq<char>)
    ensures
        spec_parse_step(s) matches Some(p) ==> p.1.len() < s.len(),
{
    let t = spec_trim(s);
    lemma_trim_front_len(s);
    lemma_trim_back_len(spec_trim_front(s));
    if t.len() == 0 {
    } else if t[0] == '/' {
        lemma_drop_slashes_len(t.skip(1));
    } else if t.len() >= 2 && t[0] == '.' && t[1] == '.' {
        lemma_drop_slashes_len(t.skip(2));
    } else if t[0] == '.' {
        lemma_drop_slashes_len(t.skip(1));
    } else {
        lemma_first_slash_bounds(t);
    }
}

/// The whole queue of steps a path string parses into, in order.
pub open spec fn spec_parse_all(s: Seq<char>) -> Seq<ThunkView>
    decreases s.len(),
    via spec_parse_all_dec
{
    match spec_parse_step(s) {
        None => Seq::empty(),
        Some(p) => seq![p.0] + spec_parse_all(p.1),
    }
}

#[via_fn]
proof fn spec_parse_all_dec(s: Seq<char>) {
    lemma_parse_step_shrinks(s);
}

/// Is this character surrounding whitespace to the parser?
fn ws(c: char) -> (r: bool)
    ensures
        r == is_ws(c),
{
    c == ' ' || c == '\t' || c == '\n' || c == '\r'
}

impl<B> Thunk<B> {
    /// Tries to parse a thunk out of the given path.
    ///
    /// Returns both a thunk and the remaining path, per the step the path
    /// grammar gives; an all-whitespace path parses to nothing.
    pub fn parse(path: &str) -> (r: Option<(Thunk<B>, &str)>)
        ensures
            match r {
                Some(p) => spec_parse_step(path@) == Some((p.0@, p.1@)),
                None => spec_parse_step(path@) is None,
            },
    {
        let trimmed = trim(path);
        let tlen = trimmed.unicode_len();
        if tlen == 0 {
            return None;
        }
        let c0 = trimmed.get_char(0);
        if c0 == '/' {
            let rest = drop_slashes(trimmed, 1);
            return Some((Thunk::ToRoot, rest));
        }
        if tlen >= 2 && c0 == '.' && trimmed.get_char(1) == '.' {
            let rest = drop_slashes(trimmed, 2);
            return Some((Thunk::ToParent, rest));
        }
        if c0 == '.' {
            let rest = drop_slashes(trimmed, 1);
            return Some((Thunk::ToSelf, rest));
        }
        let i = first_slash(trimmed);
        let name = trimmed.substring_char(0, i).to_owned();
        proof {
            assert(trimmed@.take(i as int) == name@);
        }
        if i < tlen {
            let rest = trimmed.substring_char(i + 1, tlen);
            proof {
                assert(rest@ =~= trimmed@.skip(i + 1));
            }
            Some((Thunk::ToNode(name), rest))
        } else {
            proof {
                assert(trimmed@.take(i as int) =~= trimmed@);
            }
            let rest = trimmed.substring_char(tlen, tlen);
            proof {
                assert(rest@ =~= Seq::<char>::empty());
            }
            Some((Thunk::ToNode(name), rest))
        }
    }
}

/// Strips leading and trailing whitespace from `path`.
fn trim(path: &str) -> (r: &str)
    ensures
        r@ == spec_trim(path@),
{
    let n = path.unicode_len();
    let mut start: usize = 0;
    proof {
        assert(path@.skip(0) =~= path@);
    }
    while start < n && ws(path.get_char(start))
        invariant
            start <= n,
            n == path@.len(),
            spec_trim_front(path@) == spec_trim_front(path@.skip(start as int)),
            forall|j: int| 0 <= j < start ==> is_ws(#[trigger] path@[j]),
        decreases n - start,
    {
        proof {
            assert(path@.skip(start as int).skip(1) =~= path@.skip(start + 1));
        }
        start += 1;
    }
    proof {
        if start < n {
            assert(spec_trim_front(path@) =~= path@.skip(start as int));
        } else {
            assert(path@.skip(start as int) =~= Seq::<char>::empty());
            assert(spec_trim_front(path@) =~= path@.skip(start as int));
        }
    }
    let mut end: usize = n;
    proof {
        assert(path@.skip(start as int).take(n - start) =~= path@.skip(start as int));
    }
    while end > start && ws(path.get_char(end - 1))
        invariant
            start <= end <= n,
            n == path@.len(),
            spec_trim_front(path@) == path@.skip(start as int),
            spec_trim_back(path@.skip(start as int)) == spec_trim_back(
                path@.skip(start as int).take(end - start),
            ),
        decreases end,
    {
        proof {
            let cut = path@.skip(start as int).take(end - start);
            assert(cut.last() == path@[end - 1]);
            assert(cut.drop_last() =~= path@.skip(start as int).take(end - 1 - start));
        }
        end -= 1;
    }
    proof {
        let cut = path@.skip(start as int).take(end - start);
        if end > start {
            assert(cut.last() == path@[end - 1]);
            assert(spec_trim_back(cut) =~= cut);
        } else {
            assert(cut =~= Seq::<char>::empty());
            assert(spec_trim_back(cut) =~= cut);
        }
    }
    let r = path.substring_char(start, end);
    proof {
        assert(r@ =~= path@.skip(start as int).take(end - start));
    }
    r
}

/// Strips the `/` characters `s` holds from position `from` on, and
/// returns the rest.
fn drop_slashes(s: &str, from: usize) -> (r: &str)
    requires
        from <= s@.len(),
    ensures
        r@ == spec_drop_slashes(s@.skip(from as int)),
{
    let n = s.unicode_len();
    let mut i = from;
    proof {
        assert(spec_drop_slashes(s@.skip(from as int)) == spec_drop_slashes(s@.skip(from as int)));
    }
    while i < n && s.get_char(i) == '/'
        invariant
            from <= i <= n,
            n == s@.len(),
            spec_drop_slashes(s@.skip(from as int)) == spec_drop_slashes(s@.skip(i as int)),
        decreases n - i,
    {
        proof {
            assert(s@.skip(i as int).skip(1) =~= s@.skip(i + 1));
        }
        i += 1;
    }
    proof {
        if i < n {
            assert(spec_drop_slashes(s@.skip(i as int)) =~= s@.skip(i as int));
        } else {
            assert(s@.skip(i as int) =~= Seq::<char>::empty());
            assert(spec_drop_slashes(s@.skip(i as int)) =~= s@.skip(i as int));
        }
    }
    let r = s.substring_char(i, n);
    proof {
        assert(r@ =~= s@.skip(i as int));
    }
    r
}

/// The position of the first `/` in `s`, or its length if there is none.
fn first_slash(s: &str) -> (r: usize)
    ensures
        r == spec_first_slash(s@),
        r <= s@.len(),
{
    let n = s.unicode_len();
    let mut i: usize = 0;
    proof {
        assert(s@.skip(0) =~= s@);
    }
    while i < n && s.get_char(i) != '/'
        invariant
            i <= n,
            n == s@.len(),
            spec_first_slash(s@) == i + spec_first_slash(s@.skip(i as int)),
            forall|j: int| 0 <= j < i ==> s@[j] != '/',
        decreases n - i,
    {
        proof {
            assert(s@.skip(i as int)[0] == s@[i as int]);
            assert(s@.skip(i as int).skip(1) =~= s@.skip(i + 1));
        }
        i += 1;
    }
    proof {
        if i < n {
            assert(s@.skip(i as int)[0] == s@[i as int]);
            assert(spec_first_slash(s@.skip(i as int)) == 0);
        } else {
            assert(s@.skip(i as int) =~= Seq::<char>::empty());
            assert(spec_first_slash(s@.skip(i as int)) == 0);
        }
    }
    i
}

/// Event that is fired when navigation finishes.
pub struct NavigationCompletionEvent;

impl Event for NavigationCompletionEvent {

}

} // verus!
