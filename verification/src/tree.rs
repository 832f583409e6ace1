//! The walk as a recursion over the nodes of a document tree, and its
//! agreement with the walk over the tree's events.

use vstd::prelude::*;

use crate::dom::{AttributeView, EventView};
use crate::walk::{close_element, open_element, run, step, Walk};

verus! {

/// A node of a document: an element with its attributes and children, a
/// text, or any other node.
pub enum Tree {
    Element { attrs: Seq<AttributeView>, children: Seq<Tree> },
    Text(Seq<char>),
    Other,
}

/// The state after a visit of `node`, started in `w`. An element applies
/// its markers, then its children are visited in their order, all on the
/// one state, and only then is the text met last staged and a completed
/// row taken. A text is noted and replaces the text noted before.
pub open spec fn walk(w: Walk, node: Tree) -> Walk
    decreases node, 0nat,
{
    match node {
        Tree::Element { attrs, children } => close_element(
            walk_children(open_element(w, attrs), children, children.len()),
        ),
        Tree::Text(text) => Walk { last_text: Some(text), ..w },
        Tree::Other => w,
    }
}

/// The state after visits of the first `n` of `children`, in their order.
pub open spec fn walk_children(w: Walk, children: Seq<Tree>, n: nat) -> Walk
    decreases children, n,
{
    if n == 0 || n > children.len() {
        w
    } else {
        walk(walk_children(w, children, (n - 1) as nat), children[n - 1])
    }
}

/// The events of a node in document order: each node gives an event when
/// it is entered and one when it is left, with those of its children in
/// between.
pub open spec fn tree_events(node: Tree) -> Seq<EventView>
    decreases node, 0nat,
{
    match node {
        Tree::Element { attrs, children } => seq![EventView::Open(attrs)] + forest_events(
            children,
            children.len(),
        ) + seq![EventView::Close],
        Tree::Text(text) => seq![EventView::Text(text), EventView::Other],
        Tree::Other => seq![EventView::Other, EventView::Other],
    }
}

/// The events of the first `n` of `children`, in their order.
pub open spec fn forest_events(children: Seq<Tree>, n: nat) -> Seq<EventView>
    decreases children, n,
{
    if n == 0 || n > children.len() {
        Seq::empty()
    } else {
        forest_events(children, (n - 1) as nat) + tree_events(children[n - 1])
    }
}

/// A walk over events that follow one another is the walk over the
/// second, started where the walk over the first ended.
pub proof fn lemma_run_concat(w: Walk, first: Seq<EventView>, second: Seq<EventView>)
    ensures
        run(w, first + second) == run(run(w, first), second),
    decreases second.len(),
{
    if second.len() == 0 {
        assert(first + second =~= first);
    } else {
        lemma_run_concat(w, first, second.drop_last());
        assert((first + second).drop_last() =~= first + second.drop_last());
        assert((first + second).last() == second.last());
    }
}

/// A walk over one event is one step.
pub proof fn lemma_run_one(w: Walk, event: EventView)
    ensures
        run(w, seq![event]) == step(w, event),
{
    assert(seq![event].drop_last() =~= Seq::<EventView>::empty());
    assert(seq![event].last() == event);
    assert(run(w, Seq::<EventView>::empty()) == w);
}

/// The walk over the events of a tree is the recursive visit of the
/// tree: nothing of the state is scoped to a subtree.
pub proof fn lemma_events_walk_is_tree_walk(w: Walk, node: Tree)
    ensures
        run(w, tree_events(node)) == walk(w, node),
    decreases node, 0nat,
{
    match node {
        Tree::Element { attrs, children } => {
            let open = seq![EventView::Open(attrs)];
            let inner = forest_events(children, children.len());
            let close = seq![EventView::Close];
            lemma_run_concat(w, open + inner, close);
            lemma_run_concat(w, open, inner);
            lemma_run_one(w, EventView::Open(attrs));
            lemma_forest_walk(open_element(w, attrs), children, children.len());
            lemma_run_one(run(w, open + inner), EventView::Close);
        },
        Tree::Text(text) => {
            let events = seq![EventView::Text(text), EventView::Other];
            assert(events =~= seq![EventView::Text(text)] + seq![EventView::Other]);
            lemma_run_concat(w, seq![EventView::Text(text)], seq![EventView::Other]);
            lemma_run_one(w, EventView::Text(text));
            lemma_run_one(step(w, EventView::Text(text)), EventView::Other);
        },
        Tree::Other => {
            let events = seq![EventView::Other, EventView::Other];
            assert(events =~= seq![EventView::Other] + seq![EventView::Other]);
            lemma_run_concat(w, seq![EventView::Other], seq![EventView::Other]);
            lemma_run_one(w, EventView::Other);
        },
    }
}

/// The walk over the events of children is the visit of each in turn.
pub proof fn lemma_forest_walk(w: Walk, children: Seq<Tree>, n: nat)
    ensures
        run(w, forest_events(children, n)) == walk_children(w, children, n),
    decreases children, n,
{
    if n == 0 || n > children.len() {
    } else {
        let before = forest_events(children, (n - 1) as nat);
        lemma_forest_walk(w, children, (n - 1) as nat);
        lemma_run_concat(w, before, tree_events(children[n - 1]));
        lemma_events_walk_is_tree_walk(walk_children(w, children, (n - 1) as nat), children[n - 1]);
    }
}

} // verus!
