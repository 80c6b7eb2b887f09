//! What a dispatch through the tree does to one widget: it reaches the
//! widget's node at most once, so the widget takes the event as one step of
//! its own, or not at all.

use crate::engine::{tree_children, tree_contexts, tree_nodes, Tree};
use crate::event::{CallbackData, Event, EventListener};
use crate::handle::{lemma_set, ArenaModel, Handle};
use crate::layout::{
    context_handle, dispatch_children, dispatch_node, event_params, lemma_dispatch_keeps_live,
    lemma_same_handles_set, only_carrier, tree_routed, tree_routed_by, Dispatched, Layout,
};
use crate::transform_stack::{root_frame, Transform, TRANSFORM_STACK_MAX};
use crate::widget::{fired, fires, EventResult, WidgetState};
use vstd::prelude::*;

verus! {

/// The records of `fired` that were fired on the widget `id`, in order.
pub open spec fn records_for(fired: Seq<CallbackData>, id: Handle) -> Seq<CallbackData>
    decreases fired.len(),
{
    if fired.len() == 0 {
        Seq::empty()
    } else if fired.last().widget_id == id {
        records_for(fired.drop_last(), id).push(fired.last())
    } else {
        records_for(fired.drop_last(), id)
    }
}

/// The records of two runs in a row are the records of the first followed by
/// those of the second.
pub proof fn lemma_records_for_add(a: Seq<CallbackData>, b: Seq<CallbackData>, id: Handle)
    ensures
        records_for(a + b, id) == records_for(a, id) + records_for(b, id),
    decreases b.len(),
{
    if b.len() == 0 {
        assert(a + b =~= a);
        assert(records_for(a, id) + records_for(b, id) =~= records_for(a, id));
    } else {
        assert((a + b).drop_last() =~= a + b.drop_last());
        assert((a + b).last() == b.last());
        lemma_records_for_add(a, b.drop_last(), id);
        assert(records_for(a + b, id) =~= records_for(a, id) + records_for(b, id));
    }
}

/// What one widget fires is recorded for that widget and for no other.
pub proof fn lemma_records_of_one_widget(
    listeners: Seq<EventListener>,
    entered: bool,
    left: bool,
    clicked: bool,
    widget_id: Handle,
    node_id: u64,
    id: Handle,
)
    ensures
        records_for(fired(listeners, entered, left, clicked, widget_id, node_id), id) == if id
            == widget_id {
            fired(listeners, entered, left, clicked, widget_id, node_id)
        } else {
            Seq::empty()
        },
    decreases listeners.len(),
{
    if listeners.len() > 0 {
        let before = fired(listeners.drop_last(), entered, left, clicked, widget_id, node_id);
        lemma_records_of_one_widget(
            listeners.drop_last(),
            entered,
            left,
            clicked,
            widget_id,
            node_id,
            id,
        );
        if fires(listeners.last(), entered, left, clicked) {
            let record = CallbackData {
                callback: listeners.last().callback(),
                widget_id,
                node_id,
            };
            assert(before.push(record).drop_last() =~= before);
        }
    }
}

/// The dispatch left the widget `id` alone: its state is as it was, and
/// nothing was fired on it.
pub open spec fn left_alone(widgets: ArenaModel<WidgetState>, d: Dispatched, id: Handle) -> bool {
    d.widgets.get(id) == widgets.get(id) && records_for(d.fired, id) == Seq::<CallbackData>::empty()
}

/// The dispatch made the widget `id`, at the node `carrier`, take the event
/// as one step at the absolute transform that `under` gives it: its state is
/// the state after that step, and what was fired on it is what that step
/// fires.
pub open spec fn stepped_once(
    tree: Tree,
    widgets: ArenaModel<WidgetState>,
    d: Dispatched,
    event: Event,
    carrier: u64,
    id: Handle,
    under: Transform,
) -> bool {
    let state = widgets.get(id)->0;
    let params = event_params(tree, carrier, under);
    &&& d.widgets.get(id) == Some(state.after(event, params))
    &&& records_for(d.fired, id) == state.notified(id, carrier, event, params)
}

/// The widget took the event as one step, or not at all.
pub open spec fn at_most_one_step(
    tree: Tree,
    widgets: ArenaModel<WidgetState>,
    d: Dispatched,
    event: Event,
    carrier: u64,
    id: Handle,
) -> bool {
    left_alone(widgets, d, id) || exists|under: Transform|
        stepped_once(tree, widgets, d, event, carrier, id, under)
}

/// A dispatch to a node that does not lie on the way to a widget's node
/// leaves the widget alone.
pub proof fn lemma_dispatch_elsewhere(
    tree: Tree,
    widgets: ArenaModel<WidgetState>,
    parent: Transform,
    node: u64,
    event: Event,
    room: nat,
    route: spec_fn(u64) -> Seq<int>,
    carrier: u64,
    id: Handle,
)
    requires
        widgets.wf(),
        tree_routed_by(tree, route),
        only_carrier(tree, carrier, id),
        tree_nodes(tree).contains(node),
        !route(node).is_prefix_of(route(carrier)),
    ensures
        left_alone(widgets, dispatch_node(tree, widgets, parent, node, event, room), id),
    decreases room, 0nat,
{
    if tree_contexts(tree).contains_key(node) {
        let own = context_handle(tree_contexts(tree)[node]);
        assert(route(carrier).is_prefix_of(route(carrier)));
        assert(own != id);
        if widgets.get(own) is Some && room > 0 {
            let state = widgets.get(own)->0;
            let params = event_params(tree, node, parent);
            let seen = widgets.set(own, state.after(event, params));
            lemma_set(widgets, own, state.after(event, params));
            lemma_same_handles_set(widgets, own, state.after(event, params));
            let told = state.notified(own, node, event, params);
            lemma_records_of_one_widget(
                state.event_listeners@,
                state.entered(event, params),
                state.left(event, params),
                state.clicked(event, params),
                own,
                node,
                id,
            );
            if WidgetState::outcome(event, params) == EventResult::Pass {
                let kids = tree_children(tree, node);
                assert forall|i: int| 0 <= i < kids.len() implies tree_nodes(tree).contains(
                    #[trigger] kids[i],
                ) && !route(kids[i]).is_prefix_of(route(carrier)) by {
                    assert(route(kids[i]) == route(node).push(i));
                    if route(kids[i]).is_prefix_of(route(carrier)) {
                        assert(route(node) =~= route(carrier).subrange(
                            0,
                            route(node).len() as int,
                        ));
                    }
                }
                lemma_dispatch_children_elsewhere(
                    tree,
                    seen,
                    params.transform,
                    kids,
                    event,
                    (room - 1) as nat,
                    route,
                    carrier,
                    id,
                );
                let below = dispatch_children(
                    tree,
                    seen,
                    params.transform,
                    kids,
                    event,
                    (room - 1) as nat,
                );
                lemma_records_for_add(told, below.fired, id);
                assert(records_for(told + below.fired, id) =~= Seq::<CallbackData>::empty());
            }
        }
    }
}

/// A dispatch to nodes none of which lies on the way to a widget's node
/// leaves the widget alone.
pub proof fn lemma_dispatch_children_elsewhere(
    tree: Tree,
    widgets: ArenaModel<WidgetState>,
    parent: Transform,
    children: Seq<u64>,
    event: Event,
    room: nat,
    route: spec_fn(u64) -> Seq<int>,
    carrier: u64,
    id: Handle,
)
    requires
        widgets.wf(),
        tree_routed_by(tree, route),
        only_carrier(tree, carrier, id),
        forall|i: int|
            0 <= i < children.len() ==> tree_nodes(tree).contains(#[trigger] children[i])
                && !route(children[i]).is_prefix_of(route(carrier)),
    ensures
        left_alone(widgets, dispatch_children(tree, widgets, parent, children, event, room), id),
    decreases room, children.len() + 1,
{
    if children.len() > 0 {
        assert(tree_nodes(tree).contains(children[0]));
        lemma_dispatch_elsewhere(tree, widgets, parent, children[0], event, room, route, carrier, id);
        lemma_dispatch_keeps_live(tree, widgets, parent, children[0], event, room);
        let first = dispatch_node(tree, widgets, parent, children[0], event, room);
        if first.error is None {
            let rest = children.drop_first();
            assert forall|i: int| 0 <= i < rest.len() implies tree_nodes(tree).contains(
                #[trigger] rest[i],
            ) && !route(rest[i]).is_prefix_of(route(carrier)) by {
                assert(rest[i] == children[i + 1]);
            }
            lemma_dispatch_children_elsewhere(
                tree,
                first.widgets,
                parent,
                rest,
                event,
                room,
                route,
                carrier,
                id,
            );
            let later = dispatch_children(tree, first.widgets, parent, rest, event, room);
            lemma_records_for_add(first.fired, later.fired, id);
            assert(records_for(first.fired + later.fired, id) =~= Seq::<CallbackData>::empty());
        }
    }
}

/// A dispatch to a node makes a live widget take the event as one step, or
/// not at all, wherever in the tree the widget's node is.
pub proof fn lemma_dispatch_once(
    tree: Tree,
    widgets: ArenaModel<WidgetState>,
    parent: Transform,
    node: u64,
    event: Event,
    room: nat,
    route: spec_fn(u64) -> Seq<int>,
    carrier: u64,
    id: Handle,
)
    requires
        widgets.wf(),
        widgets.live(id),
        tree_routed_by(tree, route),
        only_carrier(tree, carrier, id),
        tree_nodes(tree).contains(node),
    ensures
        at_most_one_step(
            tree,
            widgets,
            dispatch_node(tree, widgets, parent, node, event, room),
            event,
            carrier,
            id,
        ),
    decreases room, 0nat,
{
    let d = dispatch_node(tree, widgets, parent, node, event, room);
    if !route(node).is_prefix_of(route(carrier)) {
        lemma_dispatch_elsewhere(tree, widgets, parent, node, event, room, route, carrier, id);
    } else if !tree_contexts(tree).contains_key(node) {
    } else {
        let own = context_handle(tree_contexts(tree)[node]);
        if widgets.get(own) is Some && room > 0 {
            let state = widgets.get(own)->0;
            let params = event_params(tree, node, parent);
            let seen = widgets.set(own, state.after(event, params));
            lemma_set(widgets, own, state.after(event, params));
            lemma_same_handles_set(widgets, own, state.after(event, params));
            let told = state.notified(own, node, event, params);
            lemma_records_of_one_widget(
                state.event_listeners@,
                state.entered(event, params),
                state.left(event, params),
                state.clicked(event, params),
                own,
                node,
                id,
            );
            let kids = tree_children(tree, node);
            let passes = WidgetState::outcome(event, params) == EventResult::Pass;
            let below = dispatch_children(
                tree,
                seen,
                params.transform,
                kids,
                event,
                (room - 1) as nat,
            );
            if own == id {
                // the widget's own node: its children lie beyond it
                assert(node == carrier);
                if passes {
                    assert forall|i: int| 0 <= i < kids.len() implies tree_nodes(tree).contains(
                        #[trigger] kids[i],
                    ) && !route(kids[i]).is_prefix_of(route(carrier)) by {
                        assert(route(kids[i]) == route(node).push(i));
                    }
                    lemma_dispatch_children_elsewhere(
                        tree,
                        seen,
                        params.transform,
                        kids,
                        event,
                        (room - 1) as nat,
                        route,
                        carrier,
                        id,
                    );
                    lemma_records_for_add(told, below.fired, id);
                    assert(records_for(told + below.fired, id) =~= told);
                }
                assert(stepped_once(tree, widgets, d, event, carrier, id, parent));
            } else if passes {
                // a node on the way: one of its children leads on
                assert forall|i: int| 0 <= i < kids.len() implies tree_nodes(tree).contains(
                    #[trigger] kids[i],
                ) && route(kids[i]) == route(node).push(i) by {}
                lemma_dispatch_children_once(
                    tree,
                    seen,
                    params.transform,
                    kids,
                    event,
                    (room - 1) as nat,
                    route,
                    carrier,
                    id,
                    route(node),
                    0,
                );
                lemma_records_for_add(told, below.fired, id);
                assert(records_for(told + below.fired, id) =~= records_for(below.fired, id));
                if !left_alone(seen, below, id) {
                    let under = choose|under: Transform|
                        stepped_once(tree, seen, below, event, carrier, id, under);
                    assert(stepped_once(tree, widgets, d, event, carrier, id, under));
                }
            }
        }
    }
}

/// A dispatch to the children of a node, from the child at place `from` on,
/// makes a live widget take the event as one step, or not at all.
pub proof fn lemma_dispatch_children_once(
    tree: Tree,
    widgets: ArenaModel<WidgetState>,
    parent: Transform,
    children: Seq<u64>,
    event: Event,
    room: nat,
    route: spec_fn(u64) -> Seq<int>,
    carrier: u64,
    id: Handle,
    base: Seq<int>,
    from: int,
)
    requires
        widgets.wf(),
        widgets.live(id),
        tree_routed_by(tree, route),
        only_carrier(tree, carrier, id),
        forall|i: int|
            0 <= i < children.len() ==> tree_nodes(tree).contains(#[trigger] children[i])
                && route(children[i]) == base.push(from + i),
    ensures
        at_most_one_step(
            tree,
            widgets,
            dispatch_children(tree, widgets, parent, children, event, room),
            event,
            carrier,
            id,
        ),
    decreases room, children.len() + 1,
{
    let d = dispatch_children(tree, widgets, parent, children, event, room);
    if children.len() == 0 {
        assert(left_alone(widgets, d, id));
    } else {
        assert(tree_nodes(tree).contains(children[0]));
        assert(route(children[0]) == base.push(from));
        lemma_dispatch_once(tree, widgets, parent, children[0], event, room, route, carrier, id);
        lemma_dispatch_keeps_live(tree, widgets, parent, children[0], event, room);
        let first = dispatch_node(tree, widgets, parent, children[0], event, room);
        if first.error is None {
            let rest = children.drop_first();
            let later = dispatch_children(tree, first.widgets, parent, rest, event, room);
            lemma_records_for_add(first.fired, later.fired, id);
            assert forall|i: int| 0 <= i < rest.len() implies tree_nodes(tree).contains(
                #[trigger] rest[i],
            ) && route(rest[i]) == base.push(from + 1 + i) by {
                assert(rest[i] == children[i + 1]);
            }
            if route(children[0]).is_prefix_of(route(carrier)) {
                // the way leads through the first child, so through no later one
                assert forall|i: int| 0 <= i < rest.len() implies tree_nodes(tree).contains(
                    #[trigger] rest[i],
                ) && !route(rest[i]).is_prefix_of(route(carrier)) by {
                    if route(rest[i]).is_prefix_of(route(carrier)) {
                        let at = base.len() as int;
                        assert(route(children[0])[at] == from);
                        assert(route(rest[i])[at] == from + 1 + i);
                        assert(route(carrier).subrange(0, at + 1)[at] == route(carrier)[at]);
                    }
                }
                lemma_dispatch_children_elsewhere(
                    tree,
                    first.widgets,
                    parent,
                    rest,
                    event,
                    room,
                    route,
                    carrier,
                    id,
                );
                assert(records_for(first.fired + later.fired, id) =~= records_for(
                    first.fired,
                    id,
                ));
                if !left_alone(widgets, first, id) {
                    let under = choose|under: Transform|
                        stepped_once(tree, widgets, first, event, carrier, id, under);
                    assert(stepped_once(tree, widgets, d, event, carrier, id, under));
                }
            } else {
                lemma_dispatch_elsewhere(
                    tree,
                    widgets,
                    parent,
                    children[0],
                    event,
                    room,
                    route,
                    carrier,
                    id,
                );
                lemma_dispatch_children_once(
                    tree,
                    first.widgets,
                    parent,
                    rest,
                    event,
                    room,
                    route,
                    carrier,
                    id,
                    base,
                    from + 1,
                );
                assert(records_for(first.fired + later.fired, id) =~= records_for(
                    later.fired,
                    id,
                ));
                if !left_alone(first.widgets, later, id) {
                    let under = choose|under: Transform|
                        stepped_once(tree, first.widgets, later, event, carrier, id, under);
                    assert(stepped_once(tree, widgets, d, event, carrier, id, under));
                }
            }
        }
    }
}

impl Layout {
    /// In a well-formed tree, however large, one event is to each live
    /// widget one step of its own or none: the dispatch reaches the widget's
    /// node at most once, and no other node changes the widget's state or
    /// fires its listeners. So what holds of a widget's steps, of hover and
    /// of clicks, holds of the widget in the tree.
    pub proof fn lemma_event_is_one_step(&self, event: Event, id: Handle)
        requires
            self.wf(),
            self.widgets().live(id),
        ensures
            at_most_one_step(
                self.tree(),
                self.widgets(),
                self.dispatched(event),
                event,
                self.node_of(id),
                id,
            ),
    {
        self.lemma_one_carrier(id);
        let route = choose|route: spec_fn(u64) -> Seq<int>| tree_routed_by(self.tree(), route);
        assert(tree_routed(self.tree()));
        lemma_dispatch_once(
            self.tree(),
            self.widgets(),
            root_frame(),
            self.root_node_id(),
            event,
            (TRANSFORM_STACK_MAX - 1) as nat,
            route,
            self.node_of(id),
            id,
        );
    }
}

} // verus!
