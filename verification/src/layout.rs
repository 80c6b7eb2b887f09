//! The widget tree: the arena of widget states, the layout engine's node
//! tree, and the association between the two.

use crate::engine::{
    admitted, lemma_sound_closed, no_contexts, no_scroll, percent_style, same_structure,
    style_display, style_display_mode, style_of_percent, style_overflows, tree_add_child,
    tree_child_ids, tree_children, tree_closed, tree_compute_layout, tree_contexts, tree_dirty,
    tree_flex, tree_get_node_context, tree_is_dirty, tree_layout, tree_new, tree_new_leaf,
    tree_node_layout, tree_node_style, tree_nodes, tree_ranked, tree_scroll,
    tree_set_node_context, tree_solved, tree_sound, tree_style, DisplayMode, NodeLayout, Tree,
    TREE_NODES_MAX,
};
use crate::event::{CallbackData, Event, EventListener};
use crate::handle::{
    lemma_add, lemma_first_free, lemma_remove, lemma_set, lemma_trimmed, Arena, ArenaModel, Handle,
};
use crate::transform_stack::{root_frame, Transform, TransformStack, Vec2, TRANSFORM_STACK_MAX};
use crate::widget::div::Div;
use crate::widget::{get_scroll_enabled, EventParams, EventResult, Widget, WidgetState};
use vstd::prelude::*;

verus! {

pub type WidgetID = Handle;

pub type WidgetMap = Arena<WidgetState>;

/// Why an operation on the widget tree failed.
#[derive(Clone, Copy, PartialEq, Eq, Structural, Debug)]
pub enum LayoutError {
    /// The parent handle is stale or unknown.
    InvalidParent,
    /// A layout node names a widget that the arena does not hold.
    InvalidWidget,
    /// A layout node carries no widget handle.
    InvalidNode,
    /// The layout engine refused a call.
    LayoutEngineFailure,
    /// The tree is nested deeper than the transform stack reaches.
    TooDeep,
}

impl LayoutError {
    /// The error in words.
    pub open spec fn words(self) -> Seq<char> {
        match self {
            LayoutError::InvalidParent => "invalid parent widget"@,
            LayoutError::InvalidWidget => "invalid widget"@,
            LayoutError::InvalidNode => "layout node without a widget"@,
            LayoutError::LayoutEngineFailure => "layout engine failure"@,
            LayoutError::TooDeep => "widget tree nested too deep"@,
        }
    }

    /// The error in words.
    pub fn message(&self) -> (text: String)
        ensures
            text@ == self.words(),
    {
        match self {
            LayoutError::InvalidParent => "invalid parent widget".to_owned(),
            LayoutError::InvalidWidget => "invalid widget".to_owned(),
            LayoutError::InvalidNode => "layout node without a widget".to_owned(),
            LayoutError::LayoutEngineFailure => "layout engine failure".to_owned(),
            LayoutError::TooDeep => "widget tree nested too deep".to_owned(),
        }
    }
}

/// The handle that a node's context stands for.
pub open spec fn context_handle(context: (u32, u64)) -> Handle {
    Handle { idx: context.0, generation: context.1 }
}

/// Every widget state of the arena is well formed.
pub open spec fn states_wf(widgets: ArenaModel<WidgetState>) -> bool {
    forall|i: int|
        0 <= i < widgets.slots.len() && (#[trigger] widgets.slots[i]) is Some
            ==> widgets.slots[i]->0.obj.wf()
}

/// Widgets and layout nodes stand one to one: a live widget's node carries
/// the widget's handle, and every node carries the handle of a live widget
/// whose node it is. `nodes` holds the node of the widget in each slot.
pub open spec fn linked(tree: Tree, widgets: ArenaModel<WidgetState>, nodes: Seq<u64>) -> bool {
    &&& nodes.len() >= widgets.slots.len()
    &&& tree_nodes(tree).finite()
    &&& tree_nodes(tree).len() == widgets.count()
    &&& forall|id: Handle| #[trigger]
        widgets.live(id) ==> {
            let node = nodes[id.idx as int];
            &&& tree_nodes(tree).contains(node)
            &&& tree_contexts(tree).contains_key(node)
            &&& context_handle(tree_contexts(tree)[node]) == id
        }
    &&& forall|node: u64| #[trigger]
        tree_nodes(tree).contains(node) ==> {
            &&& tree_contexts(tree).contains_key(node)
            &&& widgets.live(context_handle(tree_contexts(tree)[node]))
            &&& nodes[context_handle(tree_contexts(tree)[node]).idx as int] == node
        }
}

/// The node `carrier` carries the handle `id`, and no other node of the tree
/// does.
pub open spec fn only_carrier(tree: Tree, carrier: u64, id: Handle) -> bool {
    &&& tree_contexts(tree).contains_key(carrier)
    &&& context_handle(tree_contexts(tree)[carrier]) == id
    &&& forall|node: u64| #[trigger]
        tree_nodes(tree).contains(node) && tree_contexts(tree).contains_key(node)
            && context_handle(tree_contexts(tree)[node]) == id ==> node == carrier
}

/// Every node of the tree carries the handle of a live widget.
pub open spec fn nodes_have_widgets(tree: Tree, widgets: ArenaModel<WidgetState>) -> bool {
    forall|node: u64| #[trigger]
        tree_nodes(tree).contains(node) ==> tree_contexts(tree).contains_key(node)
            && widgets.live(context_handle(tree_contexts(tree)[node]))
}

/// Every child of a node is a node, and `route` gives each child the route
/// of its parent followed by the child's place among its siblings. So no
/// node stands at two places: the nodes form trees.
pub open spec fn tree_routed_by(tree: Tree, route: spec_fn(u64) -> Seq<int>) -> bool {
    forall|node: u64, i: int|
        tree_nodes(tree).contains(node) && 0 <= i < tree_children(tree, node).len() ==> {
            let child = #[trigger] tree_children(tree, node)[i];
            tree_nodes(tree).contains(child) && route(child) == route(node).push(i)
        }
}

/// The nodes form trees: no node is a child at two places.
pub open spec fn tree_routed(tree: Tree) -> bool {
    exists|route: spec_fn(u64) -> Seq<int>| tree_routed_by(tree, route)
}

/// Trees have no cycle: the length of a node's route rises from each node to
/// its children.
pub proof fn lemma_routed_sound(tree: Tree)
    requires
        tree_routed(tree),
    ensures
        tree_sound(tree),
        tree_closed(tree),
{
    let route = choose|route: spec_fn(u64) -> Seq<int>| tree_routed_by(tree, route);
    let rank = |node: u64| route(node).len();
    assert forall|node: u64, i: int|
        tree_nodes(tree).contains(node) && 0 <= i < tree_children(tree, node).len() implies ({
        let under = #[trigger] tree_children(tree, node)[i];
        tree_nodes(tree).contains(under) && rank(node) < rank(under)
    }) by {
        let under = tree_children(tree, node)[i];
        assert(route(under) == route(node).push(i));
    }
    assert(tree_ranked(tree, rank));
    lemma_sound_closed(tree);
}

/// The nodes keep forming trees where a node gets a further child that is
/// new to the tree and has no children itself.
proof fn lemma_routed_with_child(before: Tree, after: Tree, parent: u64, child: u64)
    requires
        tree_routed(before),
        tree_nodes(before).contains(parent),
        !tree_nodes(before).contains(child),
        tree_nodes(after) == tree_nodes(before).insert(child),
        tree_children(after, child).len() == 0,
        tree_children(after, parent) == tree_children(before, parent).push(child),
        forall|node: u64|
            tree_nodes(before).contains(node) && node != parent ==> #[trigger] tree_children(
                after,
                node,
            ) == tree_children(before, node),
    ensures
        tree_routed(after),
{
    let was = choose|route: spec_fn(u64) -> Seq<int>| tree_routed_by(before, route);
    let place = tree_children(before, parent).len() as int;
    let route = |node: u64|
        if node == child {
            was(parent).push(place)
        } else {
            was(node)
        };
    assert forall|node: u64, i: int|
        tree_nodes(after).contains(node) && 0 <= i < tree_children(after, node).len() implies ({
        let under = #[trigger] tree_children(after, node)[i];
        tree_nodes(after).contains(under) && route(under) == route(node).push(i)
    }) by {
        if node == child {
        } else if node == parent {
            if i < tree_children(before, node).len() {
                assert(tree_children(after, node)[i] == tree_children(before, node)[i]);
            }
        } else {
            assert(tree_children(after, node)[i] == tree_children(before, node)[i]);
        }
    }
    assert(tree_routed_by(after, route));
}

/// The nodes keep forming trees where the tree gets a node without
/// children, or where nothing changes but what the nodes carry.
proof fn lemma_routed_kept(before: Tree, after: Tree)
    requires
        tree_routed(before),
        forall|node: u64| #[trigger]
            tree_nodes(after).contains(node) ==> tree_children(after, node).len() == 0 || (
            tree_nodes(before).contains(node) && tree_children(after, node) == tree_children(
                before,
                node,
            )),
        forall|node: u64| tree_nodes(before).contains(node) ==> tree_nodes(after).contains(node),
    ensures
        tree_routed(after),
{
    let route = choose|route: spec_fn(u64) -> Seq<int>| tree_routed_by(before, route);
    assert forall|node: u64, i: int|
        tree_nodes(after).contains(node) && 0 <= i < tree_children(after, node).len() implies ({
        let under = #[trigger] tree_children(after, node)[i];
        tree_nodes(after).contains(under) && route(under) == route(node).push(i)
    }) by {
        assert(tree_children(after, node)[i] == tree_children(before, node)[i]);
    }
    assert(tree_routed_by(after, route));
}

/// Makes a layout node of `style` for `child`, hangs it under `parent_node`
/// if there is one, stores `child` in the arena and ties the two together.
fn add_child_internal(
    tree: &mut Tree,
    widgets: &mut WidgetMap,
    nodes: &mut Vec<u64>,
    parent_node: Option<u64>,
    child: WidgetState,
    style: taffy::Style,
) -> (made: Result<(WidgetID, u64), LayoutError>)
    requires
        old(widgets).wf(),
        old(widgets).room(),
        old(widgets)@.count() <= TREE_NODES_MAX,
        states_wf(old(widgets)@),
        child.wf(),
        linked(*old(tree), old(widgets)@, old(nodes)@),
        tree_routed(*old(tree)),
        tree_flex(*old(tree)),
        admitted(style_display(style)),
        parent_node is Some ==> tree_nodes(*old(tree)).contains(parent_node->0),
    ensures
        made is Ok,
        final(widgets).wf(),
        states_wf(final(widgets)@),
        linked(*final(tree), final(widgets)@, final(nodes)@),
        tree_routed(*final(tree)),
        tree_flex(*final(tree)),
        final(widgets)@ == old(widgets)@.add(child),
        made->Ok_0.0 == old(widgets)@.next_handle(),
        !tree_nodes(*old(tree)).contains(made->Ok_0.1),
        tree_nodes(*final(tree)) == tree_nodes(*old(tree)).insert(made->Ok_0.1),
        tree_contexts(*final(tree)) == tree_contexts(*old(tree)).insert(
            made->Ok_0.1,
            (made->Ok_0.0.idx, made->Ok_0.0.generation),
        ),
        tree_children(*final(tree), made->Ok_0.1) == Seq::<u64>::empty(),
        tree_style(*final(tree), made->Ok_0.1) == style,
        tree_dirty(*final(tree), made->Ok_0.1),
        final(nodes)@[made->Ok_0.0.idx as int] == made->Ok_0.1,
        forall|id: Handle| #[trigger]
            old(widgets)@.live(id) ==> final(nodes)@[id.idx as int] == old(nodes)@[id.idx as int],
        forall|node: u64|
            tree_nodes(*old(tree)).contains(node) && parent_node != Some(node)
                ==> #[trigger] tree_children(*final(tree), node) == tree_children(*old(tree), node),
        parent_node is Some ==> tree_children(*final(tree), parent_node->0) == tree_children(
            *old(tree),
            parent_node->0,
        ).push(made->Ok_0.1),
        parent_node is Some ==> tree_dirty(*final(tree), parent_node->0),
        forall|node: u64|
            tree_nodes(*old(tree)).contains(node) && tree_dirty(*old(tree), node)
                ==> #[trigger] tree_dirty(*final(tree), node),
        forall|node: u64|
            tree_nodes(*old(tree)).contains(node) ==> #[trigger] tree_style(*final(tree), node)
                == tree_style(*old(tree), node),
        forall|node: u64|
            tree_nodes(*old(tree)).contains(node) ==> #[trigger] tree_layout(*final(tree), node)
                == tree_layout(*old(tree), node),
{
    proof {
        lemma_add(widgets@, child);
        lemma_first_free(widgets@.slots, 0);
    }
    let child_node = match tree_new_leaf(tree, style) {
        Ok(node) => node,
        Err(_) => {
            return Err(LayoutError::LayoutEngineFailure);
        },
    };
    let ghost leafed = *tree;
    proof {
        lemma_routed_kept(*old(tree), leafed);
        lemma_routed_sound(leafed);
    }
    if let Some(parent_node) = parent_node {
        match tree_add_child(tree, parent_node, child_node) {
            Ok(_) => {},
            Err(_) => {
                return Err(LayoutError::LayoutEngineFailure);
            },
        }
        proof {
            lemma_routed_with_child(*old(tree), *tree, parent_node, child_node);
        }
    }
    let ghost hung = *tree;
    proof {
        lemma_routed_sound(hung);
    }
    let child_id = widgets.add(child);
    match tree_set_node_context(tree, child_node, (child_id.idx, child_id.generation)) {
        Ok(_) => {},
        Err(_) => {
            return Err(LayoutError::LayoutEngineFailure);
        },
    }
    if (child_id.idx as usize) < nodes.len() {
        nodes[child_id.idx as usize] = child_node;
    } else {
        nodes.push(child_node);
    }
    proof {
        lemma_routed_kept(hung, *tree);
        let was = old(widgets)@;
        let now = widgets@;
        assert forall|i: int| 0 <= i < now.slots.len() && (#[trigger] now.slots[i]) is Some implies now.slots[i]->0.obj.wf() by {
            if i != child_id.idx {
                assert(now.slots[i] == was.slots[i]);
            }
        }
        assert forall|id: Handle| #[trigger] now.live(id) implies ({
            let node = nodes@[id.idx as int];
            &&& tree_nodes(*tree).contains(node)
            &&& tree_contexts(*tree).contains_key(node)
            &&& context_handle(tree_contexts(*tree)[node]) == id
        }) by {
            if id != child_id {
                assert(now.get(id) == was.get(id));
                assert(was.live(id));
            }
        }
        assert forall|node: u64| #[trigger] tree_nodes(*tree).contains(node) implies ({
            &&& tree_contexts(*tree).contains_key(node)
            &&& now.live(context_handle(tree_contexts(*tree)[node]))
            &&& nodes@[context_handle(tree_contexts(*tree)[node]).idx as int] == node
        }) by {
            if node != child_node {
                assert(tree_nodes(*old(tree)).contains(node));
                let id = context_handle(tree_contexts(*old(tree))[node]);
                assert(was.live(id));
                assert(now.get(id) == was.get(id));
            }
        }
        assert forall|node: u64| #[trigger] tree_nodes(*tree).contains(node) implies admitted(
            style_display(tree_style(*tree, node)),
        ) by {
            if node != child_node {
                assert(tree_nodes(*old(tree)).contains(node));
                assert(tree_style(*tree, node) == tree_style(*old(tree), node));
            }
        }
        assert forall|node: u64|
            tree_nodes(*old(tree)).contains(node) && tree_dirty(
                *old(tree),
                node,
            ) implies #[trigger] tree_dirty(*tree, node) by {
            assert(tree_dirty(leafed, node));
            assert(tree_dirty(hung, node));
        }
    }
    Ok((child_id, child_node))
}

/// The widget tree.
pub struct Layout {
    tree: Tree,
    widget_states: WidgetMap,
    root_widget: WidgetID,
    root_node: u64,
    prev_size: Vec2,
    /// The layout node of the widget in each arena slot.
    nodes: Vec<u64>,
}

impl Layout {
    /// The layout engine's tree.
    pub closed spec fn tree(&self) -> Tree {
        self.tree
    }

    /// The arena of widget states.
    pub closed spec fn widgets(&self) -> ArenaModel<WidgetState> {
        self.widget_states@
    }

    pub closed spec fn root(&self) -> WidgetID {
        self.root_widget
    }

    pub closed spec fn root_node_id(&self) -> u64 {
        self.root_node
    }

    /// The viewport size of the last layout solve.
    pub closed spec fn solved_size(&self) -> Vec2 {
        self.prev_size
    }

    /// The layout node of a live widget.
    pub closed spec fn node_of(&self, id: WidgetID) -> u64 {
        self.nodes@[id.idx as int]
    }

    /// The arena's own bookkeeping holds.
    pub closed spec fn arena_ok(&self) -> bool {
        self.widget_states.wf()
    }

    pub closed spec fn inv(&self) -> bool {
        &&& self.nodes@[self.root_widget.idx as int] == self.root_node
        &&& linked(self.tree, self.widget_states@, self.nodes@)
    }

    /// What a traversal of the tree needs: the arena and its states are
    /// well formed, every child of a node is a node, and the root node is in
    /// the tree. Whether every node has a live widget is for the traversal
    /// to find out.
    pub open spec fn traversable(&self) -> bool {
        &&& self.arena_ok()
        &&& self.widgets().wf()
        &&& states_wf(self.widgets())
        &&& tree_closed(self.tree())
        &&& tree_nodes(self.tree()).contains(self.root_node_id())
    }

    /// The tree can be traversed, the root is live, and widgets and layout
    /// nodes stand one to one in a tree of flexbox and hidden nodes.
    pub open spec fn wf(&self) -> bool {
        &&& self.inv()
        &&& self.traversable()
        &&& self.widgets().live(self.root())
        &&& tree_routed(self.tree())
        &&& tree_sound(self.tree())
        &&& tree_flex(self.tree())
        &&& self.node_of(self.root()) == self.root_node_id()
    }

    /// In a well-formed tree every node carries the handle of a live widget.
    pub proof fn lemma_nodes_have_widgets(&self)
        requires
            self.wf(),
        ensures
            nodes_have_widgets(self.tree(), self.widgets()),
            tree_closed(self.tree()),
    {
    }

    /// The node of a live widget is a node of the tree, and carries the
    /// widget's handle.
    pub proof fn lemma_node_in_tree(&self, id: WidgetID)
        requires
            self.wf(),
            self.widgets().live(id),
        ensures
            tree_nodes(self.tree()).contains(self.node_of(id)),
            tree_contexts(self.tree()).contains_key(self.node_of(id)),
            context_handle(tree_contexts(self.tree())[self.node_of(id)]) == id,
    {
    }

    /// In a well-formed tree a widget's handle is carried by the widget's
    /// node and by no other.
    pub proof fn lemma_one_carrier(&self, id: WidgetID)
        requires
            self.wf(),
            self.widgets().live(id),
        ensures
            only_carrier(self.tree(), self.node_of(id), id),
            tree_nodes(self.tree()).contains(self.node_of(id)),
    {
    }

    /// Every live widget's state is well formed.
    pub proof fn lemma_states_wf(&self, id: WidgetID)
        requires
            self.traversable(),
            self.widgets().live(id),
        ensures
            self.widgets().get(id)->0.wf(),
    {
    }

    /// Whether `more` more widgets fit: the arena has room for them, and
    /// the engine for their nodes.
    pub open spec fn room_for(&self, more: nat) -> bool {
        &&& self.widgets().generation + more <= u64::MAX
        &&& self.widgets().slots.len() + more <= u32::MAX
        &&& self.widgets().count() + more <= TREE_NODES_MAX + 1
    }

    /// Whether one more widget fits.
    pub open spec fn room(&self) -> bool {
        self.room_for(1)
    }

    pub fn has_room(&self) -> (ok: bool)
        requires
            self.traversable(),
        ensures
            ok == self.room(),
    {
        self.has_room_for(1)
    }

    pub fn has_room_for(&self, more: u8) -> (ok: bool)
        requires
            self.traversable(),
        ensures
            ok == self.room_for(more as nat),
    {
        self.widget_states.room_left() >= more as u64 && self.widget_states.count() as u64
            + more as u64 <= TREE_NODES_MAX as u64 + 1
    }

    /// The layout engine's tree, for reading.
    pub fn tree_ref(&self) -> (tree: &Tree)
        ensures
            *tree == self.tree(),
    {
        &self.tree
    }

    /// The widget states, for reading.
    pub fn widget_states(&self) -> (widgets: &WidgetMap)
        ensures
            widgets@ == self.widgets(),
            widgets.wf() == self.arena_ok(),
    {
        &self.widget_states
    }

    pub fn root_widget(&self) -> (id: WidgetID)
        ensures
            id == self.root(),
    {
        self.root_widget
    }

    pub fn root_node(&self) -> (node: u64)
        ensures
            node == self.root_node_id(),
    {
        self.root_node
    }

    pub fn prev_size(&self) -> (size: Vec2)
        ensures
            size == self.solved_size(),
    {
        self.prev_size
    }

    /// The layout node of `id`, or nothing if the handle is stale or unknown.
    pub fn get_node(&self, id: WidgetID) -> (node: Option<u64>)
        requires
            self.wf(),
        ensures
            node == if self.widgets().live(id) {
                Some(self.node_of(id))
            } else {
                None
            },
            node is Some ==> tree_nodes(self.tree()).contains(node->0),
            node is Some ==> tree_contexts(self.tree()).contains_key(node->0),
            node is Some ==> context_handle(tree_contexts(self.tree())[node->0]) == id,
    {
        if self.widget_states.contains(&id) {
            Some(self.nodes[id.idx as usize])
        } else {
            None
        }
    }

    /// A tree of one widget: the root container, which asks for the whole
    /// of the viewport.
    pub fn new() -> (made: Result<Layout, LayoutError>)
        ensures
            made is Ok,
            made->Ok_0.wf(),
            made->Ok_0.root() == ArenaModel::<WidgetState>::empty().next_handle(),
            made->Ok_0.widgets().get(made->Ok_0.root()) is Some,
            made->Ok_0.widgets().get(made->Ok_0.root())->0.fresh(Widget::Div(Div {  })),
            made->Ok_0.widgets() == ArenaModel::<WidgetState>::empty().add(
                made->Ok_0.widgets().get(made->Ok_0.root())->0,
            ),
            made->Ok_0.widgets().count() == 1,
            made->Ok_0.room(),
            tree_nodes(made->Ok_0.tree()) == set![made->Ok_0.root_node_id()],
            tree_children(made->Ok_0.tree(), made->Ok_0.root_node_id()) == Seq::<u64>::empty(),
            tree_style(made->Ok_0.tree(), made->Ok_0.root_node_id()) == style_of_percent(1),
            tree_scroll(made->Ok_0.tree(), made->Ok_0.root_node_id()) == no_scroll(),
            tree_dirty(made->Ok_0.tree(), made->Ok_0.root_node_id()),
            tree_contexts(made->Ok_0.tree()) == no_contexts().insert(
                made->Ok_0.root_node_id(),
                (made->Ok_0.root().idx, made->Ok_0.root().generation),
            ),
            made->Ok_0.node_of(made->Ok_0.root()) == made->Ok_0.root_node_id(),
            made->Ok_0.solved_size() == (Vec2 { x: 0, y: 0 }),
    {
        let mut tree = tree_new();
        let mut widget_states: WidgetMap = Arena::new();
        let mut nodes: Vec<u64> = Vec::new();
        let root_state = Div::create();
        proof {
            lemma_add(widget_states@, root_state);
            assert(tree_nodes(tree).len() == 0);
            assert(tree_routed_by(tree, |node: u64| Seq::<int>::empty()));
        }
        let (root_widget, root_node) = match add_child_internal(
            &mut tree,
            &mut widget_states,
            &mut nodes,
            None,
            root_state,
            percent_style(1),
        ) {
            Ok(pair) => pair,
            Err(e) => {
                return Err(e);
            },
        };
        proof {
            assert(tree_nodes(tree) =~= set![root_node]);
            lemma_routed_sound(tree);
        }
        Ok(
            Layout {
                tree,
                widget_states,
                root_widget,
                root_node,
                prev_size: Vec2 { x: 0, y: 0 },
                nodes,
            },
        )
    }

    /// Why [`Layout::add_child`] fails for this parent and style, if it
    /// does: the parent handle is stale or unknown, or the style asks the
    /// engine for another layout than flexbox.
    pub open spec fn refusal(&self, parent_widget_id: WidgetID, style: taffy::Style) -> Option<
        LayoutError,
    > {
        if !self.widgets().live(parent_widget_id) {
            Some(LayoutError::InvalidParent)
        } else if !admitted(style_display(style)) {
            Some(LayoutError::LayoutEngineFailure)
        } else {
            None
        }
    }

    /// Adds `widget` as the last child of `parent_widget_id`, with a layout
    /// node of `style`. Fails, and changes nothing, if the parent handle is
    /// stale or unknown, or if the style asks the engine for another layout
    /// than flexbox. The new node and its parent are dirty afterwards, and
    /// no node has become clean.
    pub fn add_child(
        &mut self,
        parent_widget_id: WidgetID,
        widget: WidgetState,
        style: taffy::Style,
    ) -> (made: Result<(WidgetID, u64), LayoutError>)
        requires
            old(self).wf(),
            old(self).room(),
            widget.wf(),
        ensures
            final(self).wf(),
            old(self).kept_by(*final(self)),
            made is Ok <==> old(self).refusal(parent_widget_id, style) is None,
            made is Err ==> Some(made->Err_0) == old(self).refusal(parent_widget_id, style)
                && *final(self) == *old(self),
            made is Ok ==> {
                let id = made->Ok_0.0;
                let node = made->Ok_0.1;
                let parent_node = old(self).node_of(parent_widget_id);
                &&& id == old(self).widgets().next_handle()
                &&& final(self).widgets() == old(self).widgets().add(widget)
                &&& final(self).widgets().get(id) == Some(widget)
                &&& final(self).widgets().count() == old(self).widgets().count() + 1
                &&& final(self).node_of(id) == node
                &&& !tree_nodes(old(self).tree()).contains(node)
                &&& tree_nodes(final(self).tree()) == tree_nodes(old(self).tree()).insert(node)
                &&& tree_contexts(final(self).tree()) == tree_contexts(old(self).tree()).insert(
                    node,
                    (id.idx, id.generation),
                )
                &&& tree_children(final(self).tree(), node) == Seq::<u64>::empty()
                &&& tree_children(final(self).tree(), parent_node) == tree_children(
                    old(self).tree(),
                    parent_node,
                ).push(node)
                &&& tree_style(final(self).tree(), node) == style
                &&& tree_dirty(final(self).tree(), node)
                &&& tree_dirty(final(self).tree(), parent_node)
                &&& forall|other: u64|
                    tree_nodes(old(self).tree()).contains(other) && tree_dirty(
                        old(self).tree(),
                        other,
                    ) ==> #[trigger] tree_dirty(final(self).tree(), other)
                &&& forall|other: u64|
                    tree_nodes(old(self).tree()).contains(other) && other != parent_node
                        ==> #[trigger] tree_children(final(self).tree(), other) == tree_children(
                        old(self).tree(),
                        other,
                    )
                &&& forall|other: u64|
                    tree_nodes(old(self).tree()).contains(other) ==> #[trigger] tree_style(
                        final(self).tree(),
                        other,
                    ) == tree_style(old(self).tree(), other)
                &&& forall|other: u64|
                    tree_nodes(old(self).tree()).contains(other) ==> #[trigger] tree_layout(
                        final(self).tree(),
                        other,
                    ) == tree_layout(old(self).tree(), other)
                &&& final(self).solved_size() == old(self).solved_size()
            },
    {
        proof {
            old(self).lemma_kept_by_itself();
        }
        if !self.widget_states.contains(&parent_widget_id) {
            return Err(LayoutError::InvalidParent);
        }
        match style_display_mode(&style) {
            DisplayMode::Flex => {},
            DisplayMode::Hidden => {},
            _ => {
                return Err(LayoutError::LayoutEngineFailure);
            },
        }
        let parent_node = self.nodes[parent_widget_id.idx as usize];
        proof {
            lemma_add(self.widget_states@, widget);
        }
        let made = add_child_internal(
            &mut self.tree,
            &mut self.widget_states,
            &mut self.nodes,
            Some(parent_node),
            widget,
            style,
        );
        proof {
            lemma_routed_sound(self.tree);
            assert forall|id: Handle| #[trigger] old(self).widget_states@.live(id) implies self.widget_states@.get(
                id,
            ) == old(self).widget_states@.get(id) by {
                assert(id != old(self).widget_states@.next_handle());
            }
        }
        made
    }

    /// Solves the layout for a viewport of `size`, unless nothing has
    /// changed: the engine reports the root clean and `size` is the size of
    /// the last solve. A solve keeps the tree's structure and leaves the
    /// root clean.
    pub fn update(&mut self, size: Vec2) -> (done: Result<(), LayoutError>)
        requires
            old(self).wf(),
        ensures
            done is Ok,
            old(self).updated(size, *final(self)),
            old(self).kept_by(*final(self)),
            forall|id: Handle| final(self).node_of(id) == old(self).node_of(id),
    {
        let root_node = self.root_node;
        let dirty = match tree_is_dirty(&self.tree, root_node) {
            Ok(dirty) => dirty,
            Err(_) => {
                return Err(LayoutError::LayoutEngineFailure);
            },
        };
        if dirty || self.prev_size != size {
            self.prev_size = size;
            let ghost was_tree = self.tree;
            match tree_compute_layout(
                &mut self.tree,
                root_node,
                to_pixels(size.x),
                to_pixels(size.y),
            ) {
                Ok(_) => {},
                Err(_) => {
                    return Err(LayoutError::LayoutEngineFailure);
                },
            }
            proof {
                lemma_routed_kept(was_tree, self.tree);
                lemma_routed_sound(self.tree);
            }
        }
        Ok(())
    }

    /// Whether `after` still holds all that this tree holds: the same root
    /// widget and root node, and every widget that is live here, live there
    /// with the same layout node. Every operation that changes a
    /// well-formed tree keeps it in this sense, so the root and every
    /// handle once handed out stay good for as long as the tree lives.
    pub open spec fn kept_by(&self, after: Layout) -> bool {
        &&& after.wf()
        &&& self.keeps_root(after)
        &&& after.widgets().live(after.root())
        &&& forall|id: Handle| #[trigger]
            self.widgets().live(id) ==> after.widgets().live(id) && after.node_of(id)
                == self.node_of(id)
    }

    /// A well-formed tree keeps itself.
    pub proof fn lemma_kept_by_itself(&self)
        requires
            self.wf(),
        ensures
            self.kept_by(*self),
    {
    }

    /// Whether `after` is what [`Layout::update`] makes of this tree for
    /// `size`: the same tree where it does not solve, and else the tree
    /// that the engine's solve for `size` gives, which has the same
    /// structure and widgets and a clean root.
    pub open spec fn updated(&self, size: Vec2, after: Layout) -> bool {
        &&& after.wf()
        &&& !self.solves(size) ==> after == *self
        &&& self.solves(size) ==> after.tree() == tree_solved(
            self.tree(),
            self.root_node_id(),
            pixels(size.x),
            pixels(size.y),
        ) && !tree_dirty(after.tree(), after.root_node_id())
        &&& after.solved_size() == size
        &&& same_structure(after.tree(), self.tree())
        &&& after.widgets() == self.widgets()
        &&& after.root() == self.root()
        &&& after.root_node_id() == self.root_node_id()
    }

    /// Whether [`Layout::update`] solves the layout for `size`.
    pub open spec fn solves(&self, size: Vec2) -> bool {
        tree_dirty(self.tree(), self.root_node_id()) || self.solved_size() != size
    }
}

/// A length in pixels as the engine takes it, held to the range of `i32`.
pub open spec fn pixels(length: i64) -> i32 {
    if length < i32::MIN {
        i32::MIN
    } else if length > i32::MAX {
        i32::MAX
    } else {
        length as i32
    }
}

/// A length in pixels as the engine takes it.
pub fn to_pixels(length: i64) -> (held: i32)
    ensures
        held == pixels(length),
{
    if length < i32::MIN as i64 {
        i32::MIN
    } else if length > i32::MAX as i64 {
        i32::MAX
    } else {
        length as i32
    }
}


/// A node's rectangle as a transform relative to its parent.
pub open spec fn local_transform(l: NodeLayout) -> Transform {
    Transform {
        pos: Vec2 { x: l.x as i64, y: l.y as i64 },
        dim: Vec2 { x: l.width as i64, y: l.height as i64 },
    }
}

/// What the widget of `node` is told of an event, below a parent at the
/// absolute transform `parent`.
pub open spec fn event_params(tree: Tree, node: u64, parent: Transform) -> EventParams {
    EventParams {
        node_id: node,
        scroll: tree_scroll(tree, node),
        layout: tree_layout(tree, node),
        transform: local_transform(tree_layout(tree, node)).under(parent),
    }
}

/// What a dispatch leaves behind: the widget states, the listeners that
/// fired, in order, and the error that stopped it, if one did.
pub struct Dispatched {
    pub widgets: ArenaModel<WidgetState>,
    pub fired: Seq<CallbackData>,
    pub error: Option<LayoutError>,
}

/// The dispatch of `event` to `node` and, unless its widget keeps the event,
/// to the node's children in the engine's order. `room` is the number of
/// transforms that the stack still takes.
///
/// The dispatch stops at the first node that carries no handle, whose
/// handle finds no widget, or that lies deeper than the stack reaches;
/// what was done up to there stays done.
pub open spec fn dispatch_node(
    tree: Tree,
    widgets: ArenaModel<WidgetState>,
    parent: Transform,
    node: u64,
    event: Event,
    room: nat,
) -> Dispatched
    decreases room, 0nat,
{
    if !tree_contexts(tree).contains_key(node) {
        Dispatched { widgets, fired: Seq::empty(), error: Some(LayoutError::InvalidNode) }
    } else {
        let id = context_handle(tree_contexts(tree)[node]);
        match widgets.get(id) {
            None => Dispatched {
                widgets,
                fired: Seq::empty(),
                error: Some(LayoutError::InvalidWidget),
            },
            Some(state) => if room == 0 {
                Dispatched { widgets, fired: Seq::empty(), error: Some(LayoutError::TooDeep) }
            } else {
                let params = event_params(tree, node, parent);
                let seen = widgets.set(id, state.after(event, params));
                let fired = state.notified(id, node, event, params);
                if WidgetState::outcome(event, params) == EventResult::Pass {
                    let below = dispatch_children(
                        tree,
                        seen,
                        params.transform,
                        tree_children(tree, node),
                        event,
                        (room - 1) as nat,
                    );
                    Dispatched {
                        widgets: below.widgets,
                        fired: fired + below.fired,
                        error: below.error,
                    }
                } else {
                    Dispatched { widgets: seen, fired, error: None }
                }
            },
        }
    }
}

/// The dispatch of `event` to each of `children` in turn, up to the first
/// that fails.
pub open spec fn dispatch_children(
    tree: Tree,
    widgets: ArenaModel<WidgetState>,
    parent: Transform,
    children: Seq<u64>,
    event: Event,
    room: nat,
) -> Dispatched
    decreases room, children.len() + 1,
{
    if children.len() == 0 {
        Dispatched { widgets, fired: Seq::empty(), error: None }
    } else {
        let first = dispatch_node(tree, widgets, parent, children[0], event, room);
        if first.error is Some {
            first
        } else {
            let rest = dispatch_children(
                tree,
                first.widgets,
                parent,
                children.drop_first(),
                event,
                room,
            );
            Dispatched { widgets: rest.widgets, fired: first.fired + rest.fired, error: rest.error }
        }
    }
}

/// The result that stands for the error of a dispatch or a draw.
pub open spec fn outcome_of(error: Option<LayoutError>) -> Result<(), LayoutError> {
    match error {
        Some(e) => Err(e),
        None => Ok(()),
    }
}

/// Replacing a live widget's state by a well-formed one keeps all states
/// well formed.
pub proof fn lemma_set_states_wf(widgets: ArenaModel<WidgetState>, id: Handle, state: WidgetState)
    requires
        widgets.wf(),
        states_wf(widgets),
        widgets.live(id),
        state.wf(),
    ensures
        states_wf(widgets.set(id, state)),
        widgets.set(id, state).wf(),
{
    lemma_set(widgets, id, state);
    let after = widgets.set(id, state);
    assert forall|i: int| 0 <= i < after.slots.len() && (#[trigger] after.slots[i]) is Some implies after.slots[i]->0.obj.wf() by {
        if i != id.idx {
            assert(after.slots[i] == widgets.slots[i]);
        }
    }
}

impl Layout {
    fn push_event_widget(
        widgets: &mut WidgetMap,
        tree: &Tree,
        transform_stack: &mut TransformStack,
        node: u64,
        event: &Event,
        fired: &mut Vec<CallbackData>,
    ) -> (done: Result<(), LayoutError>)
        requires
            old(widgets).wf(),
            states_wf(old(widgets)@),
            tree_closed(*tree),
            tree_nodes(*tree).contains(node),
            old(transform_stack).wf(),
        ensures
            final(widgets).wf(),
            states_wf(final(widgets)@),
            final(transform_stack).wf(),
            ({
                let d = dispatch_node(
                    *tree,
                    old(widgets)@,
                    old(transform_stack)@.last(),
                    node,
                    *event,
                    (TRANSFORM_STACK_MAX - old(transform_stack)@.len()) as nat,
                );
                &&& final(widgets)@ == d.widgets
                &&& final(fired)@ == old(fired)@ + d.fired
                &&& done == outcome_of(d.error)
                &&& done is Ok ==> final(transform_stack)@ == old(transform_stack)@
            }),
        decreases TRANSFORM_STACK_MAX - old(transform_stack)@.len(),
    {
        let ghost room = (TRANSFORM_STACK_MAX - transform_stack@.len()) as nat;
        let ghost parent = transform_stack@.last();
        let ghost whole = dispatch_node(*tree, widgets@, parent, node, *event, room);
        let ghost start = fired@;
        proof {
            assert(start =~= start + Seq::<CallbackData>::empty());
        }
        let context = match tree_get_node_context(tree, node) {
            Some(context) => context,
            None => {
                return Err(LayoutError::InvalidNode);
            },
        };
        let widget_id = Handle { idx: context.0, generation: context.1 };
        if !widgets.contains(&widget_id) {
            return Err(LayoutError::InvalidWidget);
        }
        if !transform_stack.has_room() {
            return Err(LayoutError::TooDeep);
        }
        let l = match tree_node_layout(tree, node) {
            Ok(l) => l,
            Err(_) => {
                return Err(LayoutError::LayoutEngineFailure);
            },
        };
        let scroll = match tree_node_style(tree, node) {
            Ok(style) => get_scroll_enabled(&style_overflows(style)),
            Err(_) => {
                return Err(LayoutError::LayoutEngineFailure);
            },
        };
        transform_stack.push(
            Transform {
                pos: Vec2 { x: l.x as i64, y: l.y as i64 },
                dim: Vec2 { x: l.width as i64, y: l.height as i64 },
            },
        );
        let params = EventParams {
            node_id: node,
            scroll,
            layout: l,
            transform: *transform_stack.get(),
        };
        assert(params == event_params(*tree, node, parent));
        let ghost was = widgets@;
        let ghost state_was = was.get(widget_id)->0;
        proof {
            assert(state_was.wf());
            lemma_set_states_wf(was, widget_id, state_was.after(*event, params));
        }
        let result = match widgets.get_mut(&widget_id) {
            Some(state) => state.process_event(widget_id, node, event, &params, fired),
            None => {
                return Err(LayoutError::InvalidWidget);
            },
        };
        let ghost seen = widgets@;
        let ghost own = state_was.notified(widget_id, node, *event, params);
        assert(seen == was.set(widget_id, state_was.after(*event, params)));
        match result {
            EventResult::Pass => {},
            _ => {
                transform_stack.pop();
                proof {
                    assert(transform_stack@ =~= old(transform_stack)@);
                }
                return Ok(());
            },
        }
        let children = tree_child_ids(tree, node);
        let ghost kids = children@;
        let ghost top = params.transform;
        let ghost below = dispatch_children(*tree, seen, top, kids, *event, (room - 1) as nat);
        let ghost pushed = transform_stack@;
        let mut i: usize = 0;
        let ghost mut acc = Seq::<CallbackData>::empty();
        proof {
            assert(kids.subrange(0, kids.len() as int) =~= kids);
            assert(fired@ =~= start + own + acc);
        }
        while i < children.len()
            invariant
                i <= kids.len(),
                children@ == kids,
                widgets.wf(),
                states_wf(widgets@),
                transform_stack.wf(),
                transform_stack@ == pushed,
                pushed.len() == old(transform_stack)@.len() + 1,
                pushed.last() == top,
                room == TRANSFORM_STACK_MAX - old(transform_stack)@.len(),
                tree_closed(*tree),
                tree_nodes(*tree).contains(node),
                kids == tree_children(*tree, node),
                fired@ == start + own + acc,
                start == old(fired)@,
                whole == dispatch_node(
                    *tree,
                    old(widgets)@,
                    old(transform_stack)@.last(),
                    node,
                    *event,
                    room,
                ),
                whole.error == below.error,
                whole.widgets == below.widgets,
                whole.fired == own + below.fired,
                ({
                    let rest = dispatch_children(
                        *tree,
                        widgets@,
                        top,
                        kids.subrange(i as int, kids.len() as int),
                        *event,
                        (room - 1) as nat,
                    );
                    &&& below.widgets == rest.widgets
                    &&& below.error == rest.error
                    &&& below.fired == acc + rest.fired
                }),
            decreases kids.len() - i,
        {
            let ghost tail = kids.subrange(i as int, kids.len() as int);
            let ghost before = widgets@;
            let ghost first = dispatch_node(
                *tree,
                before,
                top,
                kids[i as int],
                *event,
                (room - 1) as nat,
            );
            proof {
                assert(tail[0] == kids[i as int]);
                assert(tail.drop_first() =~= kids.subrange(i as int + 1, kids.len() as int));
            }
            let child = children[i];
            let visited = Layout::push_event_widget(
                widgets,
                tree,
                transform_stack,
                child,
                event,
                fired,
            );
            proof {
                assert(fired@ =~= start + own + (acc + first.fired));
            }
            if let Err(e) = visited {
                proof {
                    assert(own + below.fired =~= own + (acc + first.fired));
                    assert(fired@ =~= start + (own + below.fired));
                }
                return Err(e);
            }
            proof {
                let rest = dispatch_children(
                    *tree,
                    first.widgets,
                    top,
                    tail.drop_first(),
                    *event,
                    (room - 1) as nat,
                );
                assert(below.fired =~= (acc + first.fired) + rest.fired);
                acc = acc + first.fired;
            }
            i += 1;
        }
        proof {
            assert(kids.subrange(i as int, kids.len() as int) =~= Seq::<u64>::empty());
            assert(below.fired =~= acc);
            assert(fired@ =~= start + (own + below.fired));
        }
        transform_stack.pop();
        proof {
            assert(transform_stack@ =~= old(transform_stack)@);
        }
        Ok(())
    }

    /// Appends `listener` to the listeners of the widget `id`. Fails, and
    /// changes nothing, if the handle is stale or unknown.
    pub fn add_event_listener(&mut self, id: WidgetID, listener: EventListener) -> (done:
        Result<(), LayoutError>)
        requires
            old(self).wf(),
        ensures
            final(self).wf(),
            old(self).kept_by(*final(self)),
            done is Ok <==> old(self).widgets().live(id),
            done is Err ==> done->Err_0 == LayoutError::InvalidWidget && *final(self) == *old(self),
            done is Ok ==> {
                &&& final(self).widgets().get(id) is Some
                &&& final(self).widgets().get(id)->0.gained(
                    old(self).widgets().get(id)->0,
                    listener,
                )
                &&& same_handles(old(self).widgets(), final(self).widgets())
                &&& forall|other: Handle|
                    other != id ==> final(self).widgets().get(other) == old(self).widgets().get(
                        other,
                    )
            },
            final(self).tree() == old(self).tree(),
            final(self).root() == old(self).root(),
            final(self).root_node_id() == old(self).root_node_id(),
            final(self).solved_size() == old(self).solved_size(),
            forall|other: Handle| final(self).node_of(other) == old(self).node_of(other),
    {
        if !self.widget_states.contains(&id) {
            return Err(LayoutError::InvalidWidget);
        }
        let ghost was = self.widget_states@;
        let ghost state_was = was.get(id)->0;
        assert(state_was.wf());
        let ghost mut state_now = state_was;
        match self.widget_states.get_mut(&id) {
            Some(state) => {
                state.add_event_listener(listener);
                proof {
                    state_now = *state;
                }
            },
            None => {},
        }
        proof {
            assert(self.widget_states@ == was.set(id, state_now));
            assert(state_now.gained(state_was, listener));
            lemma_set_states_wf(was, id, state_now);
            lemma_same_handles_set(was, id, state_now);
            lemma_set(was, id, state_now);
        }
        Ok(())
    }

    /// Mutable access to the widget object of `id`: what the caller writes
    /// through it is the widget's object from then on, and nothing else
    /// changes.
    pub fn get_widget_mut(&mut self, id: WidgetID) -> (found: Option<&mut Widget>)
        requires
            old(self).wf(),
        ensures
            final(self).wf(),
            old(self).kept_by(*final(self)),
            match found {
                Some(obj) => {
                    &&& old(self).widgets().get(id) is Some
                    &&& *obj == old(self).widgets().get(id)->0.obj
                    &&& final(self).widgets() == old(self).widgets().set(
                        id,
                        old(self).widgets().get(id)->0.with_obj(*final(obj)),
                    )
                },
                None => old(self).widgets().get(id) is None && final(self).widgets() == old(
                    self,
                ).widgets(),
            },
            final(self).tree() == old(self).tree(),
            final(self).root() == old(self).root(),
            final(self).root_node_id() == old(self).root_node_id(),
            final(self).solved_size() == old(self).solved_size(),
            forall|other: Handle| final(self).node_of(other) == old(self).node_of(other),
    {
        if !self.widget_states.contains(&id) {
            return None;
        }
        let ghost was = self.widget_states@;
        let ghost state_was = was.get(id)->0;
        proof {
            assert(state_was.wf());
            assert forall|obj: Widget|
                states_wf(was.set(id, #[trigger] state_was.with_obj(obj))) && same_handles(
                    was,
                    was.set(id, state_was.with_obj(obj)),
                ) by {
                lemma_set_states_wf(was, id, state_was.with_obj(obj));
                lemma_same_handles_set(was, id, state_was.with_obj(obj));
            }
        }
        match self.widget_states.get_mut(&id) {
            Some(state) => Some(&mut state.obj),
            None => None,
        }
    }

    /// Takes the widget `id` out of the arena. The root is never removed:
    /// its handle is refused, as is a stale or unknown one, and then nothing
    /// changes. The widget's layout node stays in the tree, so the tree is
    /// no longer well formed: a traversal that comes to the node stops there
    /// with `InvalidWidget`.
    pub fn remove_widget(&mut self, id: WidgetID) -> (done: Result<(), LayoutError>)
        requires
            old(self).traversable(),
        ensures
            final(self).traversable(),
            old(self).keeps_root(*final(self)),
            done is Ok <==> id != old(self).root() && old(self).widgets().live(id),
            done is Ok ==> final(self).widgets() == old(self).widgets().remove(id),
            done is Err ==> done->Err_0 == LayoutError::InvalidWidget && *final(self) == *old(self),
            final(self).tree() == old(self).tree(),
            final(self).solved_size() == old(self).solved_size(),
            forall|other: Handle| final(self).node_of(other) == old(self).node_of(other),
            forall|other: Handle|
                other != id ==> final(self).widgets().get(other) == old(self).widgets().get(other),
    {
        if id == self.root_widget {
            return Err(LayoutError::InvalidWidget);
        }
        if !self.widget_states.contains(&id) {
            return Err(LayoutError::InvalidWidget);
        }
        proof {
            lemma_remove_states_wf(self.widget_states@, id);
        }
        self.widget_states.remove(&id);
        assert(self.widget_states@.get(self.root_widget) == old(self).widget_states@.get(
            self.root_widget,
        ));
        Ok(())
    }

    /// Whether `after` has the root that this tree has: the same root
    /// widget and root node, live there if it is live here. Every operation
    /// that changes a tree keeps its root in this sense.
    pub open spec fn keeps_root(&self, after: Layout) -> bool {
        &&& after.root() == self.root()
        &&& after.root_node_id() == self.root_node_id()
        &&& self.widgets().live(self.root()) ==> after.widgets().live(after.root())
    }

    /// Dispatches `event` through the tree, from the root down, and appends
    /// to `fired` the listeners that fire, in the order in which they do.
    ///
    /// The dispatch stops with `InvalidNode` at the first node that carries
    /// no handle, with `InvalidWidget` at the first whose handle finds no
    /// widget, and with `TooDeep` at the first that lies deeper than the
    /// transform stack reaches; what was done up to there stays done. In a
    /// well-formed tree only the last can happen.
    pub fn push_event(&mut self, event: &Event, fired: &mut Vec<CallbackData>) -> (done: Result<
        (),
        LayoutError,
    >)
        requires
            old(self).traversable(),
        ensures
            final(self).traversable(),
            ({
                let d = old(self).dispatched(*event);
                &&& final(self).widgets() == d.widgets
                &&& final(fired)@ == old(fired)@ + d.fired
                &&& done == outcome_of(d.error)
            }),
            old(self).keeps_root(*final(self)),
            forall|id: Handle| final(self).widgets().live(id) == old(self).widgets().live(id),
            old(self).wf() ==> old(self).kept_by(*final(self)),
            old(self).wf() && done is Err ==> done->Err_0 == LayoutError::TooDeep,
            final(self).tree() == old(self).tree(),
            final(self).root() == old(self).root(),
            final(self).root_node_id() == old(self).root_node_id(),
            final(self).solved_size() == old(self).solved_size(),
            forall|id: Handle| final(self).node_of(id) == old(self).node_of(id),
    {
        let mut transform_stack = TransformStack::new();
        proof {
            if self.wf() {
                lemma_dispatch_error(
                    self.tree,
                    self.widget_states@,
                    transform_stack@.last(),
                    self.root_node,
                    *event,
                    (TRANSFORM_STACK_MAX - 1) as nat,
                );
            }
            lemma_dispatch_keeps_live(
                self.tree,
                self.widget_states@,
                transform_stack@.last(),
                self.root_node,
                *event,
                (TRANSFORM_STACK_MAX - 1) as nat,
            );
        }
        Layout::push_event_widget(
            &mut self.widget_states,
            &self.tree,
            &mut transform_stack,
            self.root_node,
            event,
            fired,
        )
    }

    /// What [`Layout::push_event`] does with `event`: the dispatch to the
    /// root node, below the root frame of a new transform stack.
    pub open spec fn dispatched(&self, event: Event) -> Dispatched {
        dispatch_node(
            self.tree(),
            self.widgets(),
            root_frame(),
            self.root_node_id(),
            event,
            (TRANSFORM_STACK_MAX - 1) as nat,
        )
    }
}

/// A dispatch changes states only: the same handles are live after it, in
/// the same slots, and the arena's counters stay.
pub proof fn lemma_dispatch_keeps_live(
    tree: Tree,
    widgets: ArenaModel<WidgetState>,
    parent: Transform,
    node: u64,
    event: Event,
    room: nat,
)
    requires
        widgets.wf(),
    ensures
        same_handles(widgets, dispatch_node(tree, widgets, parent, node, event, room).widgets),
    decreases room, 0nat,
{
    if tree_contexts(tree).contains_key(node) {
        let id = context_handle(tree_contexts(tree)[node]);
        if widgets.get(id) is Some && room > 0 {
            let state = widgets.get(id)->0;
            let params = event_params(tree, node, parent);
            let seen = widgets.set(id, state.after(event, params));
            lemma_set(widgets, id, state.after(event, params));
            lemma_same_handles_set(widgets, id, state.after(event, params));
            if WidgetState::outcome(event, params) == EventResult::Pass {
                lemma_dispatch_children_keep_live(
                    tree,
                    seen,
                    params.transform,
                    tree_children(tree, node),
                    event,
                    (room - 1) as nat,
                );
            }
        }
    }
}

pub proof fn lemma_dispatch_children_keep_live(
    tree: Tree,
    widgets: ArenaModel<WidgetState>,
    parent: Transform,
    children: Seq<u64>,
    event: Event,
    room: nat,
)
    requires
        widgets.wf(),
    ensures
        same_handles(
            widgets,
            dispatch_children(tree, widgets, parent, children, event, room).widgets,
        ),
    decreases room, children.len() + 1,
{
    if children.len() > 0 {
        lemma_dispatch_keeps_live(tree, widgets, parent, children[0], event, room);
        let first = dispatch_node(tree, widgets, parent, children[0], event, room);
        if first.error is None {
            lemma_dispatch_children_keep_live(
                tree,
                first.widgets,
                parent,
                children.drop_first(),
                event,
                room,
            );
        }
    }
}

/// In a tree whose nodes all carry the handle of a live widget, a dispatch
/// fails only where the tree is nested deeper than the stack reaches.
pub proof fn lemma_dispatch_error(
    tree: Tree,
    widgets: ArenaModel<WidgetState>,
    parent: Transform,
    node: u64,
    event: Event,
    room: nat,
)
    requires
        widgets.wf(),
        tree_closed(tree),
        nodes_have_widgets(tree, widgets),
        tree_nodes(tree).contains(node),
    ensures
        dispatch_node(tree, widgets, parent, node, event, room).error is Some ==> dispatch_node(
            tree,
            widgets,
            parent,
            node,
            event,
            room,
        ).error == Some(LayoutError::TooDeep),
    decreases room, 0nat,
{
    let id = context_handle(tree_contexts(tree)[node]);
    if room > 0 {
        let state = widgets.get(id)->0;
        let params = event_params(tree, node, parent);
        let seen = widgets.set(id, state.after(event, params));
        lemma_same_handles_set(widgets, id, state.after(event, params));
        if WidgetState::outcome(event, params) == EventResult::Pass {
            lemma_dispatch_children_error(
                tree,
                seen,
                params.transform,
                tree_children(tree, node),
                event,
                (room - 1) as nat,
            );
        }
    }
}

pub proof fn lemma_dispatch_children_error(
    tree: Tree,
    widgets: ArenaModel<WidgetState>,
    parent: Transform,
    children: Seq<u64>,
    event: Event,
    room: nat,
)
    requires
        widgets.wf(),
        tree_closed(tree),
        nodes_have_widgets(tree, widgets),
        forall|i: int| 0 <= i < children.len() ==> tree_nodes(tree).contains(#[trigger] children[i]),
    ensures
        dispatch_children(tree, widgets, parent, children, event, room).error is Some
            ==> dispatch_children(tree, widgets, parent, children, event, room).error == Some(
            LayoutError::TooDeep,
        ),
    decreases room, children.len() + 1,
{
    if children.len() > 0 {
        assert(tree_nodes(tree).contains(children[0]));
        lemma_dispatch_error(tree, widgets, parent, children[0], event, room);
        lemma_dispatch_keeps_live(tree, widgets, parent, children[0], event, room);
        let first = dispatch_node(tree, widgets, parent, children[0], event, room);
        if first.error is None {
            let rest = children.drop_first();
            assert forall|i: int| 0 <= i < rest.len() implies tree_nodes(tree).contains(
                #[trigger] rest[i],
            ) by {
                assert(rest[i] == children[i + 1]);
            }
            lemma_dispatch_children_error(tree, first.widgets, parent, rest, event, room);
        }
    }
}

/// The two arenas hold values under the same handles, in as many slots, and
/// are both well formed.
pub open spec fn same_handles(a: ArenaModel<WidgetState>, b: ArenaModel<WidgetState>) -> bool {
    &&& b.wf()
    &&& a.generation == b.generation
    &&& a.slots.len() == b.slots.len()
    &&& a.count() == b.count()
    &&& forall|id: Handle| a.live(id) == b.live(id)
}

pub proof fn lemma_same_handles_set(widgets: ArenaModel<WidgetState>, id: Handle, state: WidgetState)
    requires
        widgets.wf(),
        widgets.live(id),
    ensures
        same_handles(widgets, widgets.set(id, state)),
{
    lemma_set(widgets, id, state);
}


/// Two updates in a row for one size solve the layout at most once: the
/// second does not solve, and leaves the tree as the first left it.
pub proof fn lemma_update_twice(first: Layout, second: Layout, third: Layout, size: Vec2)
    requires
        first.updated(size, second),
        second.updated(size, third),
    ensures
        !second.solves(size),
        third == second,
{
}


/// Removing a widget leaves the states of the others well formed.
pub proof fn lemma_remove_states_wf(widgets: ArenaModel<WidgetState>, id: Handle)
    requires
        widgets.wf(),
        states_wf(widgets),
    ensures
        states_wf(widgets.remove(id)),
        widgets.remove(id).wf(),
{
    lemma_remove(widgets, id);
    if widgets.live(id) {
        let emptied = widgets.slots.update(id.idx as int, None);
        let after = widgets.remove(id).slots;
        lemma_trimmed(emptied);
        assert forall|i: int| 0 <= i < after.len() && (#[trigger] after[i]) is Some implies after[i]->0.obj.wf() by {
            assert(after[i] == emptied.subrange(0, after.len() as int)[i]);
            assert(after[i] == widgets.slots[i]);
        }
    }
}

/// Whether each tree of `history` keeps the root of the one before.
pub open spec fn root_kept_in_turn(history: Seq<Layout>) -> bool {
    forall|k: int|
        0 <= k < history.len() - 1 ==> (#[trigger] history[k]).keeps_root(history[k + 1])
}

/// Through any history of a tree in which each state keeps the root of the
/// one before, as every operation of [`Layout`] does, removals among them,
/// the root widget and the root node never change and the root stays live.
pub proof fn lemma_root_is_never_removed(history: Seq<Layout>)
    requires
        history.len() > 0,
        history[0].widgets().live(history[0].root()),
        root_kept_in_turn(history),
    ensures
        forall|k: int|
            0 <= k < history.len() ==> (#[trigger] history[k]).root() == history[0].root()
                && history[k].root_node_id() == history[0].root_node_id()
                && history[k].widgets().live(history[0].root()),
    decreases history.len(),
{
    if history.len() > 1 {
        let shorter = history.drop_last();
        assert forall|k: int| 0 <= k < shorter.len() - 1 implies (#[trigger] shorter[k]).keeps_root(
            shorter[k + 1],
        ) by {
            assert(shorter[k] == history[k]);
            assert(shorter[k + 1] == history[k + 1]);
        }
        lemma_root_is_never_removed(shorter);
        let before = history[history.len() - 2];
        assert(before == shorter[shorter.len() - 1]);
        assert(before.keeps_root(history[history.len() - 1]));
        assert forall|k: int| 0 <= k < history.len() implies (#[trigger] history[k]).root()
            == history[0].root() && history[k].root_node_id() == history[0].root_node_id()
            && history[k].widgets().live(history[0].root()) by {
            if k < shorter.len() {
                assert(history[k] == shorter[k]);
            }
        }
    }
}

/// Whether each tree of `history` is kept by the next.
pub open spec fn kept_in_turn(history: Seq<Layout>) -> bool {
    forall|k: int| 0 <= k < history.len() - 1 ==> (#[trigger] history[k]).kept_by(history[k + 1])
}

/// Through any history of a well-formed tree in which each state is kept by
/// the next, as every operation but a removal keeps it, the root widget and
/// the root node never change, the root stays live, and every handle that
/// was live at the start is live at the end, with the same layout node.
pub proof fn lemma_handles_survive(history: Seq<Layout>)
    requires
        history.len() > 0,
        history[0].wf(),
        kept_in_turn(history),
    ensures
        history[0].kept_by(history.last()),
        forall|k: int|
            0 <= k < history.len() ==> (#[trigger] history[k]).root() == history[0].root()
                && history[k].root_node_id() == history[0].root_node_id()
                && history[k].widgets().live(history[0].root()),
    decreases history.len(),
{
    history[0].lemma_kept_by_itself();
    if history.len() > 1 {
        let shorter = history.drop_last();
        assert forall|k: int| 0 <= k < shorter.len() - 1 implies (#[trigger] shorter[k]).kept_by(
            shorter[k + 1],
        ) by {
            assert(shorter[k] == history[k]);
            assert(shorter[k + 1] == history[k + 1]);
        }
        lemma_handles_survive(shorter);
        let before = history[history.len() - 2];
        assert(before == shorter.last());
        assert(before.kept_by(history.last()));
        assert forall|k: int| 0 <= k < history.len() implies (#[trigger] history[k]).root()
            == history[0].root() && history[k].root_node_id() == history[0].root_node_id()
            && history[k].widgets().live(history[0].root()) by {
            if k < shorter.len() {
                assert(history[k] == shorter[k]);
            }
        }
    }
}

} // verus!
