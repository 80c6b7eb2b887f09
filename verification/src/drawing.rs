//! Draw primitives, and the traversal that emits them.

use crate::engine::{
    style_overflows, tree_child_ids, tree_children, tree_closed,
    tree_contexts, tree_get_node_context, tree_layout, tree_node_layout, tree_node_style,
    tree_nodes, tree_scroll, NodeLayout, Tree,
};
use crate::handle::{ArenaModel, Handle};
use crate::layout::{context_handle, nodes_have_widgets, outcome_of, Layout, LayoutError};
use crate::renderers::text::RenderableText;
use crate::transform_stack::{
    root_frame, Transform, TransformStack, Vec2, TRANSFORM_STACK_MAX,
};
use crate::widget::{
    get_scroll_enabled, get_scrollbar_info, scroll_shift, scrollbar_info, scrollbars, DrawParams, DrawState,
    WidgetObj, WidgetState,
};
use vstd::prelude::*;

verus! {

/// Handle of an image's pixel data.
#[derive(Clone, Copy, PartialEq, Eq, Structural, Debug)]
pub struct ImageHandle {}

/// The absolute rectangle a primitive is drawn in.
#[derive(Clone, Copy, PartialEq, Eq, Structural, Debug)]
pub struct Boundary {
    pub x: i64,
    pub y: i64,
    pub w: i64,
    pub h: i64,
}

impl Default for Boundary {
    fn default() -> (b: Self)
        ensures
            b == (Boundary { x: 0, y: 0, w: 0, h: 0 }),
    {
        Boundary { x: 0, y: 0, w: 0, h: 0 }
    }
}

impl Boundary {
    /// The boundary that covers `transform`.
    pub open spec fn of(transform: Transform) -> Boundary {
        Boundary {
            x: transform.pos.x,
            y: transform.pos.y,
            w: transform.dim.x,
            h: transform.dim.y,
        }
    }

    pub fn from_pos_size(pos: &Vec2, size: &Vec2) -> (b: Self)
        ensures
            b == (Boundary { x: pos.x, y: pos.y, w: size.x, h: size.y }),
    {
        Boundary { x: pos.x, y: pos.y, w: size.x, h: size.y }
    }

    /// The boundary that covers the current transform.
    pub fn construct(transform_stack: &TransformStack) -> (b: Self)
        requires
            transform_stack.wf(),
        ensures
            b == Boundary::of(transform_stack@.last()),
    {
        let transform = transform_stack.get();
        Boundary {
            x: transform.pos.x,
            y: transform.pos.y,
            w: transform.dim.x,
            h: transform.dim.y,
        }
    }
}

/// A color of four channels, each from 0 to 255.
#[derive(Clone, Copy, PartialEq, Eq, Structural, Debug)]
pub struct Color {
    pub r: u8,
    pub g: u8,
    pub b: u8,
    pub a: u8,
}

impl Color {
    pub fn new(r: u8, g: u8, b: u8, a: u8) -> (c: Self)
        ensures
            c == (Color { r, g, b, a }),
    {
        Color { r, g, b, a }
    }
}

impl Default for Color {
    /// Opaque black.
    fn default() -> (c: Self)
        ensures
            c == (Color { r: 0, g: 0, b: 0, a: 255 }),
    {
        Color::new(0, 0, 0, 255)
    }
}

#[derive(Clone, Copy, PartialEq, Eq, Structural, Debug)]
pub enum GradientMode {
    Solid,
    Horizontal,
    Vertical,
    Radial,
}

impl Default for GradientMode {
    fn default() -> (mode: Self)
        ensures
            mode == GradientMode::Solid,
    {
        GradientMode::Solid
    }
}

/// How a rectangle is filled and framed. `border` is a width in pixels,
/// `round` a fraction in [`crate::units::UNIT`].
#[derive(Clone, Copy, PartialEq, Eq, Structural, Debug)]
pub struct Rectangle {
    pub color: Color,
    pub color2: Color,
    pub gradient: GradientMode,
    pub border: i64,
    pub border_color: Color,
    pub round: i64,
}

impl Rectangle {
    /// Opaque black, without gradient, border or rounding.
    pub open spec fn plain() -> Rectangle {
        Rectangle {
            color: Color { r: 0, g: 0, b: 0, a: 255 },
            color2: Color { r: 0, g: 0, b: 0, a: 255 },
            gradient: GradientMode::Solid,
            border: 0,
            border_color: Color { r: 0, g: 0, b: 0, a: 255 },
            round: 0,
        }
    }
}

impl Default for Rectangle {
    fn default() -> (rect: Self)
        ensures
            rect == Rectangle::plain(),
    {
        Rectangle {
            color: Color::new(0, 0, 0, 255),
            color2: Color::new(0, 0, 0, 255),
            gradient: GradientMode::Solid,
            border: 0,
            border_color: Color::new(0, 0, 0, 255),
            round: 0,
        }
    }
}

#[derive(Clone, Copy, PartialEq, Eq, Structural, Debug)]
pub struct Image {
    pub handle: ImageHandle,
}

/// One thing for the backend to draw, with the absolute rectangle to draw
/// it in.
#[derive(Debug)]
pub enum RenderPrimitive {
    Rectangle(Boundary, Rectangle),
    Text(Boundary, RenderableText),
    Image(Boundary, Image),
}


/// What a draw traversal yields: the primitives, in drawing order, and the
/// error that stopped it, if one did.
pub struct Drawn {
    pub primitives: Seq<RenderPrimitive>,
    pub error: Option<LayoutError>,
}

/// How far a widget's content is shifted by its scroll offsets.
pub open spec fn content_shift(state: WidgetState, l: NodeLayout) -> Vec2 {
    match scrollbar_info(l) {
        Some(info) => scroll_shift(state.scrolling, info, l),
        None => Vec2 { x: 0, y: 0 },
    }
}

/// A widget's transform relative to its parent at draw time: its layout
/// rectangle, moved back by the scroll shift.
pub open spec fn draw_transform(state: WidgetState, l: NodeLayout) -> Transform {
    Transform {
        pos: Vec2 {
            x: (l.x - content_shift(state, l).x) as i64,
            y: (l.y - content_shift(state, l).y) as i64,
        },
        dim: Vec2 { x: l.width as i64, y: l.height as i64 },
    }
}

/// The scrollbar handles of a widget at the absolute transform `transform`.
pub open spec fn node_scrollbars(
    tree: Tree,
    node: u64,
    state: WidgetState,
    transform: Transform,
) -> Seq<RenderPrimitive> {
    match scrollbar_info(tree_layout(tree, node)) {
        Some(info) => scrollbars(transform, tree_scroll(tree, node), info, state.scrolling),
        None => Seq::empty(),
    }
}

/// What drawing `node` emits, below a parent at the absolute transform
/// `parent`: the widget's own primitives, then those of its children in the
/// engine's order, then its scrollbar handles. `room` is the number of
/// transforms that the stack still takes.
///
/// The traversal stops at the first node that carries no handle, whose
/// handle finds no widget, or that lies deeper than the stack reaches.
pub open spec fn drawn_node(
    tree: Tree,
    widgets: ArenaModel<WidgetState>,
    parent: Transform,
    node: u64,
    room: nat,
) -> Drawn
    decreases room, 0nat,
{
    if !tree_contexts(tree).contains_key(node) {
        Drawn { primitives: Seq::empty(), error: Some(LayoutError::InvalidNode) }
    } else {
        let id = context_handle(tree_contexts(tree)[node]);
        match widgets.get(id) {
            None => Drawn { primitives: Seq::empty(), error: Some(LayoutError::InvalidWidget) },
            Some(state) => if room == 0 {
                Drawn { primitives: Seq::empty(), error: Some(LayoutError::TooDeep) }
            } else {
                let transform = draw_transform(state, tree_layout(tree, node)).under(parent);
                let own = state.obj.primitives(Boundary::of(transform));
                let below = drawn_children(
                    tree,
                    widgets,
                    transform,
                    tree_children(tree, node),
                    (room - 1) as nat,
                );
                if below.error is Some {
                    Drawn { primitives: own + below.primitives, error: below.error }
                } else {
                    Drawn {
                        primitives: own + below.primitives + node_scrollbars(
                            tree,
                            node,
                            state,
                            transform,
                        ),
                        error: None,
                    }
                }
            },
        }
    }
}

/// What drawing each of `children` in turn emits, up to the first that
/// fails: a later sibling draws over an earlier one.
pub open spec fn drawn_children(
    tree: Tree,
    widgets: ArenaModel<WidgetState>,
    parent: Transform,
    children: Seq<u64>,
    room: nat,
) -> Drawn
    decreases room, children.len() + 1,
{
    if children.len() == 0 {
        Drawn { primitives: Seq::empty(), error: None }
    } else {
        let first = drawn_node(tree, widgets, parent, children[0], room);
        if first.error is Some {
            first
        } else {
            let rest = drawn_children(tree, widgets, parent, children.drop_first(), room);
            Drawn { primitives: first.primitives + rest.primitives, error: rest.error }
        }
    }
}

/// The children are drawn in their order: what a further child emits comes
/// after all that the children before it emit.
pub proof fn lemma_drawn_children_push(
    tree: Tree,
    widgets: ArenaModel<WidgetState>,
    parent: Transform,
    children: Seq<u64>,
    child: u64,
    room: nat,
)
    ensures
        ({
            let before = drawn_children(tree, widgets, parent, children, room);
            let last = drawn_node(tree, widgets, parent, child, room);
            let all = drawn_children(tree, widgets, parent, children.push(child), room);
            if before.error is Some {
                all == before
            } else {
                all.primitives == before.primitives + last.primitives && all.error == last.error
            }
        }),
    decreases children.len(),
{
    let longer = children.push(child);
    if children.len() == 0 {
        assert(longer.drop_first() =~= Seq::<u64>::empty());
        let last = drawn_node(tree, widgets, parent, child, room);
        assert(longer[0] == child);
        assert(drawn_children(tree, widgets, parent, longer.drop_first(), room).primitives
            =~= Seq::<RenderPrimitive>::empty());
        assert(last.primitives + Seq::<RenderPrimitive>::empty() =~= last.primitives);
        assert(Seq::<RenderPrimitive>::empty() + last.primitives =~= last.primitives);
    } else {
        assert(longer[0] == children[0]);
        assert(longer.drop_first() =~= children.drop_first().push(child));
        lemma_drawn_children_push(tree, widgets, parent, children.drop_first(), child, room);
        let first = drawn_node(tree, widgets, parent, children[0], room);
        if first.error is None {
            let rest = drawn_children(tree, widgets, parent, children.drop_first(), room);
            let last = drawn_node(tree, widgets, parent, child, room);
            if rest.error is None {
                assert(first.primitives + (rest.primitives + last.primitives) =~= (
                first.primitives + rest.primitives) + last.primitives);
            }
        }
    }
}

/// In a tree whose nodes all carry the handle of a live widget, a draw
/// fails only where the tree is nested deeper than the stack reaches.
pub proof fn lemma_drawn_error(
    tree: Tree,
    widgets: ArenaModel<WidgetState>,
    parent: Transform,
    node: u64,
    room: nat,
)
    requires
        tree_closed(tree),
        nodes_have_widgets(tree, widgets),
        tree_nodes(tree).contains(node),
    ensures
        drawn_node(tree, widgets, parent, node, room).error is Some ==> drawn_node(
            tree,
            widgets,
            parent,
            node,
            room,
        ).error == Some(LayoutError::TooDeep),
    decreases room, 0nat,
{
    let id = context_handle(tree_contexts(tree)[node]);
    if room > 0 {
        let state = widgets.get(id)->0;
        let transform = draw_transform(state, tree_layout(tree, node)).under(parent);
        lemma_drawn_children_error(
            tree,
            widgets,
            transform,
            tree_children(tree, node),
            (room - 1) as nat,
        );
    }
}

pub proof fn lemma_drawn_children_error(
    tree: Tree,
    widgets: ArenaModel<WidgetState>,
    parent: Transform,
    children: Seq<u64>,
    room: nat,
)
    requires
        tree_closed(tree),
        nodes_have_widgets(tree, widgets),
        forall|i: int| 0 <= i < children.len() ==> tree_nodes(tree).contains(#[trigger] children[i]),
    ensures
        drawn_children(tree, widgets, parent, children, room).error is Some ==> drawn_children(
            tree,
            widgets,
            parent,
            children,
            room,
        ).error == Some(LayoutError::TooDeep),
    decreases room, children.len() + 1,
{
    if children.len() > 0 {
        assert(tree_nodes(tree).contains(children[0]));
        lemma_drawn_error(tree, widgets, parent, children[0], room);
        let rest = children.drop_first();
        assert forall|i: int| 0 <= i < rest.len() implies tree_nodes(tree).contains(
            #[trigger] rest[i],
        ) by {
            assert(rest[i] == children[i + 1]);
        }
        lemma_drawn_children_error(tree, widgets, parent, rest, room);
    }
}

fn draw_widget(layout: &Layout, state: &mut DrawState, node_id: u64) -> (done: Result<
    (),
    LayoutError,
>)
    requires
        layout.traversable(),
        tree_nodes(layout.tree()).contains(node_id),
        old(state).transform_stack.wf(),
    ensures
        final(state).transform_stack.wf(),
        ({
            let d = drawn_node(
                layout.tree(),
                layout.widgets(),
                old(state).transform_stack@.last(),
                node_id,
                (TRANSFORM_STACK_MAX - old(state).transform_stack@.len()) as nat,
            );
            &&& final(state).primitives@ == old(state).primitives@ + d.primitives
            &&& done == outcome_of(d.error)
            &&& done is Ok ==> final(state).transform_stack@ == old(state).transform_stack@
        }),
    decreases TRANSFORM_STACK_MAX - old(state).transform_stack@.len(), 0nat,
{
    let tree = layout.tree_ref();
    let widgets = layout.widget_states();
    let ghost start = state.primitives@;
    proof {
        assert(start =~= start + Seq::<RenderPrimitive>::empty());
    }
    let context = match tree_get_node_context(tree, node_id) {
        Some(context) => context,
        None => {
            return Err(LayoutError::InvalidNode);
        },
    };
    let widget_id = Handle { idx: context.0, generation: context.1 };
    let widget_state = match widgets.get(&widget_id) {
        Some(widget_state) => widget_state,
        None => {
            return Err(LayoutError::InvalidWidget);
        },
    };
    if !state.transform_stack.has_room() {
        return Err(LayoutError::TooDeep);
    }
    let l = match tree_node_layout(tree, node_id) {
        Ok(l) => l,
        Err(_) => {
            return Err(LayoutError::LayoutEngineFailure);
        },
    };
    let scroll = match tree_node_style(tree, node_id) {
        Ok(style) => get_scroll_enabled(&style_overflows(style)),
        Err(_) => {
            return Err(LayoutError::LayoutEngineFailure);
        },
    };
    proof {
        layout.lemma_states_wf(widget_id);
    }
    let info = get_scrollbar_info(&l);
    let shift = match &info {
        Some(info) => widget_state.get_scroll_shift(info, &l),
        None => Vec2 { x: 0, y: 0 },
    };
    state.transform_stack.push(
        Transform {
            pos: Vec2 { x: l.x as i64 - shift.x, y: l.y as i64 - shift.y },
            dim: Vec2 { x: l.width as i64, y: l.height as i64 },
        },
    );
    let draw_params = DrawParams { node_id, scroll, layout: l };
    let ghost transform = state.transform_stack@.last();
    let ghost own = widget_state.obj.primitives(Boundary::of(transform));
    widget_state.draw_all(state, &draw_params);
    let ghost pushed = state.transform_stack@;
    let below = draw_children(layout, state, node_id);
    let ghost under = drawn_children(
        layout.tree(),
        layout.widgets(),
        transform,
        tree_children(layout.tree(), node_id),
        (TRANSFORM_STACK_MAX - pushed.len()) as nat,
    );
    proof {
        assert(state.primitives@ =~= start + (own + under.primitives));
    }
    if let Err(e) = below {
        return Err(e);
    }
    if let Some(info) = &info {
        widget_state.draw_scrollbars(state, &draw_params, info);
    }
    proof {
        let bars = node_scrollbars(layout.tree(), node_id, *widget_state, transform);
        assert(state.primitives@ =~= start + (own + under.primitives + bars));
    }
    state.transform_stack.pop();
    proof {
        assert(state.transform_stack@ =~= old(state).transform_stack@);
    }
    Ok(())
}

fn draw_children(layout: &Layout, state: &mut DrawState, parent_node_id: u64) -> (done: Result<
    (),
    LayoutError,
>)
    requires
        layout.traversable(),
        tree_nodes(layout.tree()).contains(parent_node_id),
        old(state).transform_stack.wf(),
    ensures
        final(state).transform_stack.wf(),
        ({
            let d = drawn_children(
                layout.tree(),
                layout.widgets(),
                old(state).transform_stack@.last(),
                tree_children(layout.tree(), parent_node_id),
                (TRANSFORM_STACK_MAX - old(state).transform_stack@.len()) as nat,
            );
            &&& final(state).primitives@ == old(state).primitives@ + d.primitives
            &&& done == outcome_of(d.error)
            &&& done is Ok ==> final(state).transform_stack@ == old(state).transform_stack@
        }),
    decreases TRANSFORM_STACK_MAX - old(state).transform_stack@.len(), 1nat,
{
    let tree = layout.tree_ref();
    let children = tree_child_ids(tree, parent_node_id);
    let ghost kids = children@;
    let ghost start = state.primitives@;
    let ghost frames = state.transform_stack@;
    let ghost room = (TRANSFORM_STACK_MAX - frames.len()) as nat;
    let ghost whole = drawn_children(layout.tree(), layout.widgets(), frames.last(), kids, room);
    let ghost mut acc = Seq::<RenderPrimitive>::empty();
    let mut i: usize = 0;
    proof {
        assert(kids.subrange(0, kids.len() as int) =~= kids);
        assert(state.primitives@ =~= start + acc);
    }
    while i < children.len()
        invariant
            i <= kids.len(),
            children@ == kids,
            kids == tree_children(layout.tree(), parent_node_id),
            layout.traversable(),
            tree_closed(layout.tree()),
            tree_nodes(layout.tree()).contains(parent_node_id),
            state.transform_stack.wf(),
            state.transform_stack@ == frames,
            frames == old(state).transform_stack@,
            start == old(state).primitives@,
            room == TRANSFORM_STACK_MAX - frames.len(),
            state.primitives@ == start + acc,
            whole == drawn_children(layout.tree(), layout.widgets(), frames.last(), kids, room),
            ({
                let rest = drawn_children(
                    layout.tree(),
                    layout.widgets(),
                    frames.last(),
                    kids.subrange(i as int, kids.len() as int),
                    room,
                );
                &&& whole.error == rest.error
                &&& whole.primitives == acc + rest.primitives
            }),
        decreases kids.len() - i,
    {
        let ghost tail = kids.subrange(i as int, kids.len() as int);
        let ghost first = drawn_node(
            layout.tree(),
            layout.widgets(),
            frames.last(),
            kids[i as int],
            room,
        );
        proof {
            assert(tail[0] == kids[i as int]);
            assert(tail.drop_first() =~= kids.subrange(i as int + 1, kids.len() as int));
        }
        let visited = draw_widget(layout, state, children[i]);
        proof {
            assert(state.primitives@ =~= start + (acc + first.primitives));
        }
        if let Err(e) = visited {
            return Err(e);
        }
        proof {
            let rest = drawn_children(
                layout.tree(),
                layout.widgets(),
                frames.last(),
                tail.drop_first(),
                room,
            );
            assert(whole.primitives =~= (acc + first.primitives) + rest.primitives);
            acc = acc + first.primitives;
        }
        i += 1;
    }
    proof {
        assert(kids.subrange(i as int, kids.len() as int) =~= Seq::<u64>::empty());
        assert(whole.primitives =~= acc);
    }
    Ok(())
}

impl Layout {
    /// What [`draw`] yields for this tree: the drawing of the root node,
    /// below the root frame of a new transform stack.
    pub open spec fn drawn(&self) -> Drawn {
        drawn_node(
            self.tree(),
            self.widgets(),
            root_frame(),
            self.root_node_id(),
            (TRANSFORM_STACK_MAX - 1) as nat,
        )
    }
}

/// The primitives of the whole tree, in drawing order: every widget before
/// its children, the children in the engine's order, a widget's scrollbar
/// handles after its children.
///
/// The pass stops with `InvalidNode` at the first node that carries no
/// handle, with `InvalidWidget` at the first whose handle finds no widget,
/// and with `TooDeep` at the first that lies deeper than the transform stack
/// reaches. In a well-formed tree only the last can happen.
pub fn draw(layout: &Layout) -> (made: Result<Vec<RenderPrimitive>, LayoutError>)
    requires
        layout.traversable(),
    ensures
        match made {
            Ok(primitives) => layout.drawn().error is None && primitives@
                == layout.drawn().primitives,
            Err(e) => layout.drawn().error == Some(e),
        },
        layout.wf() && made is Err ==> made->Err_0 == LayoutError::TooDeep,
{
    proof {
        if layout.wf() {
            layout.lemma_nodes_have_widgets();
            lemma_drawn_error(
                layout.tree(),
                layout.widgets(),
                root_frame(),
                layout.root_node_id(),
                (TRANSFORM_STACK_MAX - 1) as nat,
            );
        }
    }
    let mut state = DrawState { primitives: Vec::new(), transform_stack: TransformStack::new() };
    match draw_widget(layout, &mut state, layout.root_node()) {
        Ok(_) => {
            proof {
                assert(state.primitives@ =~= layout.drawn().primitives);
            }
            Ok(state.primitives)
        },
        Err(e) => Err(e),
    }
}

} // verus!
