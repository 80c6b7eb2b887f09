//! The flex layout engine: the node tree it keeps, named by what the rest of
//! the library reads from it, and the calls into it.
//!
//! Nothing here is proved. Each function below states what the engine's
//! source shows of the call it makes; the rest of the library is verified
//! against these statements.

use taffy::TraversePartialTree;
use vstd::prelude::*;

verus! {

/// The engine's node tree.
#[verifier::external_type_specification]
#[verifier::external_body]
#[verifier::reject_recursive_types(NodeContext)]
pub struct ExTaffyTree<NodeContext>(taffy::TaffyTree<NodeContext>);

/// A node's style, as the engine takes it.
#[verifier::external_type_specification]
#[verifier::external_body]
pub struct ExStyle(taffy::Style);

/// The error of an engine call.
#[verifier::external_type_specification]
#[verifier::external_body]
pub struct ExTaffyError(taffy::TaffyError);

/// The tree as this library holds it: a node's context is the index and the
/// generation of its widget's handle.
pub type Tree = taffy::TaffyTree<(u32, u64)>;

/// What the engine computed for one node, in whole pixels: the rectangle
/// relative to the parent, the size of the content, how far the content
/// overflows, and the size of the content box.
#[derive(Clone, Copy, PartialEq, Eq, Structural, Debug)]
pub struct NodeLayout {
    pub x: i32,
    pub y: i32,
    pub width: i32,
    pub height: i32,
    pub content_width: i32,
    pub content_height: i32,
    pub scroll_width: i32,
    pub scroll_height: i32,
    pub content_box_width: i32,
    pub content_box_height: i32,
}

/// Whether scrolling is switched on, for the horizontal and for the vertical axis.
#[derive(Clone, Copy, PartialEq, Eq, Structural, Debug)]
pub struct ScrollEnabled {
    pub horiz: bool,
    pub vert: bool,
}

/// What a node does with content that overflows it on one axis.
#[derive(Clone, Copy, PartialEq, Eq, Structural, Debug)]
pub enum Overflow {
    Visible,
    Clip,
    Hidden,
    Scroll,
}

/// What a node does with overflowing content, on the horizontal and on the
/// vertical axis.
#[derive(Clone, Copy, PartialEq, Eq, Structural, Debug)]
pub struct Overflows {
    pub x: Overflow,
    pub y: Overflow,
}

/// How a node lays out its children, or that it is hidden with them.
#[derive(Clone, Copy, PartialEq, Eq, Structural, Debug)]
pub enum DisplayMode {
    Block,
    Flex,
    Grid,
    Hidden,
}

/// The ids of the tree's nodes.
pub uninterp spec fn tree_nodes(tree: Tree) -> Set<u64>;

/// The children of a node, in the engine's order.
pub uninterp spec fn tree_children(tree: Tree, node: u64) -> Seq<u64>;

/// The context that each node carries, for the nodes that carry one.
pub uninterp spec fn tree_contexts(tree: Tree) -> Map<u64, (u32, u64)>;

/// The layout stored for a node.
pub uninterp spec fn tree_layout(tree: Tree, node: u64) -> NodeLayout;

/// Whether a node's layout needs to be computed again.
pub uninterp spec fn tree_dirty(tree: Tree, node: u64) -> bool;

/// The style stored for a node.
pub uninterp spec fn tree_style(tree: Tree, node: u64) -> taffy::Style;

/// What a style does with overflowing content.
pub uninterp spec fn style_overflow(style: taffy::Style) -> Overflows;

/// How a style lays out the children.
pub uninterp spec fn style_display(style: taffy::Style) -> DisplayMode;

/// The axes that scroll: those whose overflow is `Scroll`.
pub open spec fn scroll_enabled(overflow: Overflows) -> ScrollEnabled {
    ScrollEnabled { horiz: overflow.x == Overflow::Scroll, vert: overflow.y == Overflow::Scroll }
}

/// On which axes a style asks for scrolling.
pub open spec fn style_scroll(style: taffy::Style) -> ScrollEnabled {
    scroll_enabled(style_overflow(style))
}

/// The overflow of a style that says nothing of it: visible on both axes.
pub open spec fn plain_overflow() -> Overflows {
    Overflows { x: Overflow::Visible, y: Overflow::Visible }
}

/// Whether the library hands a style of this display mode to the engine:
/// it asks the engine for flexbox layout and for hidden nodes only.
pub open spec fn admitted(display: DisplayMode) -> bool {
    display == DisplayMode::Flex || display == DisplayMode::Hidden
}

/// Every node of the tree is laid out as a flexbox or is hidden.
pub open spec fn tree_flex(tree: Tree) -> bool {
    forall|node: u64| #[trigger]
        tree_nodes(tree).contains(node) ==> admitted(style_display(tree_style(tree, node)))
}

/// On which axes the style of a node asks for scrolling.
pub open spec fn tree_scroll(tree: Tree, node: u64) -> ScrollEnabled {
    style_scroll(tree_style(tree, node))
}

/// The style that [`percent_style`] makes.
pub uninterp spec fn style_of_percent(fraction: u8) -> taffy::Style;

/// The style that [`box_style`] makes.
pub uninterp spec fn style_of_box(
    width: Option<i32>,
    height: Option<i32>,
    padding: u8,
    center_items: bool,
    center_content: bool,
) -> taffy::Style;

/// No axis scrolls.
pub open spec fn no_scroll() -> ScrollEnabled {
    ScrollEnabled { horiz: false, vert: false }
}

/// The map in which no node carries a context.
pub open spec fn no_contexts() -> Map<u64, (u32, u64)> {
    Map::empty()
}

/// Most nodes a tree can take one more node at.
pub const TREE_NODES_MAX: usize = 0xffff_fffd;

/// Every child of a node is a node, and `rank` rises from each node to its
/// children.
pub open spec fn tree_ranked(tree: Tree, rank: spec_fn(u64) -> nat) -> bool {
    forall|node: u64, i: int|
        tree_nodes(tree).contains(node) && 0 <= i < tree_children(tree, node).len() ==> {
            let child = #[trigger] tree_children(tree, node)[i];
            tree_nodes(tree).contains(child) && rank(node) < rank(child)
        }
}

/// Every child of a node is a node.
pub open spec fn tree_closed(tree: Tree) -> bool {
    forall|node: u64, i: int|
        tree_nodes(tree).contains(node) && 0 <= i < tree_children(tree, node).len()
            ==> tree_nodes(tree).contains(#[trigger] tree_children(tree, node)[i])
}

/// A sound tree is closed.
pub proof fn lemma_sound_closed(tree: Tree)
    requires
        tree_sound(tree),
    ensures
        tree_closed(tree),
{
    let rank = choose|rank: spec_fn(u64) -> nat| tree_ranked(tree, rank);
    assert(tree_ranked(tree, rank));
}

/// The child relation stays inside the tree and has no cycle.
pub open spec fn tree_sound(tree: Tree) -> bool {
    exists|rank: spec_fn(u64) -> nat| tree_ranked(tree, rank)
}

/// The two trees agree on everything but the stored layouts and on which
/// nodes are dirty.
pub open spec fn same_structure(a: Tree, b: Tree) -> bool {
    &&& tree_nodes(a) == tree_nodes(b)
    &&& tree_contexts(a) == tree_contexts(b)
    &&& forall|node: u64| #[trigger] tree_children(a, node) == tree_children(b, node)
    &&& forall|node: u64| #[trigger] tree_style(a, node) == tree_style(b, node)
}

/// The tree after the engine has solved the layout below `node` for an
/// available space of `width` by `height` pixels.
pub uninterp spec fn tree_solved(tree: Tree, node: u64, width: i32, height: i32) -> Tree;

/// `TaffyTree::new`: a tree without nodes.
#[verifier::external_body]
pub(crate) fn tree_new() -> (tree: Tree)
    ensures
        tree_nodes(tree) == Set::<u64>::empty(),
        tree_contexts(tree) == no_contexts(),
{
    taffy::TaffyTree::new()
}

/// `Style::default` with `Size::percent` as its size: a style that asks for
/// `fraction` of the parent on both axes and for nothing else. Its overflow
/// is visible and its display is flexbox, as in every default style.
#[verifier::external_body]
pub(crate) fn percent_style(fraction: u8) -> (style: taffy::Style)
    ensures
        style == style_of_percent(fraction),
        style_overflow(style) == plain_overflow(),
        style_display(style) == DisplayMode::Flex,
{
    taffy::Style { size: taffy::Size::percent(fraction), ..Default::default() }
}

/// `Style::default` with what the arguments ask for: a width and a height
/// in pixels, or automatic ones; a padding of `padding` pixels on every
/// side; the items centered on the cross axis; the content centered on the
/// main axis. Without size, padding and centering it is the default style.
/// Its overflow is visible and its display is flexbox, as in every default
/// style.
#[verifier::external_body]
pub(crate) fn box_style(
    width: Option<i32>,
    height: Option<i32>,
    padding: u8,
    center_items: bool,
    center_content: bool,
) -> (style: taffy::Style)
    ensures
        style == style_of_box(width, height, padding, center_items, center_content),
        style_overflow(style) == plain_overflow(),
        style_display(style) == DisplayMode::Flex,
{
    taffy::Style {
        size: taffy::Size {
            width: width.map_or(taffy::Dimension::Auto, |w| taffy::Dimension::Length(w as _)),
            height: height.map_or(taffy::Dimension::Auto, |h| taffy::Dimension::Length(h as _)),
        },
        align_items: center_items.then_some(taffy::AlignItems::Center),
        justify_content: center_content.then_some(taffy::JustifyContent::Center),
        padding: taffy::Rect::length(padding),
        ..Default::default()
    }
}

/// Reads `Style::overflow`, variant by variant.
#[verifier::external_body]
pub(crate) fn style_overflows(style: &taffy::Style) -> (overflow: Overflows)
    ensures
        overflow == style_overflow(*style),
{
    Overflows {
        x: match style.overflow.x {
            taffy::Overflow::Visible => Overflow::Visible,
            taffy::Overflow::Clip => Overflow::Clip,
            taffy::Overflow::Hidden => Overflow::Hidden,
            taffy::Overflow::Scroll => Overflow::Scroll,
        },
        y: match style.overflow.y {
            taffy::Overflow::Visible => Overflow::Visible,
            taffy::Overflow::Clip => Overflow::Clip,
            taffy::Overflow::Hidden => Overflow::Hidden,
            taffy::Overflow::Scroll => Overflow::Scroll,
        },
    }
}

/// Reads `Style::display`, variant by variant.
#[verifier::external_body]
pub(crate) fn style_display_mode(style: &taffy::Style) -> (display: DisplayMode)
    ensures
        display == style_display(*style),
{
    match style.display {
        taffy::Display::Block => DisplayMode::Block,
        taffy::Display::Flex => DisplayMode::Flex,
        taffy::Display::Grid => DisplayMode::Grid,
        taffy::Display::None => DisplayMode::Hidden,
    }
}

/// `TaffyTree::new_leaf`: adds a node without children or parent and returns
/// its id, which no node of the tree had. The new node has no layout yet, so
/// it is dirty. The call always succeeds. The engine's storage takes at most
/// `u32::MAX - 2` nodes.
#[verifier::external_body]
pub(crate) fn tree_new_leaf(tree: &mut Tree, style: taffy::Style) -> (made: Result<
    u64,
    taffy::TaffyError,
>)
    requires
        tree_nodes(*old(tree)).finite(),
        tree_nodes(*old(tree)).len() <= TREE_NODES_MAX,
    ensures
        made is Ok,
        made is Ok ==> !tree_nodes(*old(tree)).contains(made->Ok_0),
        made is Ok ==> tree_nodes(*final(tree)) == tree_nodes(*old(tree)).insert(made->Ok_0),
        made is Ok ==> tree_children(*final(tree), made->Ok_0) == Seq::<u64>::empty(),
        made is Ok ==> tree_style(*final(tree), made->Ok_0) == style,
        made is Ok ==> tree_dirty(*final(tree), made->Ok_0),
        tree_contexts(*final(tree)) == tree_contexts(*old(tree)),
        forall|node: u64|
            tree_nodes(*old(tree)).contains(node) ==> #[trigger] tree_children(*final(tree), node)
                == tree_children(*old(tree), node),
        forall|node: u64|
            tree_nodes(*old(tree)).contains(node) ==> #[trigger] tree_style(*final(tree), node)
                == tree_style(*old(tree), node),
        forall|node: u64|
            tree_nodes(*old(tree)).contains(node) ==> #[trigger] tree_layout(*final(tree), node)
                == tree_layout(*old(tree), node),
        forall|node: u64|
            tree_nodes(*old(tree)).contains(node) ==> #[trigger] tree_dirty(*final(tree), node)
                == tree_dirty(*old(tree), node),
{
    tree.new_leaf(style).map(u64::from)
}

/// `TaffyTree::add_child`: appends `child` to the children of `parent`, and
/// marks `parent` and the nodes above it dirty. The engine indexes its
/// storage by both ids, so both must be in the tree. It climbs from `parent`
/// to the nodes above it, so the tree must have no cycle and must get none:
/// `child` is another node than `parent` and has no children. The call
/// always succeeds; stored layouts stay as they are, and no node gets clean.
#[verifier::external_body]
pub(crate) fn tree_add_child(tree: &mut Tree, parent: u64, child: u64) -> (done: Result<
    (),
    taffy::TaffyError,
>)
    requires
        tree_nodes(*old(tree)).contains(parent),
        tree_nodes(*old(tree)).contains(child),
        tree_sound(*old(tree)),
        parent != child,
        tree_children(*old(tree), child).len() == 0,
    ensures
        done is Ok,
        tree_nodes(*final(tree)) == tree_nodes(*old(tree)),
        tree_contexts(*final(tree)) == tree_contexts(*old(tree)),
        tree_children(*final(tree), parent) == tree_children(*old(tree), parent).push(child),
        tree_dirty(*final(tree), parent),
        forall|node: u64|
            tree_dirty(*old(tree), node) ==> #[trigger] tree_dirty(*final(tree), node),
        forall|node: u64|
            node != parent ==> #[trigger] tree_children(*final(tree), node) == tree_children(
                *old(tree),
                node,
            ),
        forall|node: u64| #[trigger] tree_style(*final(tree), node) == tree_style(*old(tree), node),
        forall|node: u64| #[trigger] tree_layout(*final(tree), node) == tree_layout(*old(tree), node),
{
    tree.add_child(taffy::NodeId::from(parent), taffy::NodeId::from(child))
}

/// `TaffyTree::set_node_context` with `Some`: `node` carries `context` from
/// now on, and `node` and the nodes above it are marked dirty. The node must
/// be in the tree, and the tree must have no cycle, as the engine climbs
/// from `node` to the nodes above it. The call always succeeds; no node gets
/// clean.
#[verifier::external_body]
pub(crate) fn tree_set_node_context(tree: &mut Tree, node: u64, context: (u32, u64)) -> (done:
    Result<(), taffy::TaffyError>)
    requires
        tree_nodes(*old(tree)).contains(node),
        tree_sound(*old(tree)),
    ensures
        done is Ok,
        tree_nodes(*final(tree)) == tree_nodes(*old(tree)),
        tree_contexts(*final(tree)) == tree_contexts(*old(tree)).insert(node, context),
        tree_dirty(*final(tree), node),
        forall|other: u64|
            tree_dirty(*old(tree), other) ==> #[trigger] tree_dirty(*final(tree), other),
        forall|other: u64| #[trigger]
            tree_children(*final(tree), other) == tree_children(*old(tree), other),
        forall|other: u64| #[trigger] tree_style(*final(tree), other) == tree_style(*old(tree), other),
        forall|other: u64| #[trigger] tree_layout(*final(tree), other) == tree_layout(*old(tree), other),
{
    tree.set_node_context(taffy::NodeId::from(node), Some(context))
}

/// `TaffyTree::get_node_context`: the context that `node` carries, if any.
/// The node must be in the tree: another number may stand for the same
/// place in the engine's storage as a node of the tree.
#[verifier::external_body]
pub(crate) fn tree_get_node_context(tree: &Tree, node: u64) -> (context: Option<(u32, u64)>)
    requires
        tree_nodes(*tree).contains(node),
    ensures
        context == if tree_contexts(*tree).contains_key(node) {
            Some(tree_contexts(*tree)[node])
        } else {
            None
        },
{
    tree.get_node_context(taffy::NodeId::from(node)).copied()
}

/// `TaffyTree::child_ids`: the children of `node`, in the engine's order.
/// The node must be in the tree.
#[verifier::external_body]
pub(crate) fn tree_child_ids(tree: &Tree, node: u64) -> (ids: Vec<u64>)
    requires
        tree_nodes(*tree).contains(node),
    ensures
        ids@ == tree_children(*tree, node),
{
    tree.child_ids(taffy::NodeId::from(node)).map(u64::from).collect()
}

/// `TaffyTree::style`: the style stored for `node`. The node must be in the
/// tree. The call always succeeds.
#[verifier::external_body]
pub(crate) fn tree_node_style(tree: &Tree, node: u64) -> (found: Result<
    &taffy::Style,
    taffy::TaffyError,
>)
    requires
        tree_nodes(*tree).contains(node),
    ensures
        found is Ok,
        found is Ok ==> *found->Ok_0 == tree_style(*tree, node),
{
    tree.style(taffy::NodeId::from(node))
}

/// `TaffyTree::layout`, with `Layout::scroll_width`, `scroll_height`,
/// `content_box_width` and `content_box_height` of what it returns, each
/// number cut to a whole pixel. The node must be in the tree. The call always
/// succeeds.
#[verifier::external_body]
pub(crate) fn tree_node_layout(tree: &Tree, node: u64) -> (found: Result<
    NodeLayout,
    taffy::TaffyError,
>)
    requires
        tree_nodes(*tree).contains(node),
    ensures
        found is Ok,
        found is Ok ==> found->Ok_0 == tree_layout(*tree, node),
{
    tree.layout(taffy::NodeId::from(node)).map(|l| NodeLayout {
        x: l.location.x as i32,
        y: l.location.y as i32,
        width: l.size.width as i32,
        height: l.size.height as i32,
        content_width: l.content_size.width as i32,
        content_height: l.content_size.height as i32,
        scroll_width: l.scroll_width() as i32,
        scroll_height: l.scroll_height() as i32,
        content_box_width: l.content_box_width() as i32,
        content_box_height: l.content_box_height() as i32,
    })
}

/// `TaffyTree::dirty`: whether the layout of `node` is out of date. The node
/// must be in the tree. The call always succeeds.
#[verifier::external_body]
pub(crate) fn tree_is_dirty(tree: &Tree, node: u64) -> (dirty: Result<bool, taffy::TaffyError>)
    requires
        tree_nodes(*tree).contains(node),
    ensures
        dirty is Ok,
        dirty is Ok ==> dirty->Ok_0 == tree_dirty(*tree, node),
{
    tree.dirty(taffy::NodeId::from(node))
}

/// `TaffyTree::compute_layout` with a definite available space of `width` by
/// `height` pixels: solves the layout below `node` and stores the results.
/// The solver walks the children of every node it reaches, so the tree must
/// be sound. It is asked for flexbox layout and for hidden nodes only, which
/// keeps it to the part of the engine that holds no assertion; the numbers
/// of the styles go to it as the callers gave them. The call always
/// succeeds; it keeps the tree's structure and leaves `node` clean.
#[verifier::external_body]
pub(crate) fn tree_compute_layout(tree: &mut Tree, node: u64, width: i32, height: i32) -> (done:
    Result<(), taffy::TaffyError>)
    requires
        tree_nodes(*old(tree)).contains(node),
        tree_sound(*old(tree)),
        tree_flex(*old(tree)),
    ensures
        done is Ok,
        *final(tree) == tree_solved(*old(tree), node, width, height),
        same_structure(*final(tree), *old(tree)),
        !tree_dirty(*final(tree), node),
{
    tree.compute_layout(
        taffy::NodeId::from(node),
        taffy::Size {
            width: taffy::AvailableSpace::Definite(width as _),
            height: taffy::AvailableSpace::Definite(height as _),
        },
    )
}

} // verus!
