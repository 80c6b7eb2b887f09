use taffy::prelude::length;
use wgui::drawing::{draw, Boundary, Color, RenderPrimitive};
use wgui::event::{
    CallbackData, Event, EventListener, MouseDownEvent, MouseMotionEvent, MouseUpEvent,
    MouseWheelEvent,
};
use wgui::layout::{Layout, LayoutError};
use wgui::transform_stack::Vec2;
use wgui::units::UNIT;
use wgui::widget::div::Div;
use wgui::widget::rectangle::{Rectangle, RectangleParams};
use wgui::widget::Widget;

fn sized(width: u16, height: u16) -> taffy::Style {
    taffy::Style {
        size: taffy::Size { width: length(width), height: length(height) },
        flex_shrink: 0.0,
        ..Default::default()
    }
}

fn colored(r: u8, g: u8, b: u8) -> RectangleParams {
    RectangleParams { color: Color::new(r, g, b, 255), ..Default::default() }
}

fn motion(x: i64, y: i64) -> Event {
    Event::MouseMotion(MouseMotionEvent { pos: Vec2::new(x, y) })
}

fn fill_colors(primitives: &[RenderPrimitive]) -> Vec<Color> {
    let mut colors = Vec::new();
    for p in primitives {
        if let RenderPrimitive::Rectangle(_, rect) = p {
            colors.push(rect.color);
        }
    }
    colors
}

#[test]
fn new_layout_holds_the_root_only() {
    let layout = Layout::new().unwrap();
    assert_eq!(layout.widget_states().count(), 1);
    let root = layout.root_widget();
    let state = layout.widget_states().get(&root).unwrap();
    assert!(matches!(state.obj, Widget::Div(_)));
    assert!(!state.hovered);
    assert!(!state.pressed);
    assert_eq!(layout.get_node(root), Some(layout.root_node()));
    assert_eq!(layout.tree_ref().total_node_count(), 1);
}

#[test]
fn add_child_returns_a_handle_that_finds_the_rectangle() {
    let mut layout = Layout::new().unwrap();
    let root = layout.root_widget();
    let (id, node) = layout
        .add_child(root, Rectangle::create(colored(10, 20, 30)), sized(100, 50))
        .unwrap();
    let state = layout.widget_states().get(&id).unwrap();
    match &state.obj {
        Widget::Rectangle(rect) => assert_eq!(rect.params.color, Color::new(10, 20, 30, 255)),
        _ => panic!("the child is no rectangle"),
    }
    assert_eq!(layout.get_node(id), Some(node));
    assert_eq!(layout.tree_ref().children(taffy::NodeId::from(layout.root_node())).unwrap(), vec![
        taffy::NodeId::from(node)
    ]);
    assert_eq!(
        layout.tree_ref().get_node_context(taffy::NodeId::from(node)),
        Some(&(id.idx, id.generation))
    );
}

#[test]
fn root_survives_child_churn() {
    let mut layout = Layout::new().unwrap();
    let root = layout.root_widget();
    let mut parent = root;
    for i in 0..20u8 {
        let (id, _) = layout.add_child(parent, Rectangle::create(colored(i, 0, 0)), sized(10, 10)).unwrap();
        if i % 3 == 0 {
            parent = id;
        }
    }
    assert_eq!(layout.widget_states().count(), 21);
    assert_eq!(layout.root_widget(), root);
    assert!(matches!(layout.widget_states().get(&root).unwrap().obj, Widget::Div(_)));
}

#[test]
fn add_child_rejects_an_unknown_parent() {
    let mut layout = Layout::new().unwrap();
    let root = layout.root_widget();
    let stale = wgui::handle::Handle { idx: root.idx, generation: root.generation + 7 };
    let made = layout.add_child(stale, Div::create(), taffy::Style::default());
    assert_eq!(made, Err(LayoutError::InvalidParent));
    let beyond = wgui::handle::Handle { idx: 40, generation: 1 };
    let made = layout.add_child(beyond, Div::create(), taffy::Style::default());
    assert_eq!(made, Err(LayoutError::InvalidParent));
    assert_eq!(layout.widget_states().count(), 1);
    assert_eq!(layout.tree_ref().total_node_count(), 1);
}

#[test]
fn update_solves_once_for_one_size() {
    let mut layout = Layout::new().unwrap();
    let root = layout.root_widget();
    let (_, node) = layout.add_child(root, Rectangle::create(colored(1, 2, 3)), sized(100, 50)).unwrap();
    let root_node = taffy::NodeId::from(layout.root_node());
    assert!(layout.tree_ref().dirty(root_node).unwrap());
    layout.update(Vec2::new(800, 600)).unwrap();
    assert!(!layout.tree_ref().dirty(root_node).unwrap());
    assert_eq!(layout.prev_size(), Vec2::new(800, 600));
    let first = *layout.tree_ref().layout(taffy::NodeId::from(node)).unwrap();
    assert_eq!(first.size.width, 100.0);
    assert_eq!(first.size.height, 50.0);
    layout.update(Vec2::new(800, 600)).unwrap();
    assert!(!layout.tree_ref().dirty(root_node).unwrap());
    let second = *layout.tree_ref().layout(taffy::NodeId::from(node)).unwrap();
    assert_eq!(first, second);
    let root_layout = *layout.tree_ref().layout(root_node).unwrap();
    assert_eq!(root_layout.size.width, 800.0);
    assert_eq!(root_layout.size.height, 600.0);
}

#[test]
fn draw_follows_the_child_order_at_every_level() {
    let mut layout = Layout::new().unwrap();
    let root = layout.root_widget();
    let (a, _) = layout.add_child(root, Rectangle::create(colored(255, 0, 0)), sized(100, 50)).unwrap();
    let (_, _) = layout.add_child(root, Rectangle::create(colored(255, 255, 0)), sized(100, 50)).unwrap();
    let (_, _) = layout.add_child(a, Rectangle::create(colored(0, 255, 0)), sized(10, 10)).unwrap();
    let (_, _) = layout.add_child(a, Rectangle::create(colored(0, 0, 255)), sized(20, 10)).unwrap();
    layout.update(Vec2::new(800, 600)).unwrap();
    let primitives = draw(&layout).unwrap();
    assert_eq!(fill_colors(&primitives), vec![
        Color::new(255, 0, 0, 255),
        Color::new(0, 255, 0, 255),
        Color::new(0, 0, 255, 255),
        Color::new(255, 255, 0, 255),
    ]);
    let again = draw(&layout).unwrap();
    assert_eq!(fill_colors(&again), fill_colors(&primitives));
    match &primitives[0] {
        RenderPrimitive::Rectangle(b, _) => assert_eq!(*b, Boundary { x: 0, y: 0, w: 100, h: 50 }),
        _ => panic!("no rectangle"),
    }
    match &primitives[2] {
        RenderPrimitive::Rectangle(b, _) => assert_eq!(*b, Boundary { x: 10, y: 0, w: 20, h: 10 }),
        _ => panic!("no rectangle"),
    }
    match &primitives[3] {
        RenderPrimitive::Rectangle(b, _) => assert_eq!(*b, Boundary { x: 100, y: 0, w: 100, h: 50 }),
        _ => panic!("no rectangle"),
    }
}

#[test]
fn pointer_in_then_out_fires_enter_then_leave() {
    let mut layout = Layout::new().unwrap();
    let root = layout.root_widget();
    let (id, node) = layout.add_child(root, Rectangle::create(colored(1, 1, 1)), sized(100, 50)).unwrap();
    layout.add_event_listener(id, EventListener::MouseEnter(11)).unwrap();
    layout.add_event_listener(id, EventListener::MouseLeave(22)).unwrap();
    layout.update(Vec2::new(800, 600)).unwrap();
    let mut fired = Vec::new();
    layout.push_event(&motion(500, 500), &mut fired).unwrap();
    assert_eq!(fired, vec![]);
    layout.push_event(&motion(10, 10), &mut fired).unwrap();
    assert_eq!(fired, vec![CallbackData { callback: 11, widget_id: id, node_id: node }]);
    layout.push_event(&motion(20, 20), &mut fired).unwrap();
    assert_eq!(fired.len(), 1);
    layout.push_event(&motion(100, 10), &mut fired).unwrap();
    assert_eq!(fired, vec![
        CallbackData { callback: 11, widget_id: id, node_id: node },
        CallbackData { callback: 22, widget_id: id, node_id: node },
    ]);
    layout.push_event(&motion(300, 10), &mut fired).unwrap();
    assert_eq!(fired.len(), 2);
}

#[test]
fn hit_test_is_half_open() {
    let mut layout = Layout::new().unwrap();
    let root = layout.root_widget();
    let (id, _) = layout.add_child(root, Rectangle::create(colored(1, 1, 1)), sized(100, 50)).unwrap();
    layout.update(Vec2::new(800, 600)).unwrap();
    let mut fired = Vec::new();
    layout.push_event(&motion(0, 0), &mut fired).unwrap();
    assert!(layout.widget_states().get(&id).unwrap().hovered);
    layout.push_event(&motion(99, 49), &mut fired).unwrap();
    assert!(layout.widget_states().get(&id).unwrap().hovered);
    layout.push_event(&motion(100, 49), &mut fired).unwrap();
    assert!(!layout.widget_states().get(&id).unwrap().hovered);
    layout.push_event(&motion(99, 50), &mut fired).unwrap();
    assert!(!layout.widget_states().get(&id).unwrap().hovered);
    layout.push_event(&motion(-1, 0), &mut fired).unwrap();
    assert!(!layout.widget_states().get(&id).unwrap().hovered);
}

#[test]
fn click_needs_press_and_release_inside() {
    let mut layout = Layout::new().unwrap();
    let root = layout.root_widget();
    let (id, node) = layout.add_child(root, Rectangle::create(colored(1, 1, 1)), sized(100, 50)).unwrap();
    layout.add_event_listener(id, EventListener::MouseClick(5)).unwrap();
    layout.update(Vec2::new(800, 600)).unwrap();
    let down_in = Event::MouseDown(MouseDownEvent { pos: Vec2::new(10, 10) });
    let up_in = Event::MouseUp(MouseUpEvent { pos: Vec2::new(20, 20) });
    let up_out = Event::MouseUp(MouseUpEvent { pos: Vec2::new(400, 400) });
    let down_out = Event::MouseDown(MouseDownEvent { pos: Vec2::new(400, 400) });

    let mut fired = Vec::new();
    layout.push_event(&down_in, &mut fired).unwrap();
    assert!(layout.widget_states().get(&id).unwrap().pressed);
    layout.push_event(&up_out, &mut fired).unwrap();
    assert!(!layout.widget_states().get(&id).unwrap().pressed);
    assert_eq!(fired, vec![]);

    layout.push_event(&down_in, &mut fired).unwrap();
    layout.push_event(&up_in, &mut fired).unwrap();
    assert_eq!(fired, vec![CallbackData { callback: 5, widget_id: id, node_id: node }]);

    layout.push_event(&up_in, &mut fired).unwrap();
    assert_eq!(fired.len(), 1);

    layout.push_event(&down_out, &mut fired).unwrap();
    assert!(!layout.widget_states().get(&id).unwrap().pressed);
    layout.push_event(&up_in, &mut fired).unwrap();
    assert_eq!(fired.len(), 1);
}

#[test]
fn listeners_fire_in_registration_order_parent_before_child() {
    let mut layout = Layout::new().unwrap();
    let root = layout.root_widget();
    let (outer, outer_node) = layout.add_child(root, Rectangle::create(colored(1, 1, 1)), sized(100, 50)).unwrap();
    let (inner, inner_node) = layout.add_child(outer, Rectangle::create(colored(2, 2, 2)), sized(10, 10)).unwrap();
    layout.add_event_listener(inner, EventListener::MouseEnter(3)).unwrap();
    layout.add_event_listener(outer, EventListener::MouseEnter(1)).unwrap();
    layout.add_event_listener(outer, EventListener::MouseEnter(2)).unwrap();
    layout.update(Vec2::new(800, 600)).unwrap();
    let mut fired = Vec::new();
    layout.push_event(&motion(5, 5), &mut fired).unwrap();
    assert_eq!(fired, vec![
        CallbackData { callback: 1, widget_id: outer, node_id: outer_node },
        CallbackData { callback: 2, widget_id: outer, node_id: outer_node },
        CallbackData { callback: 3, widget_id: inner, node_id: inner_node },
    ]);
}

#[test]
fn wheel_scrolls_an_overflowing_container_and_draws_its_handle() {
    let mut layout = Layout::new().unwrap();
    let root = layout.root_widget();
    let mut style = sized(100, 100);
    style.overflow.y = taffy::Overflow::Scroll;
    style.flex_direction = taffy::FlexDirection::Column;
    let (container, _) = layout.add_child(root, Div::create(), style).unwrap();
    let (child, _) = layout.add_child(container, Rectangle::create(colored(9, 9, 9)), sized(100, 200)).unwrap();
    layout.add_event_listener(child, EventListener::MouseEnter(77)).unwrap();
    layout.update(Vec2::new(800, 600)).unwrap();

    assert_eq!(layout.widget_states().get(&container).unwrap().scrolling, Vec2::new(0, 0));
    let mut fired = Vec::new();
    let wheel = Event::MouseWheel(MouseWheelEvent { pos: Vec2::new(50, 50), shift: Vec2::new(0, -UNIT) });
    layout.push_event(&wheel, &mut fired).unwrap();
    // 32 pixels of the 100 that the content overflows by
    assert_eq!(layout.widget_states().get(&container).unwrap().scrolling, Vec2::new(0, 20971));
    // the container kept the event: the child below it saw nothing
    assert_eq!(fired, vec![]);
    assert!(!layout.widget_states().get(&child).unwrap().hovered);

    layout.push_event(&wheel, &mut fired).unwrap();
    assert_eq!(layout.widget_states().get(&container).unwrap().scrolling, Vec2::new(0, 41942));
    let twice = Event::MouseWheel(MouseWheelEvent { pos: Vec2::new(50, 50), shift: Vec2::new(0, -2 * UNIT) });
    layout.push_event(&twice, &mut fired).unwrap();
    assert_eq!(layout.widget_states().get(&container).unwrap().scrolling, Vec2::new(0, UNIT));
    let back = Event::MouseWheel(MouseWheelEvent { pos: Vec2::new(50, 50), shift: Vec2::new(0, UNIT / 2) });
    layout.push_event(&back, &mut fired).unwrap();
    assert_eq!(layout.widget_states().get(&container).unwrap().scrolling, Vec2::new(0, UNIT - 10485));

    let primitives = draw(&layout).unwrap();
    assert_eq!(primitives.len(), 2);
    // the content is shifted up by 100 * (UNIT - 10485) / UNIT = 84 pixels
    match &primitives[0] {
        RenderPrimitive::Rectangle(b, rect) => {
            assert_eq!(*b, Boundary { x: 0, y: -84, w: 100, h: 200 });
            assert_eq!(rect.color, Color::new(9, 9, 9, 255));
        },
        _ => panic!("no rectangle"),
    }
    // the handle is as high as the visible half of the content
    match &primitives[1] {
        RenderPrimitive::Rectangle(b, rect) => {
            assert_eq!(b.x, 90);
            assert_eq!(b.w, 6);
            assert_eq!(b.h, 50);
            assert_eq!(b.y, -84 + 42);
            assert_eq!(rect.border, 2);
            assert_eq!(rect.color, Color::new(255, 255, 255, 0));
            assert_eq!(rect.border_color, Color::new(255, 255, 255, 255));
            assert_eq!(rect.round, UNIT);
        },
        _ => panic!("no rectangle"),
    }
}

#[test]
fn wheel_passes_through_a_container_that_does_not_scroll() {
    let mut layout = Layout::new().unwrap();
    let root = layout.root_widget();
    let (container, _) = layout.add_child(root, Div::create(), sized(100, 100)).unwrap();
    let (child, _) = layout.add_child(container, Rectangle::create(colored(9, 9, 9)), sized(100, 200)).unwrap();
    layout.update(Vec2::new(800, 600)).unwrap();
    let mut fired = Vec::new();
    let wheel = Event::MouseWheel(MouseWheelEvent { pos: Vec2::new(50, 50), shift: Vec2::new(0, -UNIT) });
    layout.push_event(&wheel, &mut fired).unwrap();
    assert_eq!(layout.widget_states().get(&container).unwrap().scrolling, Vec2::new(0, 0));
    assert!(layout.widget_states().get(&child).unwrap().hovered);
}

#[test]
fn nesting_beyond_the_stack_is_an_error() {
    let mut layout = Layout::new().unwrap();
    let mut parent = layout.root_widget();
    for _ in 0..30 {
        let (id, _) = layout.add_child(parent, Div::create(), sized(10, 10)).unwrap();
        parent = id;
    }
    layout.update(Vec2::new(800, 600)).unwrap();
    let mut fired = Vec::new();
    assert_eq!(layout.push_event(&motion(1, 1), &mut fired), Ok(()));
    assert!(draw(&layout).is_ok());
    let (_, _) = layout.add_child(parent, Div::create(), sized(10, 10)).unwrap();
    layout.update(Vec2::new(800, 600)).unwrap();
    assert_eq!(layout.push_event(&motion(1, 1), &mut fired), Err(LayoutError::TooDeep));
    assert_eq!(draw(&layout).err(), Some(LayoutError::TooDeep));
}

#[test]
fn widget_object_can_be_changed_through_the_layout() {
    let mut layout = Layout::new().unwrap();
    let root = layout.root_widget();
    let (id, _) = layout.add_child(root, Rectangle::create(colored(1, 2, 3)), sized(100, 50)).unwrap();
    match layout.get_widget_mut(id) {
        Some(Widget::Rectangle(rect)) => rect.params.color = Color::new(200, 100, 50, 255),
        _ => panic!("no rectangle"),
    }
    layout.update(Vec2::new(800, 600)).unwrap();
    let primitives = draw(&layout).unwrap();
    assert_eq!(fill_colors(&primitives), vec![Color::new(200, 100, 50, 255)]);
    let stale = wgui::handle::Handle { idx: id.idx, generation: id.generation + 1 };
    assert!(layout.get_widget_mut(stale).is_none());
    assert_eq!(
        layout.add_event_listener(stale, EventListener::MouseClick(1)),
        Err(LayoutError::InvalidWidget)
    );
}

#[test]
fn a_widget_that_keeps_the_wheel_still_sees_the_pointer_come_in() {
    let mut layout = Layout::new().unwrap();
    let root = layout.root_widget();
    let mut style = sized(100, 100);
    style.overflow.y = taffy::Overflow::Scroll;
    style.flex_direction = taffy::FlexDirection::Column;
    let (container, node) = layout.add_child(root, Div::create(), style).unwrap();
    layout.add_child(container, Rectangle::create(colored(9, 9, 9)), sized(100, 200)).unwrap();
    layout.add_event_listener(container, EventListener::MouseEnter(4)).unwrap();
    layout.update(Vec2::new(800, 600)).unwrap();
    let mut fired = Vec::new();
    let wheel = Event::MouseWheel(MouseWheelEvent { pos: Vec2::new(50, 50), shift: Vec2::new(0, -UNIT) });
    layout.push_event(&wheel, &mut fired).unwrap();
    assert!(layout.widget_states().get(&container).unwrap().hovered);
    assert_eq!(fired, vec![CallbackData { callback: 4, widget_id: container, node_id: node }]);
}

#[test]
fn widget_accessors_tell_the_kinds_apart() {
    let mut rect = Widget::Rectangle(Rectangle::new(colored(1, 2, 3)));
    assert!(rect.as_rectangle().is_some());
    assert!(rect.as_text().is_none());
    assert!(rect.as_text_mut().is_none());
    rect.as_rectangle_mut().unwrap().params.border = 3;
    assert_eq!(rect.as_rectangle().unwrap().params.border, 3);
    let mut div = Div::create().obj;
    assert!(div.as_rectangle().is_none());
    assert!(div.as_rectangle_mut().is_none());
    assert!(div.as_text().is_none());
}

#[test]
fn add_child_rejects_a_style_that_is_no_flexbox() {
    let mut layout = Layout::new().unwrap();
    let root = layout.root_widget();
    let grid = taffy::Style { display: taffy::Display::Grid, ..Default::default() };
    assert_eq!(layout.add_child(root, Div::create(), grid), Err(LayoutError::LayoutEngineFailure));
    let block = taffy::Style { display: taffy::Display::Block, ..Default::default() };
    assert_eq!(layout.add_child(root, Div::create(), block), Err(LayoutError::LayoutEngineFailure));
    assert_eq!(layout.widget_states().count(), 1);
    assert_eq!(layout.tree_ref().total_node_count(), 1);
    // an unknown parent is named first
    let stale = wgui::handle::Handle { idx: 9, generation: 9 };
    let grid = taffy::Style { display: taffy::Display::Grid, ..Default::default() };
    assert_eq!(layout.add_child(stale, Div::create(), grid), Err(LayoutError::InvalidParent));
    let hidden = taffy::Style { display: taffy::Display::None, ..Default::default() };
    assert!(layout.add_child(root, Div::create(), hidden).is_ok());
    layout.update(Vec2::new(800, 600)).unwrap();
    assert!(draw(&layout).is_ok());
}

#[test]
fn update_solves_again_after_a_child_was_added() {
    let mut layout = Layout::new().unwrap();
    let root = layout.root_widget();
    let root_node = taffy::NodeId::from(layout.root_node());
    assert!(layout.tree_ref().dirty(root_node).unwrap());
    layout.update(Vec2::new(800, 600)).unwrap();
    assert!(!layout.tree_ref().dirty(root_node).unwrap());
    let (a, a_node) = layout.add_child(root, Rectangle::create(colored(1, 2, 3)), sized(100, 50)).unwrap();
    assert!(layout.tree_ref().dirty(root_node).unwrap());
    assert!(layout.tree_ref().dirty(taffy::NodeId::from(a_node)).unwrap());
    layout.update(Vec2::new(800, 600)).unwrap();
    assert!(!layout.tree_ref().dirty(root_node).unwrap());
    assert_eq!(layout.tree_ref().layout(taffy::NodeId::from(a_node)).unwrap().size.width, 100.0);
    // a child further down makes its parent dirty, and the nodes above it
    let (_, b_node) = layout.add_child(a, Rectangle::create(colored(4, 5, 6)), sized(10, 10)).unwrap();
    assert!(layout.tree_ref().dirty(taffy::NodeId::from(a_node)).unwrap());
    assert!(layout.tree_ref().dirty(taffy::NodeId::from(b_node)).unwrap());
    layout.update(Vec2::new(800, 600)).unwrap();
    assert_eq!(layout.tree_ref().layout(taffy::NodeId::from(b_node)).unwrap().size.height, 10.0);
}

#[test]
fn a_node_whose_widget_is_gone_stops_the_traversal() {
    let mut layout = Layout::new().unwrap();
    let root = layout.root_widget();
    let (first, first_node) = layout.add_child(root, Rectangle::create(colored(1, 1, 1)), sized(100, 50)).unwrap();
    let (second, _) = layout.add_child(root, Rectangle::create(colored(2, 2, 2)), sized(100, 50)).unwrap();
    let (third, _) = layout.add_child(root, Rectangle::create(colored(3, 3, 3)), sized(100, 50)).unwrap();
    layout.add_event_listener(first, EventListener::MouseEnter(1)).unwrap();
    layout.add_event_listener(third, EventListener::MouseEnter(3)).unwrap();
    layout.update(Vec2::new(800, 600)).unwrap();

    assert_eq!(layout.remove_widget(second), Ok(()));
    assert_eq!(layout.widget_states().count(), 3);
    assert!(layout.widget_states().get(&second).is_none());

    // the first child is reached, the second stops the pass, the third is not reached
    let mut fired = Vec::new();
    let done = layout.push_event(&motion(10, 10), &mut fired);
    assert_eq!(done, Err(LayoutError::InvalidWidget));
    assert_eq!(fired, vec![CallbackData { callback: 1, widget_id: first, node_id: first_node }]);
    assert!(layout.widget_states().get(&first).unwrap().hovered);
    let mut fired = Vec::new();
    assert_eq!(layout.push_event(&motion(250, 10), &mut fired), Err(LayoutError::InvalidWidget));
    assert_eq!(fired, vec![]);
    assert!(!layout.widget_states().get(&third).unwrap().hovered);

    assert_eq!(draw(&layout).err(), Some(LayoutError::InvalidWidget));
}

#[test]
fn the_root_is_never_removed() {
    let mut layout = Layout::new().unwrap();
    let root = layout.root_widget();
    let root_node = layout.root_node();
    assert_eq!(layout.remove_widget(root), Err(LayoutError::InvalidWidget));
    let mut made = Vec::new();
    for i in 0..10u8 {
        let (id, _) = layout.add_child(root, Rectangle::create(colored(i, 0, 0)), sized(10, 10)).unwrap();
        made.push(id);
    }
    layout.update(Vec2::new(800, 600)).unwrap();
    let mut fired = Vec::new();
    layout.push_event(&motion(1, 1), &mut fired).unwrap();
    for id in &made {
        assert_eq!(layout.remove_widget(*id), Ok(()));
        assert_eq!(layout.remove_widget(*id), Err(LayoutError::InvalidWidget));
        assert_eq!(layout.remove_widget(root), Err(LayoutError::InvalidWidget));
        assert!(layout.widget_states().get(&root).is_some());
    }
    assert_eq!(layout.widget_states().count(), 1);
    assert_eq!(layout.root_widget(), root);
    assert_eq!(layout.root_node(), root_node);
    assert!(matches!(layout.widget_states().get(&root).unwrap().obj, Widget::Div(_)));
    let stale = wgui::handle::Handle { idx: 50, generation: 1 };
    assert_eq!(layout.remove_widget(stale), Err(LayoutError::InvalidWidget));
}
