use wgui::drawing::{Boundary, Color, RenderPrimitive};
use wgui::engine::{NodeLayout, Overflow, Overflows, ScrollEnabled};
use wgui::event::{
    CallbackData, Event, EventListener, MouseDownEvent, MouseMotionEvent, MouseUpEvent,
    MouseWheelEvent,
};
use wgui::handle::Handle;
use wgui::renderers::text::{FontWeight, TextStyle};
use wgui::transform_stack::{Transform, TransformStack, Vec2};
use wgui::units::UNIT;
use wgui::widget::div::Div;
use wgui::widget::rectangle::{Rectangle, RectangleParams};
use wgui::widget::text::{TextLabel, TextParams};
use wgui::widget::{
    get_scroll_enabled, get_scrollbar_info, DrawParams, DrawState, EventParams, EventResult, ScrollbarInfo, Widget,
    WidgetObj, WidgetState,
};

fn plain_layout(width: i32, height: i32) -> NodeLayout {
    NodeLayout {
        x: 0,
        y: 0,
        width,
        height,
        content_width: width,
        content_height: height,
        scroll_width: 0,
        scroll_height: 0,
        content_box_width: width,
        content_box_height: height,
    }
}

fn tall_layout() -> NodeLayout {
    NodeLayout {
        x: 0,
        y: 0,
        width: 100,
        height: 100,
        content_width: 100,
        content_height: 400,
        scroll_width: 0,
        scroll_height: 300,
        content_box_width: 100,
        content_box_height: 100,
    }
}

fn params_at(x: i64, y: i64, w: i64, h: i64) -> EventParams {
    EventParams {
        node_id: 9,
        scroll: ScrollEnabled { horiz: false, vert: false },
        layout: plain_layout(w as i32, h as i32),
        transform: Transform { pos: Vec2::new(x, y), dim: Vec2::new(w, h) },
    }
}

fn id() -> Handle {
    Handle { idx: 2, generation: 5 }
}

fn record(callback: u64) -> CallbackData {
    CallbackData { callback, widget_id: id(), node_id: 9 }
}

#[test]
fn new_state_is_idle() {
    let state = Div::create();
    assert!(!state.hovered);
    assert!(!state.pressed);
    assert!(state.event_listeners.is_empty());
    assert_eq!(state.scrolling, Vec2::new(0, 0));
    assert!(matches!(state.obj, Widget::Div(_)));
    let _ = Div::new();
}

#[test]
fn listeners_are_kept_in_registration_order() {
    let mut state = Div::create();
    state.add_event_listener(EventListener::MouseClick(3));
    state.add_event_listener(EventListener::MouseEnter(1));
    state.add_event_listener(EventListener::MouseClick(2));
    assert_eq!(state.event_listeners, vec![
        EventListener::MouseClick(3),
        EventListener::MouseEnter(1),
        EventListener::MouseClick(2),
    ]);
}

#[test]
fn motion_sets_hover_and_fires_on_the_edges_only() {
    let mut state = Div::create();
    state.add_event_listener(EventListener::MouseLeave(20));
    state.add_event_listener(EventListener::MouseEnter(10));
    state.add_event_listener(EventListener::MouseEnter(11));
    state.add_event_listener(EventListener::MouseClick(30));
    let params = params_at(10, 10, 100, 50);
    let inside = Event::MouseMotion(MouseMotionEvent { pos: Vec2::new(10, 10) });
    let outside = Event::MouseMotion(MouseMotionEvent { pos: Vec2::new(110, 10) });
    let mut fired = Vec::new();

    let result = state.process_event(id(), 9, &outside, &params, &mut fired);
    assert_eq!(result, EventResult::Pass);
    assert!(!state.hovered);
    assert_eq!(fired, vec![]);

    state.process_event(id(), 9, &inside, &params, &mut fired);
    assert!(state.hovered);
    assert_eq!(fired, vec![record(10), record(11)]);

    state.process_event(id(), 9, &inside, &params, &mut fired);
    assert_eq!(fired.len(), 2);

    state.process_event(id(), 9, &outside, &params, &mut fired);
    assert!(!state.hovered);
    assert_eq!(fired, vec![record(10), record(11), record(20)]);

    state.process_event(id(), 9, &outside, &params, &mut fired);
    assert_eq!(fired.len(), 3);
}

#[test]
fn press_outside_does_not_press() {
    let mut state = Div::create();
    state.add_event_listener(EventListener::MouseClick(30));
    let params = params_at(0, 0, 100, 50);
    let mut fired = Vec::new();
    state.process_event(id(), 9, &Event::MouseDown(MouseDownEvent { pos: Vec2::new(100, 0) }), &params, &mut fired);
    assert!(!state.pressed);
    state.process_event(id(), 9, &Event::MouseUp(MouseUpEvent { pos: Vec2::new(5, 5) }), &params, &mut fired);
    assert_eq!(fired, vec![]);
}

#[test]
fn press_and_release_inside_is_one_click() {
    let mut state = Div::create();
    state.add_event_listener(EventListener::MouseClick(30));
    state.add_event_listener(EventListener::MouseLeave(20));
    state.add_event_listener(EventListener::MouseClick(31));
    let params = params_at(0, 0, 100, 50);
    let mut fired = Vec::new();
    state.process_event(id(), 9, &Event::MouseDown(MouseDownEvent { pos: Vec2::new(5, 5) }), &params, &mut fired);
    assert!(state.pressed);
    assert!(state.hovered);
    assert_eq!(fired, vec![]);
    state.process_event(id(), 9, &Event::MouseUp(MouseUpEvent { pos: Vec2::new(6, 6) }), &params, &mut fired);
    assert!(!state.pressed);
    assert_eq!(fired, vec![record(30), record(31)]);
    state.process_event(id(), 9, &Event::MouseUp(MouseUpEvent { pos: Vec2::new(6, 6) }), &params, &mut fired);
    assert_eq!(fired.len(), 2);
}

#[test]
fn release_outside_cancels_the_click() {
    let mut state = Div::create();
    state.add_event_listener(EventListener::MouseClick(30));
    state.add_event_listener(EventListener::MouseLeave(20));
    let params = params_at(0, 0, 100, 50);
    let mut fired = Vec::new();
    state.process_event(id(), 9, &Event::MouseDown(MouseDownEvent { pos: Vec2::new(5, 5) }), &params, &mut fired);
    state.process_event(id(), 9, &Event::MouseUp(MouseUpEvent { pos: Vec2::new(5, 50) }), &params, &mut fired);
    assert!(!state.pressed);
    assert_eq!(fired, vec![record(20)]);
}

#[test]
fn wheel_is_kept_only_where_an_enabled_axis_overflows() {
    let wheel = Event::MouseWheel(MouseWheelEvent { pos: Vec2::new(5, 5), shift: Vec2::new(-UNIT, -UNIT) });
    let mut fired = Vec::new();

    // overflows on y, scrolls on y
    let mut state = Div::create();
    let mut params = params_at(0, 0, 100, 100);
    params.layout = tall_layout();
    params.scroll = ScrollEnabled { horiz: false, vert: true };
    assert_eq!(state.process_event(id(), 9, &wheel, &params, &mut fired), EventResult::Consumed);
    // 32 of 300 pixels
    assert_eq!(state.scrolling, Vec2::new(0, 6990));
    assert!(state.hovered);

    // overflows on y, scrolls on x only
    let mut state = Div::create();
    params.scroll = ScrollEnabled { horiz: true, vert: false };
    assert_eq!(state.process_event(id(), 9, &wheel, &params, &mut fired), EventResult::Pass);
    assert_eq!(state.scrolling, Vec2::new(0, 0));

    // scrolls, does not overflow
    let mut state = Div::create();
    params.layout = plain_layout(100, 100);
    params.scroll = ScrollEnabled { horiz: true, vert: true };
    assert_eq!(state.process_event(id(), 9, &wheel, &params, &mut fired), EventResult::Pass);
    assert_eq!(state.scrolling, Vec2::new(0, 0));
}

#[test]
fn wheel_offset_stays_between_zero_and_one() {
    let mut state = Div::create();
    let mut params = params_at(0, 0, 100, 100);
    params.layout = tall_layout();
    params.scroll = ScrollEnabled { horiz: false, vert: true };
    let mut fired = Vec::new();
    let up = Event::MouseWheel(MouseWheelEvent { pos: Vec2::new(5, 5), shift: Vec2::new(0, 3 * UNIT) });
    state.process_event(id(), 9, &up, &params, &mut fired);
    assert_eq!(state.scrolling, Vec2::new(0, 0));
    let far = Event::MouseWheel(MouseWheelEvent { pos: Vec2::new(5, 5), shift: Vec2::new(0, i64::MIN) });
    state.process_event(id(), 9, &far, &params, &mut fired);
    assert_eq!(state.scrolling, Vec2::new(0, UNIT));
    let back = Event::MouseWheel(MouseWheelEvent { pos: Vec2::new(5, 5), shift: Vec2::new(0, i64::MAX) });
    state.process_event(id(), 9, &back, &params, &mut fired);
    assert_eq!(state.scrolling, Vec2::new(0, 0));
}

#[test]
fn scrollbar_info_gives_the_visible_share() {
    assert_eq!(get_scrollbar_info(&plain_layout(100, 100)), None);
    let info = get_scrollbar_info(&tall_layout()).unwrap();
    assert_eq!(info, ScrollbarInfo {
        content_size: Vec2::new(100, 400),
        handle_size: Vec2::new(UNIT, UNIT / 4),
        overflow: Vec2::new(0, 300),
    });
    let mut odd = tall_layout();
    odd.content_height = 0;
    assert_eq!(get_scrollbar_info(&odd).unwrap().handle_size, Vec2::new(UNIT, UNIT));
    odd.content_height = 200;
    assert_eq!(get_scrollbar_info(&odd).unwrap().handle_size, Vec2::new(UNIT, 0));
}

#[test]
fn scroll_shift_is_the_hidden_part_times_the_offset() {
    let mut state = Div::create();
    let l = tall_layout();
    let info = get_scrollbar_info(&l).unwrap();
    assert_eq!(state.get_scroll_shift(&info, &l), Vec2::new(0, 0));
    state.scrolling = Vec2::new(0, UNIT / 2);
    assert_eq!(state.get_scroll_shift(&info, &l), Vec2::new(0, 150));
    state.scrolling = Vec2::new(UNIT, UNIT);
    assert_eq!(state.get_scroll_shift(&info, &l), Vec2::new(0, 300));
}

fn draw_state_at(x: i64, y: i64, w: i64, h: i64) -> DrawState {
    let mut transform_stack = TransformStack::new();
    transform_stack.push(Transform { pos: Vec2::new(x, y), dim: Vec2::new(w, h) });
    DrawState { primitives: Vec::new(), transform_stack }
}

fn draw_params(scroll: ScrollEnabled, layout: NodeLayout) -> DrawParams {
    DrawParams { node_id: 1, scroll, layout }
}

#[test]
fn div_draws_nothing() {
    let mut state = draw_state_at(1, 2, 3, 4);
    let params = draw_params(ScrollEnabled { horiz: false, vert: false }, plain_layout(3, 4));
    Div::create().draw_all(&mut state, &params);
    assert!(state.primitives.is_empty());
}

#[test]
fn rectangle_draws_itself_over_the_current_transform() {
    let mut state = draw_state_at(1, 2, 3, 4);
    let params = draw_params(ScrollEnabled { horiz: false, vert: false }, plain_layout(3, 4));
    let rect = Rectangle::new(RectangleParams {
        color: Color::new(1, 2, 3, 4),
        border: 7,
        round: UNIT / 2,
        ..Default::default()
    });
    rect.draw(&mut state, &params);
    assert_eq!(state.primitives.len(), 1);
    match &state.primitives[0] {
        RenderPrimitive::Rectangle(b, shape) => {
            assert_eq!(*b, Boundary { x: 1, y: 2, w: 3, h: 4 });
            assert_eq!(shape.color, Color::new(1, 2, 3, 4));
            assert_eq!(shape.border, 7);
            assert_eq!(shape.round, UNIT / 2);
            assert_eq!(shape.color2, Color::default());
        },
        _ => panic!("no rectangle"),
    }
}

#[test]
fn label_draws_its_text_and_style() {
    let mut state = draw_state_at(5, 6, 70, 8);
    let params = draw_params(ScrollEnabled { horiz: false, vert: false }, plain_layout(70, 8));
    let style = TextStyle { weight: Some(FontWeight::Bold), ..Default::default() };
    let mut widget = TextLabel::create(TextParams { content: String::from("hello"), style });
    widget.draw_all(&mut state, &params);
    if let Widget::Text(label) = &mut widget.obj {
        label.set_text("bye");
    }
    widget.draw_all(&mut state, &params);
    assert_eq!(state.primitives.len(), 2);
    match (&state.primitives[0], &state.primitives[1]) {
        (RenderPrimitive::Text(b, first), RenderPrimitive::Text(_, second)) => {
            assert_eq!(*b, Boundary { x: 5, y: 6, w: 70, h: 8 });
            assert_eq!(first.content, "hello");
            assert_eq!(first.style.weight, Some(FontWeight::Bold));
            assert_eq!(second.content, "bye");
            assert_eq!(second.style, style);
        },
        _ => panic!("no text"),
    }
}

#[test]
fn scrollbars_are_drawn_for_enabled_overflowing_axes() {
    let l = NodeLayout {
        x: 0,
        y: 0,
        width: 200,
        height: 100,
        content_width: 800,
        content_height: 400,
        scroll_width: 600,
        scroll_height: 300,
        content_box_width: 200,
        content_box_height: 100,
    };
    let info = get_scrollbar_info(&l).unwrap();
    let mut widget = Div::create();
    widget.scrolling = Vec2::new(UNIT / 2, UNIT);

    let mut state = draw_state_at(10, 20, 200, 100);
    widget.draw_scrollbars(&mut state, &draw_params(ScrollEnabled { horiz: true, vert: true }, l), &info);
    assert_eq!(state.primitives.len(), 2);
    match (&state.primitives[0], &state.primitives[1]) {
        (RenderPrimitive::Rectangle(h, _), RenderPrimitive::Rectangle(v, _)) => {
            // a quarter of the width, half way along the three quarters left
            assert_eq!(*h, Boundary { x: 10 + 75, y: 20 + 100 - 10, w: 50, h: 6 });
            // a quarter of the height, at the end
            assert_eq!(*v, Boundary { x: 10 + 200 - 10, y: 20 + 75, w: 6, h: 25 });
        },
        _ => panic!("no rectangles"),
    }

    let mut state = draw_state_at(10, 20, 200, 100);
    widget.draw_scrollbars(&mut state, &draw_params(ScrollEnabled { horiz: false, vert: true }, l), &info);
    assert_eq!(state.primitives.len(), 1);

    let mut state = draw_state_at(10, 20, 200, 100);
    widget.draw_scrollbars(&mut state, &draw_params(ScrollEnabled { horiz: false, vert: false }, l), &info);
    assert!(state.primitives.is_empty());
}

#[test]
fn only_scroll_overflow_scrolls() {
    let all = [Overflow::Visible, Overflow::Clip, Overflow::Hidden, Overflow::Scroll];
    for x in all {
        for y in all {
            let enabled = get_scroll_enabled(&Overflows { x, y });
            assert_eq!(enabled, ScrollEnabled { horiz: x == Overflow::Scroll, vert: y == Overflow::Scroll });
        }
    }
}
