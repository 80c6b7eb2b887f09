use wgui::drawing::{Boundary, Color, GradientMode, Rectangle};
use wgui::event::{Event, MouseDownEvent, MouseMotionEvent, MouseUpEvent, MouseWheelEvent};
use wgui::layout::{to_pixels, LayoutError};
use wgui::parser::{
    parse_align, parse_color, parse_gradient, parse_tag, parse_weight, ParserError, ParserResult,
    WidgetTag,
};
use wgui::renderers::text::{
    FontStyle, FontWeight, HorizontalAlign, RenderableText, TextBounds, TextStyle,
};
use wgui::renderers::text_atlas::{ColorMode, ContentType, Kind};
use wgui::time::Rate;
use wgui::transform_stack::{Transform, TransformStack, Vec2, TRANSFORM_STACK_MAX};
use wgui::units::{clamp, scale, UNIT};

#[test]
fn transform_stack_adds_positions_and_keeps_sizes() {
    let mut stack = TransformStack::new();
    assert_eq!(*stack.get(), Transform { pos: Vec2::new(0, 0), dim: Vec2::new(0, 0) });
    stack.push(Transform { pos: Vec2::new(10, 20), dim: Vec2::new(100, 200) });
    assert_eq!(*stack.get(), Transform { pos: Vec2::new(10, 20), dim: Vec2::new(100, 200) });
    stack.push(Transform { pos: Vec2::new(-3, 5), dim: Vec2::new(7, 8) });
    assert_eq!(*stack.get(), Transform { pos: Vec2::new(7, 25), dim: Vec2::new(7, 8) });
    assert_eq!(stack.get_pos(), Vec2::new(7, 25));
    stack.pop();
    assert_eq!(*stack.get(), Transform { pos: Vec2::new(10, 20), dim: Vec2::new(100, 200) });
    stack.pop();
    assert_eq!(stack.get_pos(), Vec2::new(0, 0));
}

#[test]
fn transform_stack_takes_one_frame_less_than_its_bound() {
    let mut stack = TransformStack::new();
    for _ in 0..TRANSFORM_STACK_MAX - 1 {
        assert!(stack.has_room());
        stack.push(Transform::pos(Vec2::new(1, 2)));
    }
    assert!(!stack.has_room());
    assert_eq!(stack.get_pos(), Vec2::new(31, 62));
    assert_eq!(stack.get().dim, Vec2::zero());
    let fresh = TransformStack::default();
    assert_eq!(fresh.get_pos(), Vec2::new(0, 0));
}

#[test]
fn hit_test_takes_left_and_top_and_leaves_right_and_bottom() {
    let t = Transform { pos: Vec2::new(10, 20), dim: Vec2::new(30, 40) };
    let at = |x: i64, y: i64| Event::MouseMotion(MouseMotionEvent { pos: Vec2::new(x, y) });
    assert!(at(10, 20).test_mouse_within_transform(&t));
    assert!(at(39, 59).test_mouse_within_transform(&t));
    assert!(!at(40, 59).test_mouse_within_transform(&t));
    assert!(!at(39, 60).test_mouse_within_transform(&t));
    assert!(!at(9, 20).test_mouse_within_transform(&t));
    assert!(!at(10, 19).test_mouse_within_transform(&t));
    assert!(Event::MouseDown(MouseDownEvent { pos: Vec2::new(10, 20) }).test_mouse_within_transform(&t));
    assert!(Event::MouseUp(MouseUpEvent { pos: Vec2::new(10, 20) }).test_mouse_within_transform(&t));
    assert!(Event::MouseWheel(MouseWheelEvent { pos: Vec2::new(10, 20), shift: Vec2::new(0, 0) })
        .test_mouse_within_transform(&t));
    let empty = Transform::pos(Vec2::new(10, 20));
    assert!(!at(10, 20).test_mouse_within_transform(&empty));
    let huge = Transform { pos: Vec2::new(i64::MAX, i64::MAX), dim: Vec2::new(i64::MAX, i64::MAX) };
    assert!(at(i64::MAX, i64::MAX).test_mouse_within_transform(&huge));
    assert!(!at(0, 0).test_mouse_within_transform(&huge));
}

#[test]
fn scale_rounds_towards_zero() {
    assert_eq!(scale(100, UNIT), 100);
    assert_eq!(scale(100, 0), 0);
    assert_eq!(scale(100, UNIT / 2), 50);
    assert_eq!(scale(3, UNIT / 2), 1);
    assert_eq!(scale(-3, UNIT / 2), -1);
    assert_eq!(scale(-100, UNIT / 4), -25);
    assert_eq!(clamp(5, 0, 3), 3);
    assert_eq!(clamp(-5, 0, 3), 0);
    assert_eq!(clamp(2, 0, 3), 2);
}

#[test]
fn pixels_are_held_to_the_range_of_the_engine() {
    assert_eq!(to_pixels(800), 800);
    assert_eq!(to_pixels(-5), -5);
    assert_eq!(to_pixels(i64::MAX), i32::MAX);
    assert_eq!(to_pixels(i64::MIN), i32::MIN);
}

#[test]
fn parse_color_reads_six_and_eight_digits() {
    assert_eq!(parse_color("#ff8000"), Some(Color::new(255, 128, 0, 255)));
    assert_eq!(parse_color("#FF8000"), Some(Color::new(255, 128, 0, 255)));
    assert_eq!(parse_color("#00000000"), Some(Color::new(0, 0, 0, 0)));
    assert_eq!(parse_color("#12345678"), Some(Color::new(0x12, 0x34, 0x56, 0x78)));
    assert_eq!(parse_color("#aAbBcC"), Some(Color::new(0xaa, 0xbb, 0xcc, 255)));
    // the first character is not looked at
    assert_eq!(parse_color("x010203"), Some(Color::new(1, 2, 3, 255)));
    // a field may be a plus sign and one digit
    assert_eq!(parse_color("#+f+0+a"), Some(Color::new(15, 0, 10, 255)));
}

#[test]
fn parse_color_rejects_what_is_no_color() {
    assert_eq!(parse_color(""), None);
    assert_eq!(parse_color("#fff"), None);
    assert_eq!(parse_color("#ff80000"), None);
    assert_eq!(parse_color("#ff800000f"), None);
    assert_eq!(parse_color("#gg8000"), None);
    assert_eq!(parse_color("#ff80 0"), None);
    assert_eq!(parse_color("#-1-1-1"), None);
    assert_eq!(parse_color("#f+f+f+"), None);
    assert_eq!(parse_color("#ff80\u{e9}"), None);
    assert_eq!(parse_color("\u{e9}12345"), None);
}

#[test]
fn parser_result_finds_widgets_by_id() {
    let mut result = ParserResult::default();
    let a = wgui::handle::Handle { idx: 1, generation: 2 };
    let b = wgui::handle::Handle { idx: 3, generation: 4 };
    assert!(!result.insert("first", a));
    assert!(!result.insert("second", b));
    assert_eq!(result.get("first"), Some(a));
    assert_eq!(result.require_by_id("second").unwrap(), b);
    assert_eq!(result.get("third"), None);
    match result.require_by_id("third") {
        Err(ParserError::UnknownId(name)) => assert_eq!(name, "third"),
        Ok(_) => panic!("found a widget that is not there"),
    }
    // a later widget takes the id over
    assert!(result.insert("first", b));
    assert_eq!(result.get("first"), Some(b));
}

#[test]
fn rate_gives_the_rest_of_the_frame() {
    let mut rate = Rate::new(60);
    assert_eq!(rate, Rate { rate: 60, start_ms: 0, finish_ms: 0 });
    rate.start(1000);
    assert_eq!(rate.start_ms, 1000);
    assert_eq!(rate.end(1005), 16666 - 5000);
    assert_eq!(rate.finish_ms, 1005);
    rate.start(2000);
    assert_eq!(rate.end(2016), 666);
    rate.start(3000);
    assert_eq!(rate.end(3017), 0);
    rate.start(3000);
    assert_eq!(rate.end(u64::MAX), 0);
    let mut never = Rate::new(0);
    never.start(10);
    assert_eq!(never.end(11), i64::MAX as u64 - 1000);
    let mut fast = Rate::new(1000);
    fast.start(0);
    assert_eq!(fast.end(0), 1000);
}

#[test]
fn defaults_are_as_documented() {
    assert_eq!(Color::default(), Color::new(0, 0, 0, 255));
    assert_eq!(GradientMode::default(), GradientMode::Solid);
    assert_eq!(Boundary::default(), Boundary { x: 0, y: 0, w: 0, h: 0 });
    assert_eq!(Rectangle::default().border, 0);
    assert_eq!(Rectangle::default().color, Color::new(0, 0, 0, 255));
    assert_eq!(FontStyle::default(), FontStyle::Normal);
    assert_eq!(FontWeight::default(), FontWeight::Normal);
    assert_eq!(HorizontalAlign::default(), HorizontalAlign::Left);
    assert_eq!(TextBounds::default(), TextBounds {
        left: i32::MIN,
        top: i32::MIN,
        right: i32::MAX,
        bottom: i32::MAX,
    });
    let style = TextStyle::default();
    assert_eq!(style.size, None);
    assert_eq!(style.color, None);
    assert!(!style.wrap);
    let text = RenderableText::new("abc", &style);
    assert_eq!(text.content, "abc");
    assert_eq!(text.style, style);
}

#[test]
fn boundary_is_built_from_position_and_size() {
    let b = Boundary::from_pos_size(&Vec2::new(1, 2), &Vec2::new(3, 4));
    assert_eq!(b, Boundary { x: 1, y: 2, w: 3, h: 4 });
    let mut stack = TransformStack::new();
    stack.push(Transform { pos: Vec2::new(5, 6), dim: Vec2::new(7, 8) });
    assert_eq!(Boundary::construct(&stack), Boundary { x: 5, y: 6, w: 7, h: 8 });
}

#[test]
fn atlas_kinds_know_their_channels() {
    assert_eq!(Kind::Mask.num_channels(), 1);
    assert_eq!(Kind::Color { srgb: true }.num_channels(), 4);
    assert_eq!(Kind::Mask.as_content_type(), ContentType::Mask);
    assert_eq!(Kind::Color { srgb: false }.as_content_type(), ContentType::Color);
    assert_eq!(ColorMode::Accurate.color_kind(), Kind::Color { srgb: true });
    assert_eq!(ColorMode::Web.color_kind(), Kind::Color { srgb: false });
}

#[test]
fn errors_say_what_went_wrong() {
    assert_eq!(LayoutError::InvalidParent.message(), "invalid parent widget");
    assert_eq!(LayoutError::InvalidWidget.message(), "invalid widget");
    assert_ne!(LayoutError::TooDeep.message(), LayoutError::InvalidNode.message());
    assert_ne!(LayoutError::LayoutEngineFailure.message(), "");
}

#[test]
fn markup_words_name_what_they_say() {
    assert_eq!(parse_gradient("horizontal"), Some(GradientMode::Horizontal));
    assert_eq!(parse_gradient("vertical"), Some(GradientMode::Vertical));
    assert_eq!(parse_gradient("radial"), Some(GradientMode::Radial));
    assert_eq!(parse_gradient("none"), Some(GradientMode::Solid));
    assert_eq!(parse_gradient("Horizontal"), None);
    assert_eq!(parse_gradient(""), None);
    assert_eq!(parse_align("left"), Some(HorizontalAlign::Left));
    assert_eq!(parse_align("right"), Some(HorizontalAlign::Right));
    assert_eq!(parse_align("center"), Some(HorizontalAlign::Center));
    assert_eq!(parse_align("justified"), Some(HorizontalAlign::Justified));
    assert_eq!(parse_align("end"), Some(HorizontalAlign::End));
    assert_eq!(parse_align("start"), None);
    assert_eq!(parse_weight("normal"), Some(FontWeight::Normal));
    assert_eq!(parse_weight("bold"), Some(FontWeight::Bold));
    assert_eq!(parse_weight("bolder"), None);
    assert_eq!(parse_tag("div"), Some(WidgetTag::Div));
    assert_eq!(parse_tag("rectangle"), Some(WidgetTag::Rectangle));
    assert_eq!(parse_tag("label"), Some(WidgetTag::Label));
    assert_eq!(parse_tag("button"), None);
}
