//! Widgets: what they draw, the state each instance carries, and how one
//! widget answers a pointer event.

use crate::drawing;
use crate::drawing::{Boundary, Color, GradientMode, RenderPrimitive};
use crate::engine::{scroll_enabled, NodeLayout, Overflow, Overflows, ScrollEnabled};
use crate::event::{CallbackData, Event, EventListener, MouseWheelEvent};
use crate::handle::Handle;
use crate::transform_stack::{Transform, TransformStack, Vec2, LOCAL_LIMIT};
use crate::units::{clamp, clamped, div_trunc, scale, scaled, UNIT};
use vstd::prelude::*;

pub mod div;
pub mod rectangle;
pub mod text;

verus! {

/// What a draw traversal carries along: the primitives emitted so far and
/// the stack of transforms down to the widget being drawn.
pub struct DrawState {
    pub primitives: Vec<RenderPrimitive>,
    pub transform_stack: TransformStack,
}

/// What a draw is told of the widget's layout node.
#[derive(Clone, Copy, PartialEq, Eq, Structural, Debug)]
pub struct DrawParams {
    pub node_id: u64,
    pub scroll: ScrollEnabled,
    pub layout: NodeLayout,
}

/// The behaviour of a widget: what it draws. How large a widget wants to be
/// is a matter of the layout engine's floating-point sizes, and is left to
/// the program around this library.
pub trait WidgetObj {
    /// What one draw emits when the widget covers `boundary`.
    spec fn primitives(&self, boundary: Boundary) -> Seq<RenderPrimitive>;

    /// Appends the widget's primitives, bounded by the current transform.
    fn draw(&self, state: &mut DrawState, params: &DrawParams)
        requires
            old(state).transform_stack.wf(),
        ensures
            final(state).primitives@ == old(state).primitives@ + self.primitives(
                Boundary::of(old(state).transform_stack@.last()),
            ),
            final(state).transform_stack == old(state).transform_stack,
    ;
}

/// The widgets this library provides.
#[derive(Debug)]
pub enum Widget {
    Div(div::Div),
    Rectangle(rectangle::Rectangle),
    Text(text::TextLabel),
}

impl Widget {
    /// The rectangle, if the widget is one.
    pub fn as_rectangle(&self) -> (found: Option<&rectangle::Rectangle>)
        ensures
            found == match *self {
                Widget::Rectangle(rect) => Some(&rect),
                _ => None,
            },
    {
        match self {
            Widget::Rectangle(rect) => Some(rect),
            _ => None,
        }
    }

    /// The label, if the widget is one.
    pub fn as_text(&self) -> (found: Option<&text::TextLabel>)
        ensures
            found == match *self {
                Widget::Text(label) => Some(&label),
                _ => None,
            },
    {
        match self {
            Widget::Text(label) => Some(label),
            _ => None,
        }
    }

    /// The rectangle, if the widget is one, for changing it.
    pub fn as_rectangle_mut(&mut self) -> (found: Option<&mut rectangle::Rectangle>)
        ensures
            match found {
                Some(rect) => *old(self) == Widget::Rectangle(*rect) && *final(self)
                    == Widget::Rectangle(*final(rect)),
                None => !(*old(self) is Rectangle) && *final(self) == *old(self),
            },
    {
        match self {
            Widget::Rectangle(rect) => Some(rect),
            _ => None,
        }
    }

    /// The label, if the widget is one, for changing it.
    pub fn as_text_mut(&mut self) -> (found: Option<&mut text::TextLabel>)
        ensures
            match found {
                Some(label) => *old(self) == Widget::Text(*label) && *final(self) == Widget::Text(
                    *final(label),
                ),
                None => !(*old(self) is Text) && *final(self) == *old(self),
            },
    {
        match self {
            Widget::Text(label) => Some(label),
            _ => None,
        }
    }
}

impl WidgetObj for Widget {
    open spec fn primitives(&self, boundary: Boundary) -> Seq<RenderPrimitive> {
        match self {
            Widget::Div(w) => w.primitives(boundary),
            Widget::Rectangle(w) => w.primitives(boundary),
            Widget::Text(w) => w.primitives(boundary),
        }
    }

    fn draw(&self, state: &mut DrawState, params: &DrawParams) {
        match self {
            Widget::Div(w) => w.draw(state, params),
            Widget::Rectangle(w) => w.draw(state, params),
            Widget::Text(w) => w.draw(state, params),
        }
    }
}

/// What a widget made of a pointer event.
#[derive(Clone, Copy, PartialEq, Eq, Structural, Debug)]
pub enum EventResult {
    /// The event goes on to the children.
    Pass,
    /// The widget used the event up; the children do not see it.
    Consumed,
    /// The event is none of the widget's; the children do not see it.
    Outside,
}

/// What the handling of an event is told of the widget's layout node, and
/// the widget's absolute transform.
#[derive(Clone, Copy, PartialEq, Eq, Structural, Debug)]
pub struct EventParams {
    pub node_id: u64,
    pub scroll: ScrollEnabled,
    pub layout: NodeLayout,
    pub transform: Transform,
}

/// The runtime state of one widget.
#[derive(Debug)]
pub struct WidgetState {
    pub hovered: bool,
    pub pressed: bool,
    pub event_listeners: Vec<EventListener>,
    /// How far the content is scrolled on each axis, as a fraction from 0 to
    /// [`UNIT`].
    pub scrolling: Vec2,
    pub obj: Widget,
}


/// The axes on which a widget scrolls: those whose overflow is `Scroll`.
pub fn get_scroll_enabled(overflow: &Overflows) -> (enabled: ScrollEnabled)
    ensures
        enabled == scroll_enabled(*overflow),
{
    ScrollEnabled {
        horiz: overflow.x == Overflow::Scroll,
        vert: overflow.y == Overflow::Scroll,
    }
}

/// Pixels that one wheel step scrolls.
pub const SCROLL_STEP: i64 = 32;

/// Thickness of a scrollbar handle, in pixels.
pub const SCROLLBAR_THICKNESS: i64 = 6;

/// Distance of a scrollbar handle from the widget's edge, in pixels.
pub const SCROLLBAR_MARGIN: i64 = 4;

/// Scroll geometry of a widget whose content overflows, derived from its
/// layout.
#[derive(Clone, Copy, PartialEq, Eq, Structural, Debug)]
pub struct ScrollbarInfo {
    /// Total size of the content.
    pub content_size: Vec2,
    /// Share of the content that is visible on each axis, as a fraction.
    /// [`UNIT`] means that the axis does not overflow and shows no handle.
    pub handle_size: Vec2,
    /// How far the content overflows on each axis.
    pub overflow: Vec2,
}

impl ScrollbarInfo {
    pub open spec fn wf(self) -> bool {
        &&& i32::MIN <= self.content_size.x <= i32::MAX
        &&& i32::MIN <= self.content_size.y <= i32::MAX
        &&& 0 <= self.handle_size.x <= UNIT
        &&& 0 <= self.handle_size.y <= UNIT
    }
}

/// The visible share of an axis: one minus overflow over content, held
/// between zero and one. It is below one exactly where the axis overflows.
pub open spec fn handle_ratio(content: int, overflow: int) -> int {
    if overflow <= 0 || content <= 0 {
        UNIT as int
    } else if overflow >= content {
        0
    } else {
        (content - overflow) * UNIT / content
    }
}

pub proof fn lemma_handle_ratio(content: int, overflow: int)
    ensures
        0 <= handle_ratio(content, overflow) <= UNIT,
        handle_ratio(content, overflow) < UNIT <==> (overflow > 0 && content > 0),
{
    if overflow > 0 && content > 0 && overflow < content {
        let visible = content - overflow;
        assert(0 <= visible * UNIT < content * UNIT) by (nonlinear_arith)
            requires
                0 < visible < content,
        ;
        assert(0 <= (visible * UNIT) / content < UNIT) by (nonlinear_arith)
            requires
                0 <= visible * UNIT < content * UNIT,
                content > 0,
        ;
    }
}

fn handle_ratio_of(content: i32, overflow: i32) -> (ratio: i64)
    ensures
        ratio == handle_ratio(content as int, overflow as int),
        0 <= ratio <= UNIT,
{
    proof {
        lemma_handle_ratio(content as int, overflow as int);
    }
    if overflow <= 0 || content <= 0 {
        UNIT
    } else if overflow >= content {
        0
    } else {
        let visible: i64 = content as i64 - overflow as i64;
        assert(0 <= visible * UNIT <= 0x7fff_ffff * UNIT) by (nonlinear_arith)
            requires
                0 <= visible <= 0x7fff_ffff,
        ;
        visible * UNIT / (content as i64)
    }
}

/// The scroll geometry of a layout, or nothing where no axis overflows.
pub open spec fn scrollbar_info(l: NodeLayout) -> Option<ScrollbarInfo> {
    if l.scroll_width == 0 && l.scroll_height == 0 {
        None
    } else {
        Some(
            ScrollbarInfo {
                content_size: Vec2 { x: l.content_width as i64, y: l.content_height as i64 },
                handle_size: Vec2 {
                    x: handle_ratio(l.content_width as int, l.scroll_width as int) as i64,
                    y: handle_ratio(l.content_height as int, l.scroll_height as int) as i64,
                },
                overflow: Vec2 { x: l.scroll_width as i64, y: l.scroll_height as i64 },
            },
        )
    }
}

pub fn get_scrollbar_info(l: &NodeLayout) -> (info: Option<ScrollbarInfo>)
    ensures
        info == scrollbar_info(*l),
        info is Some ==> info->0.wf(),
{
    if l.scroll_width == 0 && l.scroll_height == 0 {
        return None;
    }
    Some(
        ScrollbarInfo {
            content_size: Vec2 { x: l.content_width as i64, y: l.content_height as i64 },
            handle_size: Vec2 {
                x: handle_ratio_of(l.content_width, l.scroll_width),
                y: handle_ratio_of(l.content_height, l.scroll_height),
            },
            overflow: Vec2 { x: l.scroll_width as i64, y: l.scroll_height as i64 },
        },
    )
}

/// How far the content is shifted at draw time: the part of the content
/// that does not fit the content box, times the scroll offset.
pub open spec fn scroll_shift(scrolling: Vec2, info: ScrollbarInfo, l: NodeLayout) -> Vec2 {
    Vec2 {
        x: scaled(info.content_size.x - l.content_box_width, scrolling.x as int) as i64,
        y: scaled(info.content_size.y - l.content_box_height, scrolling.y as int) as i64,
    }
}

/// The scroll offset of one axis after a wheel turn of `shift`: an axis
/// that overflows moves by `shift` steps of [`SCROLL_STEP`] pixels over the
/// distance between the visible and the whole content, and stays between
/// zero and one.
pub open spec fn scrolled_axis(offset: int, shift: int, visible: int, content: int, handle: int) -> int {
    if handle < UNIT && visible != content {
        clamped(offset + div_trunc(shift * SCROLL_STEP, visible - content), 0, UNIT as int)
    } else {
        offset
    }
}

/// The scroll offsets after a wheel turn.
pub open spec fn scrolled(scrolling: Vec2, shift: Vec2, l: NodeLayout) -> Vec2 {
    match scrollbar_info(l) {
        None => scrolling,
        Some(info) => Vec2 {
            x: scrolled_axis(
                scrolling.x as int,
                shift.x as int,
                l.content_box_width as int,
                info.content_size.x as int,
                info.handle_size.x as int,
            ) as i64,
            y: scrolled_axis(
                scrolling.y as int,
                shift.y as int,
                l.content_box_height as int,
                info.content_size.y as int,
                info.handle_size.y as int,
            ) as i64,
        },
    }
}

/// Whether a widget uses up a wheel event: scrolling is enabled on an axis
/// on which the content overflows.
pub open spec fn consumes_wheel(scroll: ScrollEnabled, l: NodeLayout) -> bool {
    (scroll.horiz && l.scroll_width > 0) || (scroll.vert && l.scroll_height > 0)
}

fn scroll_axis(offset: i64, shift: i64, visible: i32, content: i64, handle: i64) -> (moved: i64)
    requires
        0 <= offset <= UNIT,
        i32::MIN <= content <= i32::MAX,
    ensures
        moved == scrolled_axis(offset as int, shift as int, visible as int, content as int, handle as int),
        0 <= moved <= UNIT,
{
    if handle < UNIT && visible as i64 != content {
        let travel: i64 = visible as i64 - content;
        let span: i128 = if travel > 0 {
            travel as i128
        } else {
            -(travel as i128)
        };
        let step: i128 = SCROLL_STEP as i128;
        assert(-0x8000_0000_0000_0000 * 32 <= shift * step <= 0x8000_0000_0000_0000 * 32)
            by (nonlinear_arith)
            requires
                -0x8000_0000_0000_0000 <= shift < 0x8000_0000_0000_0000,
                step == 32,
        ;
        let push: i128 = shift as i128 * step;
        let reach: i128 = if push >= 0 {
            push
        } else {
            -push
        };
        let steps: i128 = reach / span;
        let forward: bool = (push >= 0) == (travel > 0);
        assert(steps >= 0) by (nonlinear_arith)
            requires
                reach >= 0,
                span > 0,
                steps == reach / span,
        ;
        proof {
            let q = div_trunc(shift * SCROLL_STEP, visible - content);
            if forward {
                assert(q == steps);
            } else {
                assert(q == -steps);
            }
        }
        let capped: i64 = if steps > UNIT as i128 {
            UNIT
        } else {
            steps as i64
        };
        if forward {
            clamp(offset + capped, 0, UNIT)
        } else {
            clamp(offset - capped, 0, UNIT)
        }
    } else {
        offset
    }
}

/// The listeners of `listeners` that fire, in their order, as the records
/// handed to their callbacks: enter listeners where the pointer came in,
/// leave listeners where it went out, click listeners on a click.
pub open spec fn fired(
    listeners: Seq<EventListener>,
    entered: bool,
    left: bool,
    clicked: bool,
    widget_id: Handle,
    node_id: u64,
) -> Seq<CallbackData>
    decreases listeners.len(),
{
    if listeners.len() == 0 {
        Seq::empty()
    } else {
        let before = fired(listeners.drop_last(), entered, left, clicked, widget_id, node_id);
        if fires(listeners.last(), entered, left, clicked) {
            before.push(CallbackData { callback: listeners.last().callback(), widget_id, node_id })
        } else {
            before
        }
    }
}

/// Whether one listener fires.
pub open spec fn fires(listener: EventListener, entered: bool, left: bool, clicked: bool) -> bool {
    match listener {
        EventListener::MouseEnter(_) => entered,
        EventListener::MouseLeave(_) => left,
        EventListener::MouseClick(_) => clicked,
    }
}

/// The scrollbar handles drawn over a widget at `transform`: for each axis
/// that scrolls and overflows, a thin rounded frame along the far edge, as
/// long as the visible share of the content and placed by the scroll offset.
pub open spec fn scrollbars(
    transform: Transform,
    scroll: ScrollEnabled,
    info: ScrollbarInfo,
    scrolling: Vec2,
) -> Seq<RenderPrimitive> {
    let horiz = if scroll.horiz && info.handle_size.x < UNIT {
        seq![
            RenderPrimitive::Rectangle(
                Boundary {
                    x: (transform.pos.x + scaled(
                        scaled(transform.dim.x as int, UNIT - info.handle_size.x),
                        scrolling.x as int,
                    )) as i64,
                    y: (transform.pos.y + transform.dim.y - SCROLLBAR_THICKNESS
                        - SCROLLBAR_MARGIN) as i64,
                    w: scaled(transform.dim.x as int, info.handle_size.x as int) as i64,
                    h: SCROLLBAR_THICKNESS,
                },
                scrollbar_shape(),
            ),
        ]
    } else {
        Seq::empty()
    };
    let vert = if scroll.vert && info.handle_size.y < UNIT {
        seq![
            RenderPrimitive::Rectangle(
                Boundary {
                    x: (transform.pos.x + transform.dim.x - SCROLLBAR_THICKNESS
                        - SCROLLBAR_MARGIN) as i64,
                    y: (transform.pos.y + scaled(
                        scaled(transform.dim.y as int, UNIT - info.handle_size.y),
                        scrolling.y as int,
                    )) as i64,
                    w: SCROLLBAR_THICKNESS,
                    h: scaled(transform.dim.y as int, info.handle_size.y as int) as i64,
                },
                scrollbar_shape(),
            ),
        ]
    } else {
        Seq::empty()
    };
    horiz + vert
}

/// How a scrollbar handle looks: a white frame two pixels wide, fully
/// rounded, around a transparent fill.
pub open spec fn scrollbar_shape() -> drawing::Rectangle {
    drawing::Rectangle {
        color: Color { r: 255, g: 255, b: 255, a: 0 },
        color2: Color { r: 0, g: 0, b: 0, a: 255 },
        gradient: GradientMode::Solid,
        border: 2,
        border_color: Color { r: 255, g: 255, b: 255, a: 255 },
        round: UNIT,
    }
}

impl WidgetState {
    /// A widget nobody has pointed at yet: not hovered, not pressed, not
    /// scrolled, without listeners.
    pub open spec fn fresh(&self, obj: Widget) -> bool {
        &&& !self.hovered
        &&& !self.pressed
        &&& self.event_listeners@.len() == 0
        &&& self.scrolling == (Vec2 { x: 0, y: 0 })
        &&& self.obj == obj
    }

    /// The state is `before` with `listener` appended to its listeners.
    pub open spec fn gained(self, before: WidgetState, listener: EventListener) -> bool {
        &&& self.event_listeners@ == before.event_listeners@.push(listener)
        &&& self.hovered == before.hovered
        &&& self.pressed == before.pressed
        &&& self.scrolling == before.scrolling
        &&& self.obj == before.obj
    }

    /// The state around another widget object.
    pub open spec fn with_obj(self, obj: Widget) -> WidgetState {
        WidgetState {
            hovered: self.hovered,
            pressed: self.pressed,
            event_listeners: self.event_listeners,
            scrolling: self.scrolling,
            obj,
        }
    }

    /// The scroll offsets are fractions between zero and one.
    pub open spec fn wf(&self) -> bool {
        0 <= self.scrolling.x <= UNIT && 0 <= self.scrolling.y <= UNIT
    }

    pub fn new(obj: Widget) -> (state: WidgetState)
        ensures
            state.fresh(obj),
            state.wf(),
    {
        WidgetState {
            hovered: false,
            pressed: false,
            event_listeners: Vec::new(),
            scrolling: Vec2 { x: 0, y: 0 },
            obj,
        }
    }

    /// Appends `listener`: it fires after the listeners added before it.
    pub fn add_event_listener(&mut self, listener: EventListener)
        ensures
            final(self).gained(*old(self), listener),
    {
        self.event_listeners.push(listener);
    }

    pub fn get_scroll_shift(&self, info: &ScrollbarInfo, l: &NodeLayout) -> (shift: Vec2)
        requires
            self.wf(),
            info.wf(),
        ensures
            shift == scroll_shift(self.scrolling, *info, *l),
            shift.within(0x1_0000_0000),
    {
        let dx: i64 = info.content_size.x - l.content_box_width as i64;
        let dy: i64 = info.content_size.y - l.content_box_height as i64;
        Vec2 { x: scale(dx, self.scrolling.x), y: scale(dy, self.scrolling.y) }
    }

    /// Draws the widget itself.
    pub fn draw_all(&self, state: &mut DrawState, params: &DrawParams)
        requires
            old(state).transform_stack.wf(),
        ensures
            final(state).primitives@ == old(state).primitives@ + self.obj.primitives(
                Boundary::of(old(state).transform_stack@.last()),
            ),
            final(state).transform_stack == old(state).transform_stack,
    {
        self.obj.draw(state, params);
    }

    /// Draws the scrollbar handles over the current transform.
    pub fn draw_scrollbars(&self, state: &mut DrawState, params: &DrawParams, info: &ScrollbarInfo)
        requires
            old(state).transform_stack.wf(),
            self.wf(),
            info.wf(),
        ensures
            final(state).primitives@ == old(state).primitives@ + scrollbars(
                old(state).transform_stack@.last(),
                params.scroll,
                *info,
                self.scrolling,
            ),
            final(state).transform_stack == old(state).transform_stack,
    {
        let enabled_horiz = params.scroll.horiz;
        let enabled_vert = params.scroll.vert;
        let ghost start = state.primitives@;
        if !enabled_horiz && !enabled_vert {
            assert(state.primitives@ =~= start + scrollbars(
                state.transform_stack@.last(),
                params.scroll,
                *info,
                self.scrolling,
            ));
            return ;
        }
        let transform = *state.transform_stack.get();
        assert(transform.pos.within((state.transform_stack@.len() - 1) * LOCAL_LIMIT));
        let rect_params = drawing::Rectangle {
            color: Color::new(255, 255, 255, 0),
            color2: Color::new(0, 0, 0, 255),
            gradient: GradientMode::Solid,
            border: 2,
            border_color: Color::new(255, 255, 255, 255),
            round: UNIT,
        };
        if enabled_horiz && info.handle_size.x < UNIT {
            let track = scale(transform.dim.x, UNIT - info.handle_size.x);
            let pos = Vec2 {
                x: transform.pos.x + scale(track, self.scrolling.x),
                y: transform.pos.y + transform.dim.y - SCROLLBAR_THICKNESS - SCROLLBAR_MARGIN,
            };
            let size = Vec2 { x: scale(transform.dim.x, info.handle_size.x), y: SCROLLBAR_THICKNESS };
            state.primitives.push(
                RenderPrimitive::Rectangle(Boundary::from_pos_size(&pos, &size), rect_params),
            );
        }
        if enabled_vert && info.handle_size.y < UNIT {
            let track = scale(transform.dim.y, UNIT - info.handle_size.y);
            let pos = Vec2 {
                x: transform.pos.x + transform.dim.x - SCROLLBAR_THICKNESS - SCROLLBAR_MARGIN,
                y: transform.pos.y + scale(track, self.scrolling.y),
            };
            let size = Vec2 { x: SCROLLBAR_THICKNESS, y: scale(transform.dim.y, info.handle_size.y) };
            state.primitives.push(
                RenderPrimitive::Rectangle(Boundary::from_pos_size(&pos, &size), rect_params),
            );
        }
        assert(state.primitives@ =~= start + scrollbars(
            transform,
            params.scroll,
            *info,
            self.scrolling,
        ));
    }

    /// Whether the pointer came in, went out, or clicked with `event`.
    pub open spec fn entered(&self, event: Event, params: EventParams) -> bool {
        event.hits(params.transform) && !self.hovered
    }

    pub open spec fn left(&self, event: Event, params: EventParams) -> bool {
        !event.hits(params.transform) && self.hovered
    }

    /// A click is a release over the widget after a press on it.
    pub open spec fn clicked(&self, event: Event, params: EventParams) -> bool {
        event is MouseUp && self.pressed && event.hits(params.transform)
    }

    /// What the widget makes of `event`: it uses up a wheel event that it
    /// scrolls by, and passes everything else on.
    pub open spec fn outcome(event: Event, params: EventParams) -> EventResult {
        if event is MouseWheel && consumes_wheel(params.scroll, params.layout) {
            EventResult::Consumed
        } else {
            EventResult::Pass
        }
    }

    /// The state after `event`: hovered where the pointer is inside,
    /// pressed after a press inside and until the next release, scrolled by
    /// a wheel event that the widget uses up.
    pub open spec fn after(self, event: Event, params: EventParams) -> WidgetState {
        let hovered = event.hits(params.transform);
        WidgetState {
            hovered,
            pressed: match event {
                Event::MouseDown(_) => hovered || self.pressed,
                Event::MouseUp(_) => false,
                _ => self.pressed,
            },
            scrolling: match event {
                Event::MouseWheel(wheel) => if consumes_wheel(params.scroll, params.layout) {
                    scrolled(self.scrolling, wheel.shift, params.layout)
                } else {
                    self.scrolling
                },
                _ => self.scrolling,
            },
            event_listeners: self.event_listeners,
            obj: self.obj,
        }
    }

    /// The listeners that `event` fires, in registration order.
    pub open spec fn notified(
        &self,
        widget_id: Handle,
        node_id: u64,
        event: Event,
        params: EventParams,
    ) -> Seq<CallbackData> {
        fired(
            self.event_listeners@,
            self.entered(event, params),
            self.left(event, params),
            self.clicked(event, params),
            widget_id,
            node_id,
        )
    }

    fn process_wheel(&mut self, params: &EventParams, wheel: &MouseWheelEvent) -> (consumed: bool)
        requires
            old(self).wf(),
        ensures
            consumed == consumes_wheel(params.scroll, params.layout),
            final(self).wf(),
            final(self).scrolling == if consumed {
                scrolled(old(self).scrolling, wheel.shift, params.layout)
            } else {
                old(self).scrolling
            },
            final(self).hovered == old(self).hovered,
            final(self).pressed == old(self).pressed,
            final(self).event_listeners == old(self).event_listeners,
            final(self).obj == old(self).obj,
    {
        let l = &params.layout;
        if !((params.scroll.horiz && l.scroll_width > 0) || (params.scroll.vert && l.scroll_height
            > 0)) {
            return false;
        }
        let info = match get_scrollbar_info(l) {
            Some(info) => info,
            None => {
                return false;
            },
        };
        self.scrolling = Vec2 {
            x: scroll_axis(
                self.scrolling.x,
                wheel.shift.x,
                l.content_box_width,
                info.content_size.x,
                info.handle_size.x,
            ),
            y: scroll_axis(
                self.scrolling.y,
                wheel.shift.y,
                l.content_box_height,
                info.content_size.y,
                info.handle_size.y,
            ),
        };
        true
    }

    /// Takes `event` into the widget's state and appends to `fired` the
    /// listeners it fires.
    pub fn process_event(
        &mut self,
        widget_id: Handle,
        node_id: u64,
        event: &Event,
        params: &EventParams,
        fired: &mut Vec<CallbackData>,
    ) -> (result: EventResult)
        requires
            old(self).wf(),
        ensures
            *final(self) == old(self).after(*event, *params),
            final(self).wf(),
            final(fired)@ == old(fired)@ + old(self).notified(widget_id, node_id, *event, *params),
            result == WidgetState::outcome(*event, *params),
    {
        let hovered = event.test_mouse_within_transform(&params.transform);
        let mut just_clicked = false;
        let mut result = EventResult::Pass;
        match event {
            Event::MouseDown(_) => {
                if hovered {
                    self.pressed = true;
                }
            },
            Event::MouseUp(_) => {
                if self.pressed {
                    self.pressed = false;
                    just_clicked = hovered;
                }
            },
            Event::MouseWheel(e) => {
                if self.process_wheel(params, e) {
                    result = EventResult::Consumed;
                }
            },
            _ => {},
        }
        let entered = hovered && !self.hovered;
        let left = !hovered && self.hovered;
        let ghost start = fired@;
        let ghost listeners = self.event_listeners@;
        let mut i: usize = 0;
        while i < self.event_listeners.len()
            invariant
                i <= listeners.len(),
                self.event_listeners@ == listeners,
                fired@ == start + self::fired(
                    listeners.subrange(0, i as int),
                    entered,
                    left,
                    just_clicked,
                    widget_id,
                    node_id,
                ),
            decreases listeners.len() - i,
        {
            let ghost prefix = listeners.subrange(0, i as int + 1);
            proof {
                assert(prefix.drop_last() =~= listeners.subrange(0, i as int));
                assert(prefix.last() == listeners[i as int]);
            }
            let ghost before = fired@;
            match self.event_listeners[i] {
                EventListener::MouseEnter(callback) => {
                    if entered {
                        fired.push(CallbackData { callback, widget_id, node_id });
                    }
                },
                EventListener::MouseLeave(callback) => {
                    if left {
                        fired.push(CallbackData { callback, widget_id, node_id });
                    }
                },
                EventListener::MouseClick(callback) => {
                    if just_clicked {
                        fired.push(CallbackData { callback, widget_id, node_id });
                    }
                },
            }
            proof {
                assert(fired@ =~= start + self::fired(
                    prefix,
                    entered,
                    left,
                    just_clicked,
                    widget_id,
                    node_id,
                ));
            }
            i += 1;
        }
        proof {
            assert(listeners.subrange(0, i as int) =~= listeners);
        }
        if self.hovered != hovered {
            self.hovered = hovered;
        }
        result
    }
}


/// The records handed to the callbacks of `listeners`: one for each, in
/// their order.
pub open spec fn records(listeners: Seq<EventListener>, widget_id: Handle, node_id: u64) -> Seq<
    CallbackData,
> {
    listeners.map_values(
        |listener: EventListener|
            CallbackData { callback: listener.callback(), widget_id, node_id },
    )
}

/// The listeners for the pointer coming in.
pub open spec fn enter_listeners(listeners: Seq<EventListener>) -> Seq<EventListener> {
    listeners.filter(|listener: EventListener| listener is MouseEnter)
}

/// The listeners for the pointer going out.
pub open spec fn leave_listeners(listeners: Seq<EventListener>) -> Seq<EventListener> {
    listeners.filter(|listener: EventListener| listener is MouseLeave)
}

/// The listeners for a click.
pub open spec fn click_listeners(listeners: Seq<EventListener>) -> Seq<EventListener> {
    listeners.filter(|listener: EventListener| listener is MouseClick)
}

/// What fires is one record for each listener that `chosen` picks, in
/// registration order, where `chosen` picks the listeners that fire.
pub proof fn lemma_fired_is_filter(
    listeners: Seq<EventListener>,
    entered: bool,
    left: bool,
    clicked: bool,
    widget_id: Handle,
    node_id: u64,
    chosen: spec_fn(EventListener) -> bool,
)
    requires
        forall|listener: EventListener|
            chosen(listener) == fires(listener, entered, left, clicked),
    ensures
        fired(listeners, entered, left, clicked, widget_id, node_id) == records(
            listeners.filter(chosen),
            widget_id,
            node_id,
        ),
    decreases listeners.len(),
{
    reveal(Seq::filter);
    if listeners.len() > 0 {
        lemma_fired_is_filter(
            listeners.drop_last(),
            entered,
            left,
            clicked,
            widget_id,
            node_id,
            chosen,
        );
    }
    assert(fired(listeners, entered, left, clicked, widget_id, node_id) =~= records(
        listeners.filter(chosen),
        widget_id,
        node_id,
    ));
}

/// Where no listener fires, nothing is recorded.
pub proof fn lemma_fired_nothing(listeners: Seq<EventListener>, widget_id: Handle, node_id: u64)
    ensures
        fired(listeners, false, false, false, widget_id, node_id) == Seq::<CallbackData>::empty(),
    decreases listeners.len(),
{
    if listeners.len() > 0 {
        lemma_fired_nothing(listeners.drop_last(), widget_id, node_id);
    }
}

/// One step of a widget's history: an event, and what the widget is told
/// with it.
pub struct Step {
    pub event: Event,
    pub params: EventParams,
}

impl WidgetState {
    /// The state after the steps of `steps`, first to last.
    pub open spec fn after_all(self, steps: Seq<Step>) -> WidgetState
        decreases steps.len(),
    {
        if steps.len() == 0 {
            self
        } else {
            self.after_all(steps.drop_last()).after(steps.last().event, steps.last().params)
        }
    }

    /// The listeners that the steps of `steps` fire, in the order in which
    /// they do.
    pub open spec fn notified_all(self, widget_id: Handle, node_id: u64, steps: Seq<Step>) -> Seq<
        CallbackData,
    >
        decreases steps.len(),
    {
        if steps.len() == 0 {
            Seq::empty()
        } else {
            self.notified_all(widget_id, node_id, steps.drop_last()) + self.after_all(
                steps.drop_last(),
            ).notified(widget_id, node_id, steps.last().event, steps.last().params)
        }
    }
}

/// Every step of `steps` from `from` up to `to` is a pointer motion that is
/// inside the widget's transform if `inside`, and outside of it if not.
pub open spec fn motions(steps: Seq<Step>, from: int, to: int, inside: bool) -> bool {
    forall|k: int|
        from <= k < to ==> (#[trigger] steps[k]).event is MouseMotion && steps[k].event.hits(
            steps[k].params.transform,
        ) == inside
}

/// Pointer motions that stay on the side of the widget's edge where the
/// pointer already is fire nothing and leave the state as it is.
pub proof fn lemma_motions_stay(state: WidgetState, widget_id: Handle, node_id: u64, steps: Seq<Step>)
    requires
        motions(steps, 0, steps.len() as int, state.hovered),
    ensures
        state.after_all(steps) == state,
        state.notified_all(widget_id, node_id, steps) == Seq::<CallbackData>::empty(),
    decreases steps.len(),
{
    if steps.len() > 0 {
        let shorter = steps.drop_last();
        assert forall|k: int| 0 <= k < shorter.len() implies (#[trigger] shorter[k]).event is MouseMotion
            && shorter[k].event.hits(shorter[k].params.transform) == state.hovered by {
            assert(shorter[k] == steps[k]);
        }
        lemma_motions_stay(state, widget_id, node_id, shorter);
        let last = steps.last();
        assert(last == steps[steps.len() - 1]);
        lemma_fired_nothing(state.event_listeners@, widget_id, node_id);
        assert(state.notified_all(widget_id, node_id, steps) =~= Seq::<CallbackData>::empty());
    }
}

/// A history of two parts is the history of the first part followed by the
/// history of the second, taken from where the first ends.
pub proof fn lemma_history_splits(
    state: WidgetState,
    widget_id: Handle,
    node_id: u64,
    first: Seq<Step>,
    second: Seq<Step>,
)
    ensures
        state.after_all(first + second) == state.after_all(first).after_all(second),
        state.notified_all(widget_id, node_id, first + second) == state.notified_all(
            widget_id,
            node_id,
            first,
        ) + state.after_all(first).notified_all(widget_id, node_id, second),
    decreases second.len(),
{
    if second.len() == 0 {
        assert(first + second =~= first);
        assert(state.notified_all(widget_id, node_id, first) =~= state.notified_all(
            widget_id,
            node_id,
            first,
        ) + Seq::<CallbackData>::empty());
    } else {
        let whole = first + second;
        assert(whole.drop_last() =~= first + second.drop_last());
        assert(whole.last() == second.last());
        lemma_history_splits(state, widget_id, node_id, first, second.drop_last());
        let mid = state.after_all(first);
        assert(state.notified_all(widget_id, node_id, whole) =~= state.notified_all(
            widget_id,
            node_id,
            first,
        ) + mid.notified_all(widget_id, node_id, second));
    }
}

/// A history of one step is that step.
pub proof fn lemma_history_of_one(state: WidgetState, widget_id: Handle, node_id: u64, step: Step)
    ensures
        state.after_all(seq![step]) == state.after(step.event, step.params),
        state.notified_all(widget_id, node_id, seq![step]) == state.notified(
            widget_id,
            node_id,
            step.event,
            step.params,
        ),
{
    let one = seq![step];
    let none = one.drop_last();
    assert(none.len() == 0);
    assert(one.last() == step);
    assert(state.after_all(none) == state);
    assert(state.notified_all(widget_id, node_id, none) == Seq::<CallbackData>::empty());
    assert(state.notified_all(widget_id, node_id, one) =~= state.notified(
        widget_id,
        node_id,
        step.event,
        step.params,
    ));
}

/// A pointer that moves into a widget and out again fires each enter
/// listener once, then each leave listener once, and nothing else: however
/// many motions there are before it comes in, while it is inside, and after
/// it has gone out.
pub proof fn lemma_enter_then_leave(
    state: WidgetState,
    widget_id: Handle,
    node_id: u64,
    steps: Seq<Step>,
    comes_in: int,
    goes_out: int,
)
    requires
        !state.hovered,
        0 <= comes_in < goes_out < steps.len(),
        motions(steps, 0, comes_in, false),
        motions(steps, comes_in, goes_out, true),
        motions(steps, goes_out, steps.len() as int, false),
    ensures
        state.notified_all(widget_id, node_id, steps) == records(
            enter_listeners(state.event_listeners@),
            widget_id,
            node_id,
        ) + records(leave_listeners(state.event_listeners@), widget_id, node_id),
        !state.after_all(steps).hovered,
{
    let n = steps.len() as int;
    let before = steps.subrange(0, comes_in);
    let entry = steps.subrange(comes_in, comes_in + 1);
    let within = steps.subrange(comes_in + 1, goes_out);
    let exit = steps.subrange(goes_out, goes_out + 1);
    let beyond = steps.subrange(goes_out + 1, n);
    let listeners = state.event_listeners@;
    let none = Seq::<CallbackData>::empty();
    let enters = records(enter_listeners(listeners), widget_id, node_id);
    let leaves = records(leave_listeners(listeners), widget_id, node_id);

    // before the pointer comes in
    lemma_motions_stay(state, widget_id, node_id, before);

    // the motion that brings it in
    let step_in = steps[comes_in];
    assert(entry =~= seq![step_in]);
    lemma_history_of_one(state, widget_id, node_id, step_in);
    lemma_fired_is_filter(
        listeners,
        true,
        false,
        false,
        widget_id,
        node_id,
        |listener: EventListener| listener is MouseEnter,
    );
    let inside = state.after(step_in.event, step_in.params);
    assert(state.after_all(entry) == inside);
    assert(state.notified_all(widget_id, node_id, entry) =~= enters);

    // while it is inside
    lemma_motions_stay(inside, widget_id, node_id, within);

    // the motion that takes it out
    let step_out = steps[goes_out];
    assert(exit =~= seq![step_out]);
    lemma_fired_is_filter(
        listeners,
        false,
        true,
        false,
        widget_id,
        node_id,
        |listener: EventListener| listener is MouseLeave,
    );
    let outside = inside.after(step_out.event, step_out.params);
    lemma_history_of_one(inside, widget_id, node_id, step_out);
    assert(inside.after_all(exit) == outside);
    assert(inside.notified_all(widget_id, node_id, exit) =~= leaves);

    // after it has gone out
    lemma_motions_stay(outside, widget_id, node_id, beyond);

    // the parts in a row
    let one = before + entry;
    let two = one + within;
    let three = two + exit;
    assert(three + beyond =~= steps);
    lemma_history_splits(state, widget_id, node_id, before, entry);
    lemma_history_splits(state, widget_id, node_id, one, within);
    lemma_history_splits(state, widget_id, node_id, two, exit);
    lemma_history_splits(state, widget_id, node_id, three, beyond);
    assert(state.notified_all(widget_id, node_id, one) =~= enters);
    assert(state.notified_all(widget_id, node_id, two) =~= enters);
    assert(state.notified_all(widget_id, node_id, three) =~= enters + leaves);
    assert(state.notified_all(widget_id, node_id, steps) =~= enters + leaves);
}

/// A press inside a widget followed by a release outside of it fires no
/// click listener: the release fires the leave listeners and nothing else.
pub proof fn lemma_release_outside_is_no_click(
    state: WidgetState,
    widget_id: Handle,
    node_id: u64,
    down: Step,
    up: Step,
)
    requires
        down.event is MouseDown,
        down.event.hits(down.params.transform),
        up.event is MouseUp,
        !up.event.hits(up.params.transform),
    ensures
        !state.clicked(down.event, down.params),
        !state.after(down.event, down.params).clicked(up.event, up.params),
        state.after(down.event, down.params).notified(widget_id, node_id, up.event, up.params)
            == records(leave_listeners(state.event_listeners@), widget_id, node_id),
        !state.after(down.event, down.params).after(up.event, up.params).pressed,
{
    lemma_fired_is_filter(
        state.event_listeners@,
        false,
        true,
        false,
        widget_id,
        node_id,
        |listener: EventListener| listener is MouseLeave,
    );
}

/// A press inside a widget followed by a release inside of it fires each
/// click listener once, and nothing else; the press itself fires no click
/// listener, and a second release fires none either.
pub proof fn lemma_press_and_release_is_one_click(
    state: WidgetState,
    widget_id: Handle,
    node_id: u64,
    down: Step,
    up: Step,
    again: Step,
)
    requires
        down.event is MouseDown,
        down.event.hits(down.params.transform),
        up.event is MouseUp,
        up.event.hits(up.params.transform),
        again.event is MouseUp,
    ensures
        !state.clicked(down.event, down.params),
        state.after(down.event, down.params).pressed,
        state.after(down.event, down.params).notified(widget_id, node_id, up.event, up.params)
            == records(click_listeners(state.event_listeners@), widget_id, node_id),
        !state.after(down.event, down.params).after(up.event, up.params).clicked(
            again.event,
            again.params,
        ),
{
    lemma_fired_is_filter(
        state.event_listeners@,
        false,
        false,
        true,
        widget_id,
        node_id,
        |listener: EventListener| listener is MouseClick,
    );
}


/// Where a widget scrolls on the vertical axis and its content overflows
/// there, a wheel event is used up and moves the offset by the shift, in
/// steps of [`SCROLL_STEP`] pixels over the distance that the content
/// overflows by: down towards one where the shift is negative, up towards
/// zero where it is positive, never beyond either.
pub proof fn lemma_wheel_scrolls(state: WidgetState, wheel: MouseWheelEvent, params: EventParams)
    requires
        state.wf(),
        params.scroll.vert,
        params.layout.scroll_height > 0,
        params.layout.content_height > params.layout.content_box_height,
        params.layout.content_height > 0,
    ensures
        WidgetState::outcome(Event::MouseWheel(wheel), params) == EventResult::Consumed,
        state.after(Event::MouseWheel(wheel), params).scrolling.y == clamped(
            state.scrolling.y + div_trunc(
                wheel.shift.y * SCROLL_STEP,
                params.layout.content_box_height - params.layout.content_height,
            ),
            0,
            UNIT as int,
        ),
        0 <= state.after(Event::MouseWheel(wheel), params).scrolling.y <= UNIT,
        wheel.shift.y <= 0 ==> state.after(Event::MouseWheel(wheel), params).scrolling.y
            >= state.scrolling.y,
        wheel.shift.y >= 0 ==> state.after(Event::MouseWheel(wheel), params).scrolling.y
            <= state.scrolling.y,
{
    let l = params.layout;
    lemma_handle_ratio(l.content_height as int, l.scroll_height as int);
    let span = l.content_height - l.content_box_height;
    let push = wheel.shift.y * SCROLL_STEP;
    if wheel.shift.y <= 0 {
        assert((-push) / span >= 0) by (nonlinear_arith)
            requires
                -push >= 0,
                span > 0,
        ;
        assert(push == 0 ==> push / span == 0) by (nonlinear_arith)
            requires
                span > 0,
        ;
    }
    if wheel.shift.y >= 0 {
        assert(push / span >= 0) by (nonlinear_arith)
            requires
                push >= 0,
                span > 0,
        ;
    }
}

/// Where the content overflows by all that is not visible, the handle of
/// the scrollbar is as long as the visible share of the content.
pub proof fn lemma_handle_is_visible_share(content: int, visible: int)
    requires
        0 < visible < content,
    ensures
        handle_ratio(content, content - visible) == visible * UNIT / content,
        0 <= handle_ratio(content, content - visible) < UNIT,
{
    lemma_handle_ratio(content, content - visible);
}

} // verus!
