//! Positions, sizes and the stack of absolute transforms that a tree
//! traversal keeps while it descends.

use vstd::prelude::*;

verus! {

/// A pair of pixel coordinates, or of lengths.
#[derive(Clone, Copy, PartialEq, Eq, Structural, Debug)]
pub struct Vec2 {
    pub x: i64,
    pub y: i64,
}

impl Vec2 {
    pub fn new(x: i64, y: i64) -> (v: Vec2)
        ensures
            v.x == x,
            v.y == y,
    {
        Vec2 { x, y }
    }

    pub fn zero() -> (v: Vec2)
        ensures
            v.x == 0,
            v.y == 0,
    {
        Vec2 { x: 0, y: 0 }
    }

    /// Both coordinates lie within `limit` of zero.
    pub open spec fn within(self, limit: int) -> bool {
        -limit <= self.x <= limit && -limit <= self.y <= limit
    }
}

/// Largest magnitude of a coordinate that one transform may carry.
pub const LOCAL_LIMIT: i64 = 0x4_0000_0000;

/// Number of frames the stack holds, the root frame included.
pub const TRANSFORM_STACK_MAX: usize = 32;

/// A position and a size. On the stack the position is absolute; handed to
/// [`TransformStack::push`] it is relative to the parent.
#[derive(Clone, Copy, PartialEq, Eq, Structural, Debug)]
pub struct Transform {
    pub pos: Vec2,
    pub dim: Vec2,
}

impl Transform {
    /// A transform at `pos` with no extent.
    pub fn pos(pos: Vec2) -> (t: Transform)
        ensures
            t.pos == pos,
            t.dim == (Vec2 { x: 0, y: 0 }),
    {
        Transform { pos, dim: Vec2 { x: 0, y: 0 } }
    }

    /// The transform fits the limits of one tree level.
    pub open spec fn local(self) -> bool {
        self.pos.within(LOCAL_LIMIT as int) && self.dim.within(LOCAL_LIMIT as int)
    }

    /// `self` taken relative to `parent`: positions add up, the size is
    /// `self`'s own.
    pub open spec fn under(self, parent: Transform) -> Transform {
        Transform {
            pos: Vec2 { x: (parent.pos.x + self.pos.x) as i64, y: (parent.pos.y + self.pos.y) as i64 },
            dim: self.dim,
        }
    }
}

/// The frame every stack starts with: the origin, with no extent.
pub open spec fn root_frame() -> Transform {
    Transform { pos: Vec2 { x: 0, y: 0 }, dim: Vec2 { x: 0, y: 0 } }
}

/// Bounded stack of absolute transforms. The first frame is the implicit
/// root frame, which is never popped.
pub struct TransformStack {
    stack: Vec<Transform>,
}

impl View for TransformStack {
    type V = Seq<Transform>;

    /// The frames, root frame first.
    closed spec fn view(&self) -> Seq<Transform> {
        self.stack@
    }
}

impl TransformStack {
    /// There is a root frame, the depth is within the bound, and a frame's
    /// coordinates stay within what its depth allows.
    pub open spec fn wf(&self) -> bool {
        &&& 1 <= self@.len() <= TRANSFORM_STACK_MAX
        &&& forall|k: int|
            0 <= k < self@.len() ==> (#[trigger] self@[k]).pos.within(k * LOCAL_LIMIT)
                && self@[k].dim.within(LOCAL_LIMIT as int)
    }

    /// Number of transforms pushed and not yet popped.
    pub open spec fn depth(&self) -> int {
        self@.len() - 1
    }

    pub fn new() -> (s: Self)
        ensures
            s.wf(),
            s@ == seq![root_frame()],
    {
        let mut stack = Vec::new();
        stack.push(Transform { pos: Vec2 { x: 0, y: 0 }, dim: Vec2 { x: 0, y: 0 } });
        TransformStack { stack }
    }

    /// Whether one more transform can be pushed.
    pub fn has_room(&self) -> (ok: bool)
        requires
            self.wf(),
        ensures
            ok == (self@.len() < TRANSFORM_STACK_MAX),
    {
        self.stack.len() < TRANSFORM_STACK_MAX
    }

    /// Pushes `t` taken relative to the current top.
    pub fn push(&mut self, t: Transform)
        requires
            old(self).wf(),
            old(self)@.len() < TRANSFORM_STACK_MAX,
            t.local(),
        ensures
            final(self).wf(),
            final(self)@ == old(self)@.push(t.under(old(self)@.last())),
    {
        let parent = self.stack[self.stack.len() - 1];
        assert(parent.pos.within((self@.len() - 1) * LOCAL_LIMIT));
        let abs = Transform {
            pos: Vec2 { x: parent.pos.x + t.pos.x, y: parent.pos.y + t.pos.y },
            dim: t.dim,
        };
        self.stack.push(abs);
    }

    /// Removes the top transform; the root frame stays.
    pub fn pop(&mut self)
        requires
            old(self).wf(),
            old(self)@.len() > 1,
        ensures
            final(self).wf(),
            final(self)@ == old(self)@.drop_last(),
    {
        self.stack.pop();
    }

    /// The current absolute transform.
    pub fn get(&self) -> (t: &Transform)
        requires
            self.wf(),
        ensures
            *t == self@.last(),
    {
        &self.stack[self.stack.len() - 1]
    }

    /// The current absolute position.
    pub fn get_pos(&self) -> (p: Vec2)
        requires
            self.wf(),
        ensures
            p == self@.last().pos,
    {
        self.stack[self.stack.len() - 1].pos
    }
}

impl Default for TransformStack {
    fn default() -> (s: Self)
        ensures
            s.wf(),
            s@ == seq![root_frame()],
    {
        TransformStack::new()
    }
}

/// Pushing and then popping gives the stack back as it was.
pub proof fn lemma_push_pop(frames: Seq<Transform>, t: Transform)
    ensures
        frames.push(t).drop_last() == frames,
{
    assert(frames.push(t).drop_last() =~= frames);
}

} // verus!
