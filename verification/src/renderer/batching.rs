//! Batching of queued draw commands into GPU draw calls.
//!
//! A batch is a list of commands: quads to draw, and clip rectangles pushed and popped around
//! them. Flushing it groups consecutive quads that share a material, a texture and a clip
//! rectangle into one draw call over a range of the element buffer, six elements (two
//! triangles) per quad. Materials and textures are named by the keys under which the renderer
//! keeps them; a texture key comes with whether that texture has a white pixel, which solid
//! quads are drawn with.
//!
//! What a quad looks like (its size, color, transform and texture coordinates) is the
//! renderer's business; the batch only decides how quads are grouped and in what order they
//! are drawn.

use vstd::prelude::*;

verus! {

/// A point or a size in window pixels.
#[derive(Copy, Clone, Debug, PartialEq, Eq, Structural)]
pub struct Vec2i {
    pub x: i32,
    pub y: i32,
}

/// A clip rectangle, from `min` (inclusive) to `max`, in window pixels.
#[derive(Copy, Clone, Debug, PartialEq, Eq, Structural)]
pub struct ClipRect {
    pub min: Vec2i,
    pub max: Vec2i,
}

/// A texture, by key, with whether it has a white pixel.
#[derive(Copy, Clone, Debug, PartialEq, Eq, Structural)]
pub struct TextureKey {
    pub key: usize,
    pub white_pixel: bool,
}

/// A queued command.
#[derive(Copy, Clone, Debug, PartialEq, Eq, Structural)]
pub enum BatchCommand {
    /// A quad, with its material (the default one when `None`) and its texture (when `None`,
    /// the texture of the quad before it if that has a white pixel, else the default texture).
    /// A solid quad is drawn with the white pixel of its texture.
    Draw { material: Option<usize>, texture: Option<TextureKey>, solid: bool },
    /// Clips what follows to `min..max`, intersected with the current clip rectangle when
    /// `intersect` is set and there is one.
    PushClip { min: Vec2i, max: Vec2i, intersect: bool },
    /// Restores the clip rectangle of before the last push.
    PopClip,
}

/// One GPU draw call: `count` elements from `start`, with one material, texture and clip
/// rectangle.
#[derive(Copy, Clone, Debug, PartialEq, Eq, Structural)]
pub struct DrawCall {
    pub material: usize,
    pub texture: usize,
    pub clip: Option<ClipRect>,
    pub start: usize,
    pub count: usize,
}

/// A quad as flushing sees it: what it is drawn with, and whether it opens a new draw call.
#[derive(Copy, Clone, Debug, PartialEq, Eq, Structural)]
pub struct Quad {
    pub material: usize,
    pub texture: TextureKey,
    pub clip: Option<ClipRect>,
    pub solid: bool,
    pub new_call: bool,
}

/// What flushing knows after a prefix of the commands: the quads so far, the clip stack, the
/// material and texture of the current draw call, and whether the last command was a quad.
pub struct FlushModel {
    pub quads: Seq<Quad>,
    pub stack: Seq<ClipRect>,
    pub material: usize,
    pub texture: TextureKey,
    pub after_draw: bool,
}

/// The top of a clip stack, if any.
pub open spec fn top_clip(stack: Seq<ClipRect>) -> Option<ClipRect> {
    if stack.len() > 0 {
        Some(stack.last())
    } else {
        None
    }
}

pub open spec fn max_i32(a: i32, b: i32) -> i32 {
    if a >= b { a } else { b }
}

pub open spec fn min_i32(a: i32, b: i32) -> i32 {
    if a <= b { a } else { b }
}

/// The rectangle a push leaves on top of `stack`.
pub open spec fn pushed_clip(stack: Seq<ClipRect>, min: Vec2i, max: Vec2i, intersect: bool) -> ClipRect {
    if intersect && stack.len() > 0 {
        let top = stack.last();
        ClipRect {
            min: Vec2i { x: max_i32(min.x, top.min.x), y: max_i32(min.y, top.min.y) },
            max: Vec2i { x: min_i32(max.x, top.max.x), y: min_i32(max.y, top.max.y) },
        }
    } else {
        ClipRect { min, max }
    }
}

/// The texture a quad is drawn with.
pub open spec fn chosen_texture(texture: Option<TextureKey>, current: TextureKey, default_texture: TextureKey) -> TextureKey {
    match texture {
        Some(t) => t,
        None => if current.white_pixel { current } else { default_texture },
    }
}

/// The flushing state after the commands `cmds`, in order.
pub open spec fn flush_model(cmds: Seq<BatchCommand>, default_material: usize, default_texture: TextureKey) -> FlushModel
    decreases cmds.len(),
{
    if cmds.len() == 0 {
        FlushModel {
            quads: Seq::empty(),
            stack: Seq::empty(),
            material: default_material,
            texture: default_texture,
            after_draw: false,
        }
    } else {
        let m = flush_model(cmds.drop_last(), default_material, default_texture);
        match cmds.last() {
            BatchCommand::Draw { material, texture, solid } => {
                let mat = match material {
                    Some(k) => k,
                    None => default_material,
                };
                let tex = chosen_texture(texture, m.texture, default_texture);
                let new_call = m.quads.len() == 0 || !m.after_draw || mat != m.material || tex.key != m.texture.key;
                FlushModel {
                    quads: m.quads.push(Quad { material: mat, texture: tex, clip: top_clip(m.stack), solid, new_call }),
                    stack: m.stack,
                    material: mat,
                    texture: tex,
                    after_draw: true,
                }
            },
            BatchCommand::PushClip { min, max, intersect } => FlushModel {
                quads: m.quads,
                stack: m.stack.push(pushed_clip(m.stack, min, max, intersect)),
                material: m.material,
                texture: m.texture,
                after_draw: false,
            },
            BatchCommand::PopClip => FlushModel {
                quads: m.quads,
                stack: m.stack.drop_last(),
                material: m.material,
                texture: m.texture,
                after_draw: false,
            },
        }
    }
}

/// The draw calls of a run of quads: a quad that opens a new call starts one at its first
/// element, any other joins the call before it.
pub open spec fn group_calls(quads: Seq<Quad>) -> Seq<DrawCall>
    decreases quads.len(),
{
    if quads.len() == 0 {
        Seq::empty()
    } else {
        let prev = group_calls(quads.drop_last());
        let q = quads.last();
        if q.new_call || prev.len() == 0 {
            prev.push(DrawCall {
                material: q.material,
                texture: q.texture.key,
                clip: q.clip,
                start: (6 * (quads.len() - 1)) as usize,
                count: 6,
            })
        } else {
            let last = prev.last();
            prev.update(prev.len() - 1, DrawCall { count: (last.count + 6) as usize, ..last })
        }
    }
}

/// Whether flushing `cmds` can go through: no pop without a push, a white pixel under every
/// solid quad, and element indices and offsets that fit their integer types.
pub open spec fn flushable(cmds: Seq<BatchCommand>, default_material: usize, default_texture: TextureKey) -> bool {
    let quads = flush_model(cmds, default_material, default_texture).quads;
    &&& forall|k: int| 0 <= k < cmds.len() && #[trigger] cmds[k] is PopClip
        ==> flush_model(cmds.take(k), default_material, default_texture).stack.len() > 0
    &&& forall|q: int| 0 <= q < quads.len() && (#[trigger] quads[q]).solid ==> quads[q].texture.white_pixel
    &&& 4 * quads.len() <= u32::MAX
    &&& 6 * quads.len() <= usize::MAX
}

/// Which corner of its quad the `j`-th element of the quad is: the triangles `0, 1, 2` and
/// `2, 3, 0`.
pub open spec fn corner(j: int) -> int {
    if j == 0 || j == 5 { 0 } else if j == 1 { 1 } else if j == 2 || j == 3 { 2 } else { 3 }
}

/// Element `i` of the element buffer: a corner of quad `i / 6`, whose four vertices are
/// numbered from `4 * (i / 6)`.
pub open spec fn element(i: int) -> int {
    4 * (i / 6) + corner(i % 6)
}

/// The draw calls, the texture of each quad, and the element buffer of a flushed batch.
pub struct DrawPlan {
    pub calls: Vec<DrawCall>,
    pub textures: Vec<usize>,
    pub elements: Vec<u32>,
}

/// A list of queued commands.
pub struct Batch {
    cmds: Vec<BatchCommand>,
}

impl View for Batch {
    type V = Seq<BatchCommand>;

    closed spec fn view(&self) -> Seq<BatchCommand> {
        self.cmds@
    }
}

impl Batch {
    pub fn new() -> (r: Batch)
        ensures
            r@ == Seq::<BatchCommand>::empty(),
    {
        Batch { cmds: Vec::new() }
    }

    /// The queued commands, in order.
    pub fn commands(&self) -> (r: &Vec<BatchCommand>)
        ensures
            r@ == self@,
    {
        &self.cmds
    }

    /// Queues a solid quad, drawn with the default material and a white pixel.
    pub fn queue_draw_solid(&mut self)
        ensures
            final(self)@ == old(self)@.push(BatchCommand::Draw { material: None, texture: None, solid: true }),
    {
        self.cmds.push(BatchCommand::Draw { material: None, texture: None, solid: true });
    }

    /// Queues a quad of `texture`, drawn with the default material.
    pub fn queue_draw_sprite(&mut self, texture: TextureKey)
        ensures
            final(self)@ == old(self)@.push(BatchCommand::Draw { material: None, texture: Some(texture), solid: false }),
    {
        self.cmds.push(BatchCommand::Draw { material: None, texture: Some(texture), solid: false });
    }

    /// Clips what follows to the rectangle at `pos` of `size`. `requires` asks that the
    /// size not be negative and the far corner stay within `i32::MAX`.
    pub fn push_clip(&mut self, pos: Vec2i, size: Vec2i)
        requires
            size.x >= 0,
            size.y >= 0,
            pos.x + size.x <= i32::MAX,
            pos.y + size.y <= i32::MAX,
        ensures
            final(self)@ == old(self)@.push(BatchCommand::PushClip {
                min: pos,
                max: Vec2i { x: (pos.x + size.x) as i32, y: (pos.y + size.y) as i32 },
                intersect: false,
            }),
    {
        let max = Vec2i { x: pos.x + size.x, y: pos.y + size.y };
        self.cmds.push(BatchCommand::PushClip { min: pos, max, intersect: false });
    }

    /// Restores the clip rectangle of before the last push.
    pub fn pop_clip(&mut self)
        ensures
            final(self)@ == old(self)@.push(BatchCommand::PopClip),
    {
        self.cmds.push(BatchCommand::PopClip);
    }
}

/// Closes the current draw call: it joins `draw_calls` if it has elements, and the next one
/// starts where it ends.
pub fn add_draw_call(draw_call: &mut DrawCall, draw_calls: &mut Vec<DrawCall>)
    requires
        old(draw_call).start + old(draw_call).count <= usize::MAX,
    ensures
        final(draw_calls)@ == if old(draw_call).count != 0 {
            old(draw_calls)@.push(*old(draw_call))
        } else {
            old(draw_calls)@
        },
        *final(draw_call) == (DrawCall {
            start: (old(draw_call).start + old(draw_call).count) as usize,
            count: 0,
            ..*old(draw_call)
        }),
{
    if draw_call.count != 0 {
        draw_calls.push(*draw_call);
        draw_call.start = draw_call.start + draw_call.count;
        draw_call.count = 0;
    }
}

/// Whether a quad that does not open a new draw call is drawn like the quad before it.
pub open spec fn quads_consistent(quads: Seq<Quad>) -> bool {
    forall|q: int| 0 < q < quads.len() && !(#[trigger] quads[q]).new_call ==> {
        &&& quads[q].material == quads[q - 1].material
        &&& quads[q].texture.key == quads[q - 1].texture.key
        &&& quads[q].clip == quads[q - 1].clip
    }
}

/// Whether `calls` cover `n` quads in order and without gaps: six elements per quad, each
/// call non-empty, the first from element zero and each from where the one before it ends.
pub open spec fn calls_contiguous(calls: Seq<DrawCall>, n: int) -> bool {
    &&& (calls.len() == 0) == (n == 0)
    &&& calls.len() > 0 ==> calls[0].start == 0
    &&& calls.len() > 0 ==> calls.last().start + calls.last().count == 6 * n
    &&& forall|c: int| 0 <= c < calls.len() ==> {
        &&& (#[trigger] calls[c]).count > 0
        &&& calls[c].count % 6 == 0
        &&& calls[c].start % 6 == 0
        &&& c + 1 < calls.len() ==> calls[c + 1].start == calls[c].start + calls[c].count
    }
}

/// Whether each call of `calls` has the material, texture and clip of the quads it covers,
/// and begins exactly at the first quad and at each quad that opens a call.
pub open spec fn calls_match(calls: Seq<DrawCall>, quads: Seq<Quad>) -> bool {
    forall|c: int, q: int|
        0 <= c < calls.len() && 0 <= q < quads.len() && calls[c].start <= 6 * q < calls[c].start + calls[c].count
            ==> {
            &&& (#[trigger] calls[c]).material == (#[trigger] quads[q]).material
            &&& calls[c].texture == quads[q].texture.key
            &&& calls[c].clip == quads[q].clip
            &&& (6 * q == calls[c].start) == (q == 0 || quads[q].new_call)
        }
}

/// Whether `calls` draw `quads`.
pub open spec fn calls_cover(calls: Seq<DrawCall>, quads: Seq<Quad>) -> bool {
    calls_contiguous(calls, quads.len() as int) && calls_match(calls, quads)
}

#[verifier::spinoff_prover]
proof fn lemma_group_contiguous(quads: Seq<Quad>)
    requires
        6 * quads.len() <= usize::MAX,
    ensures
        calls_contiguous(group_calls(quads), quads.len() as int),
    decreases quads.len(),
{
    if quads.len() > 0 {
        let n = quads.len() - 1;
        let rest = quads.drop_last();
        lemma_group_contiguous(rest);
        let prev = group_calls(rest);
        let calls = group_calls(quads);
        if quads.last().new_call || prev.len() == 0 {
            assert((6 * n) % 6 == 0) by (nonlinear_arith) requires n >= 0;
            assert(calls.len() == prev.len() + 1);
            assert forall|c: int| 0 <= c < calls.len() implies {
                &&& (#[trigger] calls[c]).count > 0
                &&& calls[c].count % 6 == 0
                &&& calls[c].start % 6 == 0
                &&& c + 1 < calls.len() ==> calls[c + 1].start == calls[c].start + calls[c].count
            } by {
                if c < prev.len() {
                    assert(calls[c] == prev[c]);
                    if c + 1 < prev.len() {
                        assert(calls[c + 1] == prev[c + 1]);
                    }
                }
            }
        } else {
            let lc = prev.last();
            assert((lc.count + 6) % 6 == 0) by (nonlinear_arith) requires lc.count % 6 == 0;
            assert(calls.len() == prev.len());
            assert forall|c: int| 0 <= c < calls.len() implies {
                &&& (#[trigger] calls[c]).count > 0
                &&& calls[c].count % 6 == 0
                &&& calls[c].start % 6 == 0
                &&& c + 1 < calls.len() ==> calls[c + 1].start == calls[c].start + calls[c].count
            } by {
                if c < calls.len() - 1 {
                    assert(calls[c] == prev[c]);
                }
            }
        }
    }
}

/// A quad past the end of `calls` lies in none of them.
proof fn lemma_past_calls(calls: Seq<DrawCall>, n: int, c: int)
    requires
        calls_contiguous(calls, n),
        0 <= c < calls.len(),
    ensures
        calls[c].start + calls[c].count <= 6 * n,
        c < calls.len() - 1 ==> calls[c].start + calls[c].count <= calls.last().start,
{
    lemma_calls_end(calls, c);
}

proof fn lemma_group_match(quads: Seq<Quad>)
    requires
        quads_consistent(quads),
        6 * quads.len() <= usize::MAX,
    ensures
        calls_match(group_calls(quads), quads),
    decreases quads.len(),
{
    if quads.len() > 0 {
        let rest = quads.drop_last();
        assert(quads_consistent(rest)) by {
            assert forall|q: int| 0 < q < rest.len() && !(#[trigger] rest[q]).new_call implies {
                &&& rest[q].material == rest[q - 1].material
                &&& rest[q].texture.key == rest[q - 1].texture.key
                &&& rest[q].clip == rest[q - 1].clip
            } by {
                assert(rest[q] == quads[q]);
                assert(rest[q - 1] == quads[q - 1]);
            }
        }
        lemma_group_match(rest);
        lemma_group_contiguous(rest);
        if quads.last().new_call || group_calls(rest).len() == 0 {
            lemma_match_push(quads);
        } else {
            lemma_match_extend(quads);
        }
    }
}

#[verifier::spinoff_prover]
proof fn lemma_match_push(quads: Seq<Quad>)
    requires
        quads.len() > 0,
        calls_match(group_calls(quads.drop_last()), quads.drop_last()),
        calls_contiguous(group_calls(quads.drop_last()), quads.len() - 1),
        quads.last().new_call || group_calls(quads.drop_last()).len() == 0,
        6 * quads.len() <= usize::MAX,
    ensures
        calls_match(group_calls(quads), quads),
{
    let n = quads.len() - 1;
    let rest = quads.drop_last();
    let prev = group_calls(rest);
    let calls = group_calls(quads);
    assert forall|c: int, q: int|
        0 <= c < calls.len() && 0 <= q < quads.len() && calls[c].start <= 6 * q < calls[c].start + calls[c].count
            implies {
            &&& (#[trigger] calls[c]).material == (#[trigger] quads[q]).material
            &&& calls[c].texture == quads[q].texture.key
            &&& calls[c].clip == quads[q].clip
            &&& (6 * q == calls[c].start) == (q == 0 || quads[q].new_call)
        } by {
        if c < prev.len() {
            assert(calls[c] == prev[c]);
            lemma_past_calls(prev, n, c);
            assert(quads[q] == rest[q]);
        }
    }
}

#[verifier::spinoff_prover]
proof fn lemma_match_extend(quads: Seq<Quad>)
    requires
        quads.len() > 0,
        quads_consistent(quads),
        calls_match(group_calls(quads.drop_last()), quads.drop_last()),
        calls_contiguous(group_calls(quads.drop_last()), quads.len() - 1),
        !quads.last().new_call,
        group_calls(quads.drop_last()).len() > 0,
        6 * quads.len() <= usize::MAX,
    ensures
        calls_match(group_calls(quads), quads),
{
    let n = quads.len() - 1;
    let rest = quads.drop_last();
    let prev = group_calls(rest);
    let calls = group_calls(quads);
    let lc = prev.last();
    assert(n > 0);
    assert(lc.start <= 6 * (n - 1)) by {
        assert(lc.start % 6 == 0);
        assert(lc.count > 0);
        assert(lc.count % 6 == 0);
    }
    assert(prev[prev.len() - 1].material == rest[n - 1].material);
    assert forall|c: int, q: int|
        0 <= c < calls.len() && 0 <= q < quads.len() && calls[c].start <= 6 * q < calls[c].start + calls[c].count
            implies {
            &&& (#[trigger] calls[c]).material == (#[trigger] quads[q]).material
            &&& calls[c].texture == quads[q].texture.key
            &&& calls[c].clip == quads[q].clip
            &&& (6 * q == calls[c].start) == (q == 0 || quads[q].new_call)
        } by {
        if c < prev.len() - 1 {
            assert(calls[c] == prev[c]);
            lemma_past_calls(prev, n, c);
            assert(quads[q] == rest[q]);
        } else if q < n {
            assert(quads[q] == rest[q]);
        } else {
            assert(rest[n - 1] == quads[n - 1]);
        }
    }
}

/// A call of `calls` ends no later than where the last one starts, when it comes before it.
proof fn lemma_calls_end(calls: Seq<DrawCall>, c: int)
    requires
        0 <= c < calls.len(),
        forall|i: int| 0 <= i < calls.len() ==> {
            &&& (#[trigger] calls[i]).count > 0
            &&& i + 1 < calls.len() ==> calls[i + 1].start == calls[i].start + calls[i].count
        },
    ensures
        calls[c].start + calls[c].count <= calls.last().start + calls.last().count,
        c < calls.len() - 1 ==> calls[c].start + calls[c].count <= calls.last().start,
    decreases calls.len() - c,
{
    if c < calls.len() - 1 {
        lemma_calls_end(calls, c + 1);
        assert(calls[c + 1].start == calls[c].start + calls[c].count);
    }
}

/// The quads of a flush are drawn like the quad before them unless they open a new call.
proof fn lemma_flush_consistent(cmds: Seq<BatchCommand>, dm: usize, dt: TextureKey)
    ensures
        quads_consistent(flush_model(cmds, dm, dt).quads),
        flush_model(cmds, dm, dt).quads.len() > 0 ==> {
            &&& flush_model(cmds, dm, dt).quads.last().material == flush_model(cmds, dm, dt).material
            &&& flush_model(cmds, dm, dt).quads.last().texture == flush_model(cmds, dm, dt).texture
        },
        flush_model(cmds, dm, dt).after_draw ==> {
            &&& flush_model(cmds, dm, dt).quads.len() > 0
            &&& flush_model(cmds, dm, dt).quads.last().clip == top_clip(flush_model(cmds, dm, dt).stack)
        },
    decreases cmds.len(),
{
    if cmds.len() > 0 {
        lemma_flush_consistent(cmds.drop_last(), dm, dt);
        let m = flush_model(cmds.drop_last(), dm, dt);
        let m2 = flush_model(cmds, dm, dt);
        if cmds.last() is Draw {
            assert forall|q: int| 0 < q < m2.quads.len() && !(#[trigger] m2.quads[q]).new_call implies {
                &&& m2.quads[q].material == m2.quads[q - 1].material
                &&& m2.quads[q].texture.key == m2.quads[q - 1].texture.key
                &&& m2.quads[q].clip == m2.quads[q - 1].clip
            } by {
                assert(m2.quads[q - 1] == m.quads[q - 1]);
                if q < m.quads.len() {
                    assert(m2.quads[q] == m.quads[q]);
                }
            }
        }
    }
}

/// Flushing draws every quad once and in order: the draw calls cover the element buffer from
/// the start without gaps, six elements per quad, each call is drawn with the material,
/// texture and clip rectangle of every quad it covers, and a call begins exactly at the first
/// quad and at each quad whose material or texture differs from the one before it or that
/// follows a push or a pop of the clip rectangle.
pub proof fn lemma_flush_draws_every_quad(cmds: Seq<BatchCommand>, default_material: usize, default_texture: TextureKey)
    requires
        flushable(cmds, default_material, default_texture),
    ensures
        calls_cover(
            group_calls(flush_model(cmds, default_material, default_texture).quads),
            flush_model(cmds, default_material, default_texture).quads,
        ),
{
    let quads = flush_model(cmds, default_material, default_texture).quads;
    lemma_flush_consistent(cmds, default_material, default_texture);
    lemma_group_contiguous(quads);
    lemma_group_match(quads);
}

/// A scissor rectangle: from `(x, y)`, measured from the bottom left of the framebuffer,
/// `w` by `h` pixels.
#[derive(Copy, Clone, Debug, PartialEq, Eq, Structural)]
pub struct Scissor {
    pub x: i32,
    pub y: i32,
    pub w: i32,
    pub h: i32,
}

/// What drawing one call takes: the material to switch to and the texture to bind when they
/// change, the scissor rectangle when clipped, and the elements to draw.
#[derive(Copy, Clone, Debug, PartialEq, Eq, Structural)]
pub struct RenderStep {
    pub material: Option<usize>,
    pub texture: Option<usize>,
    pub scissor: Option<Scissor>,
    pub start: usize,
    pub count: usize,
}

/// Whether the scissor rectangle of `clip` fits `i32` in a framebuffer `height` pixels high.
pub open spec fn scissor_fits(clip: ClipRect, height: u32) -> bool {
    &&& i32::MIN <= (height as i32) - clip.max.y <= i32::MAX
    &&& i32::MIN <= clip.max.x - clip.min.x <= i32::MAX
    &&& i32::MIN <= clip.max.y - clip.min.y <= i32::MAX
}

/// The scissor rectangle of `clip` in a framebuffer `height` pixels high.
pub open spec fn scissor_of(clip: ClipRect, height: u32) -> Scissor {
    Scissor {
        x: clip.min.x,
        y: ((height as i32) - clip.max.y) as i32,
        w: (clip.max.x - clip.min.x) as i32,
        h: (clip.max.y - clip.min.y) as i32,
    }
}

/// The step for call `i` of `calls`: the first call switches to its material and texture,
/// each later one when they differ from those of the call before it.
pub open spec fn render_step(calls: Seq<DrawCall>, i: int, height: u32) -> RenderStep {
    let call = calls[i];
    RenderStep {
        material: if i == 0 || call.material != calls[i - 1].material { Some(call.material) } else { None },
        texture: if i == 0 || call.texture != calls[i - 1].texture { Some(call.texture) } else { None },
        scissor: match call.clip {
            Some(c) => Some(scissor_of(c, height)),
            None => None,
        },
        start: call.start,
        count: call.count,
    }
}

/// The steps that draw `calls` into a framebuffer `height` pixels high. `requires`
/// keeps every scissor rectangle within `i32`.
pub fn render_steps(calls: &Vec<DrawCall>, height: u32) -> (r: Vec<RenderStep>)
    requires
        forall|i: int| 0 <= i < calls@.len() ==> match (#[trigger] calls@[i]).clip {
            Some(c) => scissor_fits(c, height),
            None => true,
        },
    ensures
        r@.len() == calls@.len(),
        forall|i: int| 0 <= i < calls@.len() ==> #[trigger] r@[i] == render_step(calls@, i, height),
{
    let mut steps: Vec<RenderStep> = Vec::new();
    let h: i32 = height as i32;
    let mut i: usize = 0;
    while i < calls.len()
        invariant
            i <= calls@.len(),
            h == height as i32,
            steps@.len() == i,
            forall|j: int| 0 <= j < calls@.len() ==> match (#[trigger] calls@[j]).clip {
                Some(c) => scissor_fits(c, height),
                None => true,
            },
            forall|j: int| 0 <= j < i ==> #[trigger] steps@[j] == render_step(calls@, j, height),
        decreases calls@.len() - i,
    {
        let call = calls[i];
        let material = if i == 0 || call.material != calls[i - 1].material { Some(call.material) } else { None };
        let texture = if i == 0 || call.texture != calls[i - 1].texture { Some(call.texture) } else { None };
        let scissor = match call.clip {
            Some(c) => Some(Scissor { x: c.min.x, y: h - c.max.y, w: c.max.x - c.min.x, h: c.max.y - c.min.y }),
            None => None,
        };
        steps.push(RenderStep { material, texture, scissor, start: call.start, count: call.count });
        i = i + 1;
    }
    steps
}

/// Whether `flush_cmds` can flush `cmds` (see `flushable`).
#[verifier::spinoff_prover]
pub fn check_flushable(cmds: &Vec<BatchCommand>, default_material: usize, default_texture: TextureKey) -> (r: bool)
    ensures
        r == flushable(cmds@, default_material, default_texture),
{
    let ghost dm = default_material;
    let ghost dt = default_texture;
    let ghost total = flush_model(cmds@, dm, dt).quads;
    let mut depth: usize = 0;
    let mut current = default_texture;
    let mut quads: usize = 0;
    let mut k: usize = 0;
    proof {
        assert(cmds@.take(0) =~= Seq::<BatchCommand>::empty());
    }
    while k < cmds.len()
        invariant
            k <= cmds@.len(),
            dm == default_material,
            dt == default_texture,
            total == flush_model(cmds@, dm, dt).quads,
            quads <= k,
            depth <= k,
            ({
                let m = flush_model(cmds@.take(k as int), dm, dt);
                &&& depth == m.stack.len()
                &&& current == m.texture
                &&& quads == m.quads.len()
                &&& m.quads == total.take(m.quads.len() as int)
                &&& m.quads.len() <= total.len()
            }),
            forall|j: int| 0 <= j < k && #[trigger] cmds@[j] is PopClip ==> flush_model(cmds@.take(j), dm, dt).stack.len() > 0,
            forall|q: int| 0 <= q < quads && (#[trigger] total[q]).solid ==> total[q].texture.white_pixel,
        decreases cmds@.len() - k,
    {
        let ghost m = flush_model(cmds@.take(k as int), dm, dt);
        proof {
            assert(cmds@.take(k + 1).drop_last() =~= cmds@.take(k as int));
            lemma_prefix_quads(cmds@, k + 1, dm, dt);
        }
        let ghost m2 = flush_model(cmds@.take(k + 1), dm, dt);
        match cmds[k] {
            BatchCommand::Draw { material: _, texture, solid } => {
                let tex = match texture {
                    Some(t) => t,
                    None => if current.white_pixel { current } else { default_texture },
                };
                proof {
                    assert(m2.quads.last() == total[quads as int]);
                }
                if solid && !tex.white_pixel {
                    return false;
                }
                current = tex;
                quads = quads + 1;
            },
            BatchCommand::PushClip { .. } => {
                depth = depth + 1;
            },
            BatchCommand::PopClip => {
                if depth == 0 {
                    return false;
                }
                depth = depth - 1;
            },
        }
        k = k + 1;
    }
    proof {
        assert(cmds@.take(k as int) =~= cmds@);
    }
    let n: u128 = quads as u128;
    4 * n <= 0xffff_ffff && 6 * n <= usize::MAX as u128
}

/// Whether `render_steps` can draw `calls` into a framebuffer `height` pixels high: every
/// scissor rectangle fits `i32`.
pub fn check_scissors(calls: &Vec<DrawCall>, height: u32) -> (r: bool)
    ensures
        r == forall|i: int| 0 <= i < calls@.len() ==> match (#[trigger] calls@[i]).clip {
            Some(c) => scissor_fits(c, height),
            None => true,
        },
{
    let h: i64 = (height as i32) as i64;
    let mut i: usize = 0;
    while i < calls.len()
        invariant
            i <= calls@.len(),
            h == height as i32,
            forall|j: int| 0 <= j < i ==> match (#[trigger] calls@[j]).clip {
                Some(c) => scissor_fits(c, height),
                None => true,
            },
        decreases calls@.len() - i,
    {
        if let Some(c) = calls[i].clip {
            let y = h - c.max.y as i64;
            let w = c.max.x as i64 - c.min.x as i64;
            let hh = c.max.y as i64 - c.min.y as i64;
            if y < i32::MIN as i64 || y > i32::MAX as i64 || w < i32::MIN as i64 || w > i32::MAX as i64
                || hh < i32::MIN as i64 || hh > i32::MAX as i64 {
                return false;
            }
        }
        i = i + 1;
    }
    true
}

/// The quads of a prefix of the commands are the first quads of all the commands.
proof fn lemma_prefix_quads(cmds: Seq<BatchCommand>, k: int, dm: usize, dt: TextureKey)
    requires
        0 <= k <= cmds.len(),
    ensures
        flush_model(cmds.take(k), dm, dt).quads.len() <= flush_model(cmds, dm, dt).quads.len(),
        flush_model(cmds.take(k), dm, dt).quads
            == flush_model(cmds, dm, dt).quads.take(flush_model(cmds.take(k), dm, dt).quads.len() as int),
    decreases cmds.len(),
{
    if k == cmds.len() {
        assert(cmds.take(k) =~= cmds);
        assert(flush_model(cmds, dm, dt).quads.take(flush_model(cmds, dm, dt).quads.len() as int)
            =~= flush_model(cmds, dm, dt).quads);
    } else {
        lemma_prefix_quads(cmds.drop_last(), k, dm, dt);
        assert(cmds.drop_last().take(k) =~= cmds.take(k));
        let a = flush_model(cmds.take(k), dm, dt).quads;
        let b = flush_model(cmds.drop_last(), dm, dt).quads;
        let c = flush_model(cmds, dm, dt).quads;
        assert(b.len() <= c.len());
        assert(b =~= c.take(b.len() as int));
        assert(a =~= c.take(a.len() as int));
    }
}

/// A non-empty run of quads makes at least one draw call.
proof fn lemma_group_nonempty(quads: Seq<Quad>)
    ensures
        quads.len() > 0 ==> group_calls(quads).len() > 0,
    decreases quads.len(),
{
}

/// Flushes the queued commands `cmds`: the draw calls that group the quads, the texture each
/// quad is drawn with, and the element buffer. `requires` rules out a pop without a push,
/// on a solid quad without a white pixel, and when the element indices overflow.
#[verifier::spinoff_prover]
pub fn flush_cmds(cmds: &Vec<BatchCommand>, default_material: usize, default_texture: TextureKey) -> (r: DrawPlan)
    requires
        flushable(cmds@, default_material, default_texture),
    ensures
        r.calls@ == group_calls(flush_model(cmds@, default_material, default_texture).quads),
        r.textures@ == flush_model(cmds@, default_material, default_texture).quads.map_values(|q: Quad| q.texture.key),
        r.elements@.len() == 6 * flush_model(cmds@, default_material, default_texture).quads.len(),
        forall|i: int| 0 <= i < r.elements@.len() ==> #[trigger] r.elements@[i] == element(i),
{
    let ghost dm = default_material;
    let ghost dt = default_texture;
    let ghost total = flush_model(cmds@, dm, dt).quads;
    let mut calls: Vec<DrawCall> = Vec::new();
    let mut textures: Vec<usize> = Vec::new();
    let mut elements: Vec<u32> = Vec::new();
    if cmds.len() == 0 {
        return DrawPlan { calls, textures, elements };
    }
    let mut draw_call = DrawCall { material: default_material, texture: default_texture.key, clip: None, start: 0, count: 0 };
    let mut current_texture = default_texture;
    let mut clip_stack: Vec<ClipRect> = Vec::new();
    let mut vertex_count: u32 = 0;
    let mut k: usize = 0;
    proof {
        assert(cmds@.take(0) =~= Seq::<BatchCommand>::empty());
        assert(textures@ =~= Seq::<Quad>::empty().map_values(|q: Quad| q.texture.key));
    }
    while k < cmds.len()
        invariant
            k <= cmds@.len(),
            flushable(cmds@, dm, dt),
            total == flush_model(cmds@, dm, dt).quads,
            dm == default_material,
            dt == default_texture,
            ({
                let m = flush_model(cmds@.take(k as int), dm, dt);
                &&& clip_stack@ == m.stack
                &&& draw_call.material == m.material
                &&& draw_call.texture == m.texture.key
                &&& current_texture == m.texture
                &&& draw_call.clip == top_clip(m.stack)
                &&& (draw_call.count > 0) == m.after_draw
                &&& draw_call.start + draw_call.count == 6 * m.quads.len()
                &&& m.after_draw ==> m.quads.len() > 0
                &&& if draw_call.count > 0 {
                    calls@.push(draw_call) == group_calls(m.quads)
                } else {
                    calls@ == group_calls(m.quads)
                }
                &&& textures@ == m.quads.map_values(|q: Quad| q.texture.key)
                &&& vertex_count == 4 * m.quads.len()
                &&& elements@.len() == 6 * m.quads.len()
                &&& forall|i: int| 0 <= i < elements@.len() ==> #[trigger] elements@[i] == element(i)
                &&& m.quads == total.take(m.quads.len() as int)
                &&& m.quads.len() <= total.len()
            }),
        decreases cmds@.len() - k,
    {
        let ghost m = flush_model(cmds@.take(k as int), dm, dt);
        proof {
            assert(cmds@.take(k + 1).drop_last() =~= cmds@.take(k as int));
            assert(cmds@.take(k + 1).last() == cmds@[k as int]);
            lemma_prefix_quads(cmds@, k + 1, dm, dt);
            lemma_group_nonempty(m.quads);
        }
        let ghost m2 = flush_model(cmds@.take(k + 1), dm, dt);
        match cmds[k] {
            BatchCommand::Draw { material, texture, solid } => {
                let mat = match material {
                    Some(key) => key,
                    None => default_material,
                };
                let tex = match texture {
                    Some(t) => t,
                    None => if current_texture.white_pixel { current_texture } else { default_texture },
                };
                if mat != draw_call.material || tex.key != draw_call.texture {
                    add_draw_call(&mut draw_call, &mut calls);
                    draw_call.material = mat;
                    draw_call.texture = tex.key;
                }
                current_texture = tex;
                proof {
                    assert(m2.quads.len() == m.quads.len() + 1);
                    assert(m2.quads.len() <= total.len());
                    assert(4 * m2.quads.len() <= u32::MAX);
                }
                let q: u32 = vertex_count;
                let ghost before = elements@;
                elements.push(q);
                elements.push(q + 1);
                elements.push(q + 2);
                elements.push(q + 2);
                elements.push(q + 3);
                elements.push(q);
                proof {
                    let n = m.quads.len() as int;
                    assert forall|i: int| 0 <= i < elements@.len() implies #[trigger] elements@[i] == element(i) by {
                        if i >= 6 * n {
                            let j = i - 6 * n;
                            assert(i / 6 == n && i % 6 == j) by (nonlinear_arith)
                                requires i == 6 * n + j, 0 <= j < 6;
                        } else {
                            assert(elements@[i] == before[i]);
                        }
                    }
                }
                vertex_count = vertex_count + 4;
                textures.push(tex.key);
                draw_call.count = draw_call.count + 6;
                proof {
                    assert(textures@ =~= m2.quads.map_values(|q: Quad| q.texture.key));
                    assert(m2.quads.drop_last() =~= m.quads);
                    let g = group_calls(m.quads);
                    if m.after_draw && mat == m.material && tex.key == m.texture.key {
                        assert(calls@.push(draw_call) =~= g.update(g.len() - 1, DrawCall { count: (g.last().count + 6) as usize, ..g.last() }));
                    } else {
                        assert(calls@.push(draw_call) =~= g.push(DrawCall {
                            material: mat,
                            texture: tex.key,
                            clip: top_clip(m.stack),
                            start: (6 * m.quads.len()) as usize,
                            count: 6,
                        }));
                    }
                }
            },
            BatchCommand::PushClip { min, max, intersect } => {
                add_draw_call(&mut draw_call, &mut calls);
                let mut min = min;
                let mut max = max;
                if intersect && clip_stack.len() > 0 {
                    let top = clip_stack[clip_stack.len() - 1];
                    min.x = if min.x >= top.min.x { min.x } else { top.min.x };
                    min.y = if min.y >= top.min.y { min.y } else { top.min.y };
                    max.x = if max.x <= top.max.x { max.x } else { top.max.x };
                    max.y = if max.y <= top.max.y { max.y } else { top.max.y };
                }
                let clip = ClipRect { min, max };
                clip_stack.push(clip);
                draw_call.clip = Some(clip);
            },
            BatchCommand::PopClip => {
                add_draw_call(&mut draw_call, &mut calls);
                proof {
                    assert(cmds@[k as int] is PopClip);
                }
                clip_stack.pop();
                draw_call.clip = if clip_stack.len() > 0 {
                    Some(clip_stack[clip_stack.len() - 1])
                } else {
                    None
                };
            },
        }
        k = k + 1;
    }
    proof {
        assert(cmds@.take(k as int) =~= cmds@);
    }
    add_draw_call(&mut draw_call, &mut calls);
    DrawPlan { calls, textures, elements }
}

} // verus!
