use engine::font_system::font::FontId;
use engine::font_system::packing::layout_in_range;
use engine::renderer::framebuffer::ClearMask;
use engine::renderer::subtexture::Subtexture;
use engine::renderer::material::{uniform_variant, Material, UniformInfo, UniformVariant};
use engine::renderer::batching::{
    add_draw_call, check_flushable, check_scissors, flush_cmds, render_steps, Batch, BatchCommand, ClipRect, DrawCall, Scissor,
    TextureKey, Vec2i,
};

const DEFAULT_MATERIAL: usize = 0;
const WHITE: TextureKey = TextureKey { key: 0, white_pixel: true };
const ATLAS: TextureKey = TextureKey { key: 1, white_pixel: true };
const PLAIN: TextureKey = TextureKey { key: 2, white_pixel: false };

fn v(x: i32, y: i32) -> Vec2i {
    Vec2i { x, y }
}

#[test]
fn empty_batch_makes_no_draw_call() {
    let batch = Batch::new();
    assert!(check_flushable(batch.commands(), DEFAULT_MATERIAL, WHITE));
    let plan = flush_cmds(batch.commands(), DEFAULT_MATERIAL, WHITE);
    assert!(plan.calls.is_empty());
    assert!(plan.textures.is_empty());
    assert!(plan.elements.is_empty());
}

#[test]
fn solid_quads_share_one_call() {
    let mut batch = Batch::new();
    batch.queue_draw_solid();
    batch.queue_draw_solid();
    let plan = flush_cmds(batch.commands(), DEFAULT_MATERIAL, WHITE);
    assert_eq!(
        plan.calls,
        vec![DrawCall { material: DEFAULT_MATERIAL, texture: 0, clip: None, start: 0, count: 12 }]
    );
    assert_eq!(plan.textures, vec![0, 0]);
    assert_eq!(plan.elements, vec![0, 1, 2, 2, 3, 0, 4, 5, 6, 6, 7, 4]);
}

#[test]
fn texture_change_splits_calls() {
    let mut batch = Batch::new();
    batch.queue_draw_sprite(ATLAS);
    batch.queue_draw_sprite(ATLAS);
    batch.queue_draw_sprite(PLAIN);
    let plan = flush_cmds(batch.commands(), DEFAULT_MATERIAL, WHITE);
    assert_eq!(
        plan.calls,
        vec![
            DrawCall { material: 0, texture: 1, clip: None, start: 0, count: 12 },
            DrawCall { material: 0, texture: 2, clip: None, start: 12, count: 6 },
        ]
    );
}

#[test]
fn solid_after_texture_keeps_it_when_it_has_a_white_pixel() {
    let mut batch = Batch::new();
    batch.queue_draw_sprite(ATLAS);
    batch.queue_draw_solid();
    batch.queue_draw_sprite(PLAIN);
    batch.queue_draw_solid();
    let plan = flush_cmds(batch.commands(), DEFAULT_MATERIAL, WHITE);
    assert_eq!(plan.textures, vec![1, 1, 2, 0]);
    assert_eq!(
        plan.calls,
        vec![
            DrawCall { material: 0, texture: 1, clip: None, start: 0, count: 12 },
            DrawCall { material: 0, texture: 2, clip: None, start: 12, count: 6 },
            DrawCall { material: 0, texture: 0, clip: None, start: 18, count: 6 },
        ]
    );
}

#[test]
fn clips_split_calls_and_pop_restores() {
    let mut batch = Batch::new();
    batch.queue_draw_solid();
    batch.push_clip(v(10, 20), v(30, 40));
    batch.queue_draw_solid();
    batch.queue_draw_solid();
    batch.pop_clip();
    batch.queue_draw_solid();
    assert!(check_flushable(batch.commands(), DEFAULT_MATERIAL, WHITE));
    let plan = flush_cmds(batch.commands(), DEFAULT_MATERIAL, WHITE);
    let clip = ClipRect { min: v(10, 20), max: v(40, 60) };
    assert_eq!(
        plan.calls,
        vec![
            DrawCall { material: 0, texture: 0, clip: None, start: 0, count: 6 },
            DrawCall { material: 0, texture: 0, clip: Some(clip), start: 6, count: 12 },
            DrawCall { material: 0, texture: 0, clip: None, start: 18, count: 6 },
        ]
    );
}

#[test]
fn intersecting_push_clamps_to_the_current_clip() {
    let cmds = vec![
        BatchCommand::PushClip { min: v(0, 0), max: v(100, 100), intersect: false },
        BatchCommand::PushClip { min: v(50, -10), max: v(150, 80), intersect: true },
        BatchCommand::Draw { material: Some(3), texture: None, solid: true },
    ];
    let plan = flush_cmds(&cmds, DEFAULT_MATERIAL, WHITE);
    assert_eq!(
        plan.calls,
        vec![DrawCall {
            material: 3,
            texture: 0,
            clip: Some(ClipRect { min: v(50, 0), max: v(100, 80) }),
            start: 0,
            count: 6,
        }]
    );
}

#[test]
fn unflushable_batches_are_reported() {
    let mut batch = Batch::new();
    batch.pop_clip();
    assert!(!check_flushable(batch.commands(), DEFAULT_MATERIAL, WHITE));

    let mut batch = Batch::new();
    batch.queue_draw_solid();
    assert!(!check_flushable(batch.commands(), DEFAULT_MATERIAL, PLAIN));
    assert!(check_flushable(batch.commands(), DEFAULT_MATERIAL, WHITE));
}

#[test]
fn render_steps_switch_only_on_change() {
    let clip = ClipRect { min: v(10, 20), max: v(40, 60) };
    let calls = vec![
        DrawCall { material: 0, texture: 1, clip: None, start: 0, count: 6 },
        DrawCall { material: 0, texture: 1, clip: Some(clip), start: 6, count: 12 },
        DrawCall { material: 2, texture: 3, clip: None, start: 18, count: 6 },
    ];
    assert!(check_scissors(&calls, 600));
    let steps = render_steps(&calls, 600);
    assert_eq!(steps.len(), 3);
    assert_eq!((steps[0].material, steps[0].texture, steps[0].scissor), (Some(0), Some(1), None));
    assert_eq!((steps[1].material, steps[1].texture), (None, None));
    assert_eq!(steps[1].scissor, Some(Scissor { x: 10, y: 540, w: 30, h: 40 }));
    assert_eq!((steps[1].start, steps[1].count), (6, 12));
    assert_eq!((steps[2].material, steps[2].texture, steps[2].scissor), (Some(2), Some(3), None));
}

#[test]
fn scissor_overflow_is_reported() {
    let clip = ClipRect { min: v(i32::MIN, 0), max: v(i32::MAX, 10) };
    let calls = vec![DrawCall { material: 0, texture: 0, clip: Some(clip), start: 0, count: 6 }];
    assert!(!check_scissors(&calls, 600));
}

#[test]
fn font_id_prints_its_name() {
    let id = FontId::new("assets/fonts/Monocons.ttf".to_string());
    assert_eq!(id.name(), "assets/fonts/Monocons.ttf");
    assert_eq!(id.to_string(), "FontId assets/fonts/Monocons.ttf");
}

#[test]
fn layout_range_check() {
    assert!(layout_in_range(&vec![(10, 20)], 72, 2));
    assert!(!layout_in_range(&vec![(u32::MAX, u32::MAX)], 72, 2));
}

fn uniform(name: &str, variant: UniformVariant, location: i32) -> UniformInfo {
    UniformInfo { name: name.to_string(), variant, location }
}

#[test]
fn material_uniforms_by_name() {
    let uniforms = vec![
        uniform("u_texture", UniformVariant::Texture2D, 3),
        uniform("u_tint", UniformVariant::Float4, 7),
        uniform("u_texture", UniformVariant::Texture2D, 9),
    ];
    let mut m: Material<&str> = Material::new(5, uniforms, vec!["none", "white", "other"]);
    assert_eq!(m.shader(), 5);
    assert!(m.has_uniform(&"u_tint".to_string()));
    assert!(!m.has_uniform(&"u_time".to_string()));
    assert_eq!(m.get_uniform_location(&"u_texture".to_string()), Some(3));
    assert_eq!(m.get_uniform_location(&"u_tint".to_string()), Some(7));
    assert_eq!(m.get_uniform_location(&"u_time".to_string()), None);
    m.set_uniform(&"u_texture".to_string(), "atlas");
    assert_eq!(m.get_uniform(&"u_texture".to_string()), Some((0, &"atlas")));
    assert_eq!(m.get_uniform(&"u_tint".to_string()), Some((1, &"white")));
    assert_eq!(m.get_uniform(&"u_time".to_string()), None);
}

#[test]
fn clear_mask_to_gl_bits() {
    assert_eq!(ClearMask::empty().to_gl(), 0);
    assert_eq!(ClearMask::color().to_gl(), 0x4000);
    assert_eq!(ClearMask::color().union(ClearMask::depth()).to_gl(), 0x4100);
    let all = ClearMask::color().union(ClearMask::depth()).union(ClearMask::stencil());
    assert_eq!(all.bits(), 7);
    assert_eq!(all.to_gl(), 0x4500);
    assert!(all.contains(ClearMask::stencil()));
    assert!(!ClearMask::depth().contains(ClearMask::color()));
}

#[test]
fn subtexture_corners() {
    let s = Subtexture::new(3, 10, 20, 5, 6);
    assert_eq!(s.texture, 3);
    assert_eq!(s.uvs, (v(10, 20), v(15, 26)));
    let w = Subtexture::whole(1, 64, 32);
    assert_eq!(w.uvs, (v(0, 0), v(64, 32)));
}

#[test]
fn add_draw_call_skips_empty_calls() {
    let mut calls = Vec::new();
    let mut call = DrawCall { material: 0, texture: 0, clip: None, start: 6, count: 0 };
    add_draw_call(&mut call, &mut calls);
    assert!(calls.is_empty());
    assert_eq!(call.start, 6);
    call.count = 12;
    add_draw_call(&mut call, &mut calls);
    assert_eq!(calls, vec![DrawCall { material: 0, texture: 0, clip: None, start: 6, count: 12 }]);
    assert_eq!((call.start, call.count), (18, 0));
}

#[test]
fn gl_uniform_types_map_to_variants() {
    assert_eq!(uniform_variant(0x1406), Some(UniformVariant::Float));
    assert_eq!(uniform_variant(0x8B50), Some(UniformVariant::Float2));
    assert_eq!(uniform_variant(0x8B51), Some(UniformVariant::Float3));
    assert_eq!(uniform_variant(0x8B52), Some(UniformVariant::Float4));
    assert_eq!(uniform_variant(0x8B5C), Some(UniformVariant::Mat4));
    assert_eq!(uniform_variant(0x8B5E), Some(UniformVariant::Texture2D));
    assert_eq!(uniform_variant(0x1404), None);
}
