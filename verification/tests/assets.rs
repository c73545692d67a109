use engine::audio::{MusicId, SfxId};
use engine::font_system::glyphs::{build_ascii_and_latin1_string, build_ascii_string, build_latin1_string};
use engine::font_system::packing::pack_layout;
use engine::renderer::vertex_format::{AttributeVariant, VertexAttribute, VertexFormat};

fn fnv1a(bytes: &[u8]) -> u64 {
    let mut h: u64 = 0xcbf2_9ce4_8422_2325;
    for b in bytes {
        h = (h ^ *b as u64).wrapping_mul(0x0100_0000_01b3);
    }
    h
}

#[test]
fn ids_hash_the_name_and_a_terminator() {
    assert_eq!(MusicId::new("").0, fnv1a(&[0xff]));
    assert_eq!(MusicId::new("theme").0, fnv1a(b"theme\xff"));
    assert_eq!(SfxId::new("jump").0, fnv1a(b"jump\xff"));
    assert_eq!(MusicId::new("jump").0, SfxId::new("jump").0);
    assert_ne!(SfxId::new("jump").0, SfxId::new("jum").0);
}

#[test]
fn glyph_strings() {
    let a = build_ascii_string();
    assert_eq!(a.len(), 96);
    assert_eq!(a[0], ' ');
    assert_eq!(a[33], 'A');
    assert_eq!(a[95], '\u{7f}');
    let l = build_latin1_string();
    let expected: Vec<char> = "\u{a0}¡¢£¤¥¦§¨©ª«¬\u{ad}®¯°±²³´µ¶·¸¹º»¼½¾¿ÀÁÂÃÄÅÆÇÈÉÊËÌÍÎÏÐÑÒÓÔÕÖ×ØÙÚÛÜÝÞßàáâãäåæçèéêëìíîïðñòóôõö÷øùúûüýþÿ".chars().collect();
    assert_eq!(l, expected);
    let both = build_ascii_and_latin1_string();
    assert_eq!(both.len(), 192);
    assert_eq!(both[96], '\u{a0}');
}

#[test]
fn vertex_format_size_sums_attributes() {
    assert_eq!(AttributeVariant::Float3.components_count(), 3);
    assert_eq!(AttributeVariant::Float2.size(), 8);
    let f = VertexFormat::new(vec![
        VertexAttribute { location: 0, variant: AttributeVariant::Float3, normalized: false },
        VertexAttribute { location: 1, variant: AttributeVariant::Float4, normalized: false },
        VertexAttribute { location: 2, variant: AttributeVariant::Float2, normalized: true },
    ]);
    assert_eq!(f.size(), 36);
    assert_eq!(f.attributes().len(), 3);
    assert_eq!(f.attribute_offsets(), vec![0, 12, 28]);
    assert_eq!(VertexFormat::new(vec![]).size(), 0);
}

#[test]
fn pack_reordered_rows() {
    // (width, height)
    let sizes = vec![(10, 5), (20, 8), (30, 8), (5, 2)];
    let l = pack_layout(&sizes, 72, 2, true);
    // Tallest first, then widest.
    assert_eq!(l.order, vec![2, 1, 0, 3]);
    assert_eq!(l.size, 256);
    // First row starts after the white pixel column.
    assert_eq!(l.positions, vec![(3, 2), (35, 2), (57, 2), (69, 2)]);
}

#[test]
fn pack_doubles_until_rows_fit() {
    let sizes = vec![(200, 100), (200, 100), (200, 100)];
    let l = pack_layout(&sizes, 100, 0, false);
    assert_eq!(l.order, vec![0, 1, 2]);
    // At 256 three rows of 100 reach 300; at 512 two glyphs share the first row.
    assert_eq!(l.size, 512);
    assert_eq!(l.positions, vec![(1, 0), (201, 0), (0, 100)]);
}

#[test]
fn packed_glyphs_do_not_overlap() {
    let sizes = vec![(40, 30), (12, 50), (60, 10), (25, 25), (90, 18), (7, 7), (33, 41), (50, 50)];
    let spacing = 3;
    let l = pack_layout(&sizes, 48, spacing, true);
    let size = l.size;
    // `positions[k]` is where the glyph `order[k]` went.
    for i in 0..sizes.len() {
        let (x, y) = l.positions[i];
        let (w, h) = sizes[l.order[i]];
        assert!(x + w <= size && y + h <= size);
        // The white pixel at (0, 0) stays uncovered.
        assert!(!(x == 0 && y == 0 && w > 0 && h > 0));
        for j in (i + 1)..sizes.len() {
            let (x2, y2) = l.positions[j];
            let (w2, h2) = sizes[l.order[j]];
            let apart = x + w <= x2 || x2 + w2 <= x || y + h <= y2 || y2 + h2 <= y;
            assert!(apart, "glyphs {} and {} overlap", i, j);
        }
    }
}
