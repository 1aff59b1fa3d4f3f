use tank_engine::mesh_layout::{rivet_slots, RivetSlot};
use tank_engine::mesh_layout::{
    append_with_offset, beveled_box_indices, beveled_box_triangle_count, box_indices,
    compound_triangle_count, cylinder_indices, detailed_cylinder_triangle_count, push_corner,
    push_quads, river_indices, rivet_count, riveted_panel_indices, riveted_panel_triangle_count,
    terrain_indices, turret_indices, wheel_indices, RivetLayout,
};
use tank_engine::topology::{grid_indices, push_fan, push_quad, push_strip, StripWinding};

fn all_below(indices: &[u32], n: u32) -> bool {
    indices.iter().all(|&i| i < n)
}

#[test]
fn quad_pattern() {
    let mut v = vec![9];
    push_quad(&mut v, 4);
    assert_eq!(v, vec![9, 4, 5, 6, 4, 6, 7]);
}

#[test]
fn strip_patterns() {
    let mut a = Vec::new();
    push_strip(&mut a, 0, 1, StripWinding::Ladder);
    assert_eq!(a, vec![0, 2, 1, 1, 2, 3]);
    let mut b = Vec::new();
    push_strip(&mut b, 0, 1, StripWinding::LadderReversed);
    assert_eq!(b, vec![0, 1, 2, 1, 3, 2]);
    let mut c = Vec::new();
    push_strip(&mut c, 0, 1, StripWinding::CrossDiagonal);
    assert_eq!(c, vec![0, 1, 3, 0, 3, 2]);
    let mut d = Vec::new();
    push_strip(&mut d, 10, 2, StripWinding::Ladder);
    assert_eq!(d, vec![10, 12, 11, 11, 12, 13, 12, 14, 13, 13, 14, 15]);
}

#[test]
fn fan_patterns() {
    let mut a = Vec::new();
    push_fan(&mut a, 0, 1, 2, false);
    assert_eq!(a, vec![0, 1, 2, 0, 2, 3]);
    let mut b = Vec::new();
    push_fan(&mut b, 0, 1, 2, true);
    assert_eq!(b, vec![0, 2, 1, 0, 3, 2]);
    let mut c = Vec::new();
    push_fan(&mut c, 7, 0, 0, false);
    assert!(c.is_empty());
}

#[test]
fn grid_layouts() {
    assert_eq!(grid_indices(1, 1), vec![0, 2, 1, 1, 2, 3]);
    assert_eq!(grid_indices(2, 1), vec![0, 3, 1, 1, 3, 4, 1, 4, 2, 2, 4, 5]);
    assert!(grid_indices(0, 5).is_empty());
    assert!(grid_indices(5, 0).is_empty());
    let g = grid_indices(7, 4);
    assert_eq!(g.len(), 6 * 7 * 4);
    assert!(all_below(&g, 8 * 5));
}

#[test]
fn terrain_grid() {
    let t = terrain_indices(2);
    assert_eq!(t.len(), 24);
    assert!(all_below(&t, 9));
    let big = terrain_indices(128);
    assert_eq!(big.len(), 6 * 128 * 128);
    assert!(all_below(&big, 129 * 129));
}

#[test]
fn river_ribbon() {
    assert_eq!(river_indices(2), vec![0, 2, 1, 1, 2, 3, 2, 4, 3, 3, 4, 5]);
    assert!(river_indices(0).is_empty());
}

#[test]
fn closed_cylinder_layout() {
    let c = cylinder_indices(3, 1, true, true);
    assert_eq!(
        c,
        vec![
            0, 4, 1, 1, 4, 5, 1, 5, 2, 2, 5, 6, 2, 6, 3, 3, 6, 7, // side
            8, 10, 9, 8, 11, 10, 8, 12, 11, // bottom cap
            13, 14, 15, 13, 15, 16, 13, 16, 17, // top cap
        ]
    );
    assert!(all_below(&c, 18));
}

#[test]
fn cylinder_triangle_estimate_matches() {
    for (radial, height) in [(3u32, 1u32), (32, 1), (12, 4), (5, 7)] {
        let closed = cylinder_indices(radial, height, true, true);
        assert_eq!(closed.len() as u32, 3 * detailed_cylinder_triangle_count(radial, height, false));
        let open = cylinder_indices(radial, height, false, false);
        assert_eq!(open.len() as u32, 3 * detailed_cylinder_triangle_count(radial, height, true));
    }
    assert_eq!(detailed_cylinder_triangle_count(32, 1, false), 128);
    assert_eq!(detailed_cylinder_triangle_count(32, 1, true), 64);
}

#[test]
fn cylinder_with_one_cap() {
    let c = cylinder_indices(4, 2, false, true);
    assert_eq!(c.len(), 6 * 4 * 2 + 12);
    assert!(all_below(&c, 15 + 6));
    assert_eq!(&c[48..51], &[15, 16, 17]);
}

#[test]
fn beveled_box_layout() {
    let plain = beveled_box_indices(3, false);
    assert_eq!(plain.len(), 36);
    assert!(all_below(&plain, 24));
    let no_segments = beveled_box_indices(0, true);
    assert_eq!(no_segments, plain);
    let rounded = beveled_box_indices(3, true);
    assert_eq!(rounded.len(), 324);
    assert!(all_below(&rounded, 24 + 24 * 4 + 32));
    assert_eq!(&rounded[..36], &plain[..]);
    // first X edge strip starts at vertex 24
    assert_eq!(&rounded[36..42], &[24, 26, 25, 25, 26, 27]);
    // first Y edge strip (the fifth strip) is wound the other way
    let y_start = 36 + 4 * 18;
    let y_base = 24 + 4 * 8;
    assert_eq!(&rounded[y_start..y_start + 6], &[y_base, y_base + 1, y_base + 2, y_base + 1, y_base + 3, y_base + 2]);
    // the last corner cap
    let last = 24 + 24 * 4 + 28;
    assert_eq!(&rounded[315..], &[last, last + 1, last + 2, last, last + 2, last + 3, last, last + 3, last + 1]);
}

#[test]
fn beveled_box_triangle_estimate_matches() {
    assert_eq!(beveled_box_triangle_count(3), 108);
    assert_eq!(beveled_box_triangle_count(0), 36);
    for seg in 1..6u32 {
        let rounded = beveled_box_indices(seg, true);
        assert_eq!(rounded.len() as u32, 3 * beveled_box_triangle_count(seg));
    }
}

#[test]
fn corner_cap_pattern() {
    let mut v = Vec::new();
    push_corner(&mut v, 10);
    assert_eq!(v, vec![10, 11, 12, 10, 12, 13, 10, 13, 11]);
}

#[test]
fn rivet_counts() {
    assert_eq!(rivet_count(&RivetLayout::Grid { rows: 2, cols: 3 }), 6);
    assert_eq!(rivet_count(&RivetLayout::Edge { count_per_edge: 4 }), 12);
    assert_eq!(rivet_count(&RivetLayout::Edge { count_per_edge: 3 }), 8);
    assert_eq!(rivet_count(&RivetLayout::Edge { count_per_edge: 2 }), 4);
    assert_eq!(rivet_count(&RivetLayout::Edge { count_per_edge: 1 }), 2);
    assert_eq!(rivet_count(&RivetLayout::Edge { count_per_edge: 0 }), 0);
    assert_eq!(rivet_count(&RivetLayout::Custom { count: 5 }), 5);
}

#[test]
fn riveted_panel_layout() {
    let p = riveted_panel_indices(2);
    assert_eq!(p.len(), 72);
    assert_eq!(p.len() as u32, 3 * riveted_panel_triangle_count(2));
    assert!(all_below(&p, 40));
    assert_eq!(&p[36..42], &[24, 25, 26, 24, 26, 27]);
    assert_eq!(&p[54..57], &[32, 33, 34]);
    assert_eq!(riveted_panel_triangle_count(12), 84);
    let bare = riveted_panel_indices(0);
    assert_eq!(bare.len(), 36);
}

#[test]
fn turret_layout() {
    let t = turret_indices(16, 4);
    assert_eq!(t.len(), 6 * 16 * 4 + 6 * 16);
    assert!(all_below(&t, 17 * 5 + 2));
    let side = 6 * 16 * 4;
    assert_eq!(&t[side..side + 3], &[85, 68, 69]);
    assert_eq!(&t[side + 48..side + 51], &[86, 1, 0]);
}

#[test]
fn wheel_layout() {
    let w = wheel_indices(12);
    assert_eq!(w.len(), 144);
    assert!(all_below(&w, 54));
    assert_eq!(&w[..6], &[0, 1, 3, 0, 3, 2]);
    assert_eq!(&w[72..75], &[26, 27, 28]);
    assert_eq!(&w[108..111], &[40, 42, 41]);
}

#[test]
fn boxes_layout() {
    let b = box_indices(3);
    assert_eq!(b.len(), 108);
    assert!(all_below(&b, 72));
    assert_eq!(&b[102..], &[68, 69, 70, 68, 70, 71]);
    let mut q = Vec::new();
    push_quads(&mut q, 0, 6);
    assert_eq!(box_indices(1), q);
}

#[test]
fn merging_offsets_parts() {
    let mut merged = vec![0, 1, 2];
    append_with_offset(&mut merged, &vec![0, 1, 2, 2, 1, 3], 3);
    assert_eq!(merged, vec![0, 1, 2, 3, 4, 5, 5, 4, 6]);
    let mut empty = Vec::new();
    append_with_offset(&mut empty, &vec![], 100);
    assert!(empty.is_empty());
}

#[test]
fn compound_triangle_estimate() {
    assert_eq!(compound_triangle_count(&vec![36, 7, 0]), 14);
    assert_eq!(compound_triangle_count(&vec![]), 0);
}

#[test]
fn rivet_slot_order() {
    assert_eq!(
        rivet_slots(&RivetLayout::Grid { rows: 2, cols: 2 }),
        vec![
            RivetSlot::Grid { row: 0, col: 0 },
            RivetSlot::Grid { row: 0, col: 1 },
            RivetSlot::Grid { row: 1, col: 0 },
            RivetSlot::Grid { row: 1, col: 1 },
        ]
    );
    assert_eq!(
        rivet_slots(&RivetLayout::Edge { count_per_edge: 3 }),
        vec![
            RivetSlot::Top { i: 0 },
            RivetSlot::Bottom { i: 0 },
            RivetSlot::Top { i: 1 },
            RivetSlot::Bottom { i: 1 },
            RivetSlot::Top { i: 2 },
            RivetSlot::Bottom { i: 2 },
            RivetSlot::Left { i: 1 },
            RivetSlot::Right { i: 1 },
        ]
    );
    assert!(rivet_slots(&RivetLayout::Edge { count_per_edge: 0 }).is_empty());
    assert_eq!(
        rivet_slots(&RivetLayout::Edge { count_per_edge: 1 }),
        vec![RivetSlot::Top { i: 0 }, RivetSlot::Bottom { i: 0 }]
    );
    assert_eq!(
        rivet_slots(&RivetLayout::Custom { count: 2 }),
        vec![RivetSlot::Custom { k: 0 }, RivetSlot::Custom { k: 1 }]
    );
    for layout in [
        RivetLayout::Grid { rows: 3, cols: 5 },
        RivetLayout::Edge { count_per_edge: 4 },
        RivetLayout::Edge { count_per_edge: 2 },
        RivetLayout::Custom { count: 7 },
    ] {
        assert_eq!(rivet_slots(&layout).len(), rivet_count(&layout));
    }
}

#[test]
fn merged_triangle_estimate_matches_merged_indices() {
    let parts = [box_indices(1), wheel_indices(8), river_indices(3)];
    let mut merged = Vec::new();
    let mut base = 0u32;
    let vertex_counts = [24u32, 4 * 8 + 6, 8];
    for (part, count) in parts.iter().zip(vertex_counts) {
        append_with_offset(&mut merged, part, base);
        base += count;
    }
    let counts: Vec<u32> = parts.iter().map(|p| p.len() as u32).collect();
    assert_eq!(3 * compound_triangle_count(&counts) as usize, merged.len());
    assert!(all_below(&merged, base));
}
