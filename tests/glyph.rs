use flib::buffer::{DesignCurve, DesignPoint};
use flib::glyph::{place_glyph, vertex_data, Glyph, GlyphMetrics, QuadVertex};
use flib::grid::{AtlasError, CurveCrossings, LineHit, VGrid};

fn metrics() -> GlyphMetrics {
    GlyphMetrics { width: 1398, height: 1450, bearing_x: 97, bearing_y: 1430, advance: 1593 }
}

#[test]
fn vertex_data_packs_corner_and_position() {
    let data: Vec<u32> = (0..6).map(|j| vertex_data(j, 0)).collect();
    assert_eq!(data, vec![0, 2, 1, 3, 1, 2]);
    assert_eq!(vertex_data(3, 5), 23);
    assert_eq!(vertex_data(4, 65535), 262141);
}

#[test]
fn glyph_record_from_metrics() {
    let g = Glyph::from_metrics(&metrics(), 7);
    assert_eq!(
        g,
        Glyph { width: 1398, height: 1450, offset_x: 97, offset_y: -20, bezier_atlas_pos: 7, advance: 1593 }
    );
}

#[test]
fn quad_covers_the_glyph_box() {
    let quad = Glyph::from_metrics(&metrics(), 0).quad();
    let v = |x, y, data| QuadVertex { x, y, data };
    assert_eq!(
        quad,
        vec![
            v(97, -20, 0),
            v(1495, -20, 2),
            v(97, 1430, 1),
            v(1495, 1430, 3),
            v(97, 1430, 1),
            v(1495, -20, 2)
        ]
    );
}

fn one_curve_grid() -> (VGrid, Vec<DesignCurve>) {
    let crossings = vec![CurveCrossings {
        hits: vec![LineHit { vertical: true, line: 1, along: 0 }],
        start_x: 0,
        start_y: 0,
    }];
    let grid = VGrid::from_crossings(&crossings, &vec![vec![], vec![]], 2, 2);
    let p = |x, y| DesignPoint { x, y };
    let curves = vec![DesignCurve { start: p(699, 0), control: p(699, 300), end: p(699, 600) }];
    (grid, curves)
}

#[test]
fn place_glyph_writes_grid_and_curve_data() {
    let (grid, curves) = one_curve_grid();
    let mut curve_data = vec![1u16; 16];
    let mut atlas = vec![5u8; 256 * 256 * 4];
    let g = place_glyph(&grid, &curves, &metrics(), &mut curve_data, 2, &mut atlas, 1, 0);
    assert_eq!(g, Ok(Glyph::from_metrics(&metrics(), 2)));
    assert_eq!(curve_data, vec![1, 1, 1, 1, 1, 0, 2, 2, 32768, 0, 32768, 13559, 32768, 27118, 1, 1]);
    assert_eq!(atlas[0..4], [5, 5, 5, 5]);
    assert_eq!(atlas[4..12], [0, 2, 0, 0, 0, 2, 0, 0]);
    assert_eq!(atlas[12..16], [5, 5, 5, 5]);
    assert_eq!(atlas[1028..1036], [0, 0, 0, 0, 0, 0, 0, 0]);
}

#[test]
fn place_glyph_out_of_bounds_writes_nothing() {
    let (grid, curves) = one_curve_grid();
    let mut curve_data = vec![1u16; 16];
    let mut atlas = vec![5u8; 256 * 256 * 4];
    let g = place_glyph(&grid, &curves, &metrics(), &mut curve_data, 2, &mut atlas, 0, 255);
    assert_eq!(g, Err(AtlasError::OutOfBounds));
    assert_eq!(curve_data, vec![1u16; 16]);
    assert!(atlas.iter().all(|b| *b == 5));
}
