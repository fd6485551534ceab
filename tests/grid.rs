use flib::grid::{
    find_cells_intersections, find_cells_mids_inside, xy2i, AtlasError, CurveCrossings, LineHit,
    VGrid, ATLAS_CHANNELS, GRID_ATLAS_SIZE,
};

fn vert(line: i64, along: i64) -> LineHit {
    LineHit { vertical: true, line, along }
}

fn horz(line: i64, along: i64) -> LineHit {
    LineHit { vertical: false, line, along }
}

fn crossing(hits: Vec<LineHit>, start_x: i64, start_y: i64) -> CurveCrossings {
    CurveCrossings { hits, start_x, start_y }
}

fn cells_with(cells: &Vec<Vec<usize>>, curve: usize) -> Vec<usize> {
    (0..cells.len()).filter(|c| cells[*c].contains(&curve)).collect()
}

#[test]
fn xy2i_is_row_major() {
    assert_eq!(xy2i(3, 2, 20), 43);
    assert_eq!(xy2i(0, 0, 20), 0);
    assert_eq!(xy2i(65535, 65535, 65535), 4294901760);
}

#[test]
fn vertical_crossing_marks_both_sides() {
    let cells = find_cells_intersections(&vec![crossing(vec![vert(2, 1)], 0, 0)], 4, 3);
    assert_eq!(cells.len(), 12);
    assert_eq!(cells_with(&cells, 0), vec![5, 6]);
}

#[test]
fn horizontal_crossing_marks_both_sides() {
    let cells = find_cells_intersections(&vec![crossing(vec![horz(1, 3)], 0, 0)], 4, 3);
    assert_eq!(cells_with(&cells, 0), vec![3, 7]);
}

#[test]
fn crossings_on_grid_edges_are_clamped() {
    let cells = find_cells_intersections(
        &vec![crossing(vec![vert(0, 0), vert(4, 5), horz(3, -2)], 0, 0)],
        4,
        3,
    );
    assert_eq!(cells_with(&cells, 0), vec![0, 8, 11]);
}

#[test]
fn curve_without_crossings_goes_to_its_start_cell() {
    let curves = vec![crossing(vec![], 2, 2), crossing(vec![], -3, 9)];
    let cells = find_cells_intersections(&curves, 4, 3);
    assert_eq!(cells_with(&cells, 0), vec![10]);
    assert_eq!(cells_with(&cells, 1), vec![8]);
}

#[test]
fn cell_lists_are_ascending_without_repeats() {
    let curves = vec![
        crossing(vec![vert(2, 1), vert(2, 1)], 0, 0),
        crossing(vec![horz(1, 1)], 0, 0),
        crossing(vec![], 1, 1),
    ];
    let cells = find_cells_intersections(&curves, 4, 3);
    assert_eq!(cells[5], vec![0, 1, 2]);
    assert_eq!(cells[6], vec![0]);
    assert_eq!(cells[1], vec![1]);
    let total: usize = cells.iter().map(|c| c.len()).sum();
    assert_eq!(total, 5);
}

#[test]
fn midline_crossings_pair_into_inside_runs() {
    let rows = vec![vec![6, 14], vec![-3, 2, 18, 25, 30]];
    let inside = find_cells_mids_inside(&rows, 20, 2);
    assert_eq!(inside.len(), 40);
    for x in 0..20 {
        assert_eq!(inside[x], (6..14).contains(&x), "row 0 cell {}", x);
        assert_eq!(inside[20 + x], x < 2 || x >= 18, "row 1 cell {}", x);
    }
}

#[test]
fn row_without_crossings_is_outside() {
    let inside = find_cells_mids_inside(&vec![vec![], vec![5]], 8, 2);
    assert_eq!(inside, vec![false; 16]);
}

fn small_grid() -> VGrid {
    let curves = vec![crossing(vec![vert(1, 0)], 0, 0), crossing(vec![], 1, 0)];
    let rows = vec![vec![1, 2], vec![0, 1]];
    VGrid::from_crossings(&curves, &rows, 2, 2)
}

#[test]
fn grid_from_crossings_holds_both_passes() {
    let grid = small_grid();
    assert_eq!(grid.width, 2);
    assert_eq!(grid.height, 2);
    assert_eq!(grid.cell_beziers, vec![vec![0], vec![0, 1], vec![], vec![]]);
    assert_eq!(grid.cell_mids, vec![false, true, true, false]);
}

#[test]
fn building_twice_gives_the_same_grid() {
    let a = small_grid();
    let b = small_grid();
    assert_eq!(a.cell_beziers, b.cell_beziers);
    assert_eq!(a.cell_mids, b.cell_mids);
    let mut da = vec![0u8; 48];
    let mut db = vec![0u8; 48];
    assert_eq!(a._write_vgrid_at(0, 0, &mut da, 4, 3, 4), Ok(()));
    assert_eq!(b._write_vgrid_at(0, 0, &mut db, 4, 3, 4), Ok(()));
    assert_eq!(da, db);
}

#[test]
fn grid_texels_land_at_their_atlas_position() {
    let grid = small_grid();
    let mut data = vec![9u8; 48];
    assert_eq!(grid._write_vgrid_at(1, 1, &mut data, 4, 3, 4), Ok(()));
    let mut expected = vec![9u8; 48];
    expected[20..24].copy_from_slice(&[0, 2, 0, 0]);
    expected[24..28].copy_from_slice(&[3, 2, 0, 0]);
    expected[36..40].copy_from_slice(&[1, 0, 0, 0]);
    expected[40..44].copy_from_slice(&[0, 0, 0, 0]);
    assert_eq!(data, expected);
}

#[test]
fn grid_outside_the_atlas_is_refused() {
    let grid = small_grid();
    let mut data = vec![9u8; 48];
    assert_eq!(grid._write_vgrid_at(3, 1, &mut data, 4, 3, 4), Err(AtlasError::OutOfBounds));
    assert_eq!(grid._write_vgrid_at(0, 2, &mut data, 4, 3, 4), Err(AtlasError::OutOfBounds));
    assert_eq!(data, vec![9u8; 48]);
}

#[test]
fn overfull_cell_is_refused() {
    let grid = VGrid {
        width: 2,
        height: 1,
        cell_beziers: vec![vec![0], vec![0, 1, 2, 3, 4]],
        cell_mids: vec![false, false],
    };
    let mut data = vec![9u8; 16];
    assert_eq!(grid._write_vgrid_at(0, 0, &mut data, 2, 2, 4), Err(AtlasError::TooManyCurves));
    assert_eq!(data, vec![9u8; 16]);
}

#[test]
fn curve_index_beyond_a_byte_is_refused() {
    let grid = VGrid {
        width: 1,
        height: 1,
        cell_beziers: vec![vec![3, 300]],
        cell_mids: vec![true],
    };
    let mut data = vec![9u8; 4];
    assert_eq!(grid._write_vgrid_at(0, 0, &mut data, 1, 1, 4), Err(AtlasError::CurveIndexTooLarge));
    assert_eq!(data, vec![9u8; 4]);
}

#[test]
fn write_vgrid_at_uses_the_shared_atlas() {
    let grid = small_grid();
    let n = GRID_ATLAS_SIZE as usize * GRID_ATLAS_SIZE as usize * ATLAS_CHANNELS as usize;
    let mut data = vec![0u8; n];
    assert_eq!(grid.write_vgrid_at(255, 0, &mut data), Err(AtlasError::OutOfBounds));
    assert_eq!(grid.write_vgrid_at(0, 0, &mut data), Ok(()));
    assert_eq!(data[0..8], [0, 2, 0, 0, 3, 2, 0, 0]);
    assert_eq!(data[1024..1032], [1, 0, 0, 0, 0, 0, 0, 0]);
    assert!(data[8..1024].iter().all(|b| *b == 0));
}
