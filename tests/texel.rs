use flib::texel::{write_vgrid_cell_to_buffer, BEZIER_INDEX_FIRST_REAL};

fn encode(cell: Vec<usize>, inside: bool) -> Vec<u8> {
    let mut data = vec![100u8; 6];
    write_vgrid_cell_to_buffer(&vec![cell], &vec![inside], 0, &mut data, 1, 4);
    assert_eq!(data[0], 100);
    assert_eq!(data[5], 100);
    data[1..5].to_vec()
}

#[test]
fn one_curve_outside_moves_to_second_byte() {
    assert_eq!(encode(vec![7], false), vec![0, 7 + BEZIER_INDEX_FIRST_REAL, 0, 0]);
}

#[test]
fn one_curve_inside_stays_in_first_byte() {
    assert_eq!(encode(vec![7], true), vec![7 + BEZIER_INDEX_FIRST_REAL, 0, 0, 0]);
}

#[test]
fn empty_cell_inside_uses_sort_meta() {
    assert_eq!(encode(vec![], true), vec![1, 0, 0, 0]);
}

#[test]
fn empty_cell_outside_is_all_unused() {
    assert_eq!(encode(vec![], false), vec![0, 0, 0, 0]);
}

#[test]
fn several_curves_outside_stay_sorted() {
    assert_eq!(encode(vec![0, 5, 15], false), vec![2, 7, 17, 0]);
}

#[test]
fn several_curves_inside_swap_first_two() {
    assert_eq!(encode(vec![0, 5, 15, 18], true), vec![7, 2, 17, 20]);
}

#[test]
fn inside_flag_decodes_for_every_count() {
    let cells: Vec<Vec<usize>> = vec![vec![], vec![3], vec![1, 2], vec![0, 4, 9], vec![10, 11, 12, 253]];
    for cell in cells {
        for inside in [false, true] {
            let t = encode(cell.clone(), inside);
            assert_eq!(t[0] > t[1], inside, "cell {:?} inside {}", cell, inside);
            let mut decoded: Vec<usize> = t
                .iter()
                .filter(|b| **b >= BEZIER_INDEX_FIRST_REAL)
                .map(|b| (*b - BEZIER_INDEX_FIRST_REAL) as usize)
                .collect();
            decoded.sort();
            assert_eq!(decoded, cell);
        }
    }
}
