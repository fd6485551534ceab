use flib::buffer::{quantize, write_glyph_data_to_buffer, DesignCurve, DesignPoint};

fn pt(x: i32, y: i32) -> DesignPoint {
    DesignPoint { x, y }
}

#[test]
fn single_curve_is_quantized_after_header() {
    let curve = DesignCurve { start: pt(1313, 344), control: pt(1229, 178), end: pt(1071, 89) };
    let mut data = vec![7u16; 12];
    write_glyph_data_to_buffer(&mut data, 0, &vec![curve], &pt(1398, 1450), 0, 0, 20, 20);
    assert_eq!(data, vec![0, 0, 20, 20, 61550, 15548, 57613, 8045, 50206, 4022, 7, 7]);
}

#[test]
fn curve_data_lands_at_offset() {
    let a = DesignCurve { start: pt(0, 0), control: pt(699, 725), end: pt(1398, 1450) };
    let b = DesignCurve { start: pt(1398, 0), control: pt(1398, 1450), end: pt(0, 1450) };
    let mut data = vec![9u16; 20];
    write_glyph_data_to_buffer(&mut data, 2, &vec![a, b], &pt(1398, 1450), 3, 4, 8, 10);
    assert_eq!(
        data,
        vec![
            9, 9, 3, 4, 8, 10, 0, 0, 32768, 32768, 65535, 65535, 65535, 0, 65535, 65535, 0,
            65535, 9, 9
        ]
    );
}

#[test]
fn quantize_scales_and_rounds() {
    assert_eq!(quantize(1313, 1398), 61550);
    assert_eq!(quantize(344, 1450), 15548);
    assert_eq!(quantize(1398, 1398), 65535);
    assert_eq!(quantize(1397, 1398), 65488);
    assert_eq!(quantize(1, 1398), 47);
    assert_eq!(quantize(1, 2), 32768);
}

#[test]
fn quantize_saturates_outside_the_box() {
    assert_eq!(quantize(0, 1398), 0);
    assert_eq!(quantize(-5, 1398), 0);
    assert_eq!(quantize(1500, 1398), 65535);
    assert_eq!(quantize(i32::MAX, 1), 65535);
}
