use snarkvid::intra::{predict_4x4, Intra4x4Mode, Neighbors4x4};
use snarkvid::DecodeError;

fn neighbors_constant(c: u8) -> Neighbors4x4 {
    Neighbors4x4::all([c; 4], [c; 4], [c; 4], c)
}

#[test]
fn vertical_copies_top_row_down() {
    let n = Neighbors4x4 {
        top: Some([10, 20, 30, 40]),
        top_right: None, left: None, top_left: None,
    };
    let out = predict_4x4(Intra4x4Mode::Vertical, &n).unwrap();
    for y in 0..4 {
        assert_eq!(&out[y*4 .. y*4+4], &[10, 20, 30, 40]);
    }
}

#[test]
fn vertical_errors_when_top_unavailable() {
    let n = Neighbors4x4::none();
    assert!(matches!(
        predict_4x4(Intra4x4Mode::Vertical, &n),
        Err(DecodeError::OutOfScope(_))
    ));
}

#[test]
fn horizontal_copies_left_column_right() {
    let n = Neighbors4x4 {
        top: None, top_right: None, top_left: None,
        left: Some([10, 20, 30, 40]),
    };
    let out = predict_4x4(Intra4x4Mode::Horizontal, &n).unwrap();
    for y in 0..4 {
        for x in 0..4 {
            assert_eq!(out[y*4 + x], [10, 20, 30, 40][y]);
        }
    }
}

#[test]
fn dc_with_both_neighbors_uses_8_sample_average() {
    // top + left = 32 samples summed... wait, only 4 of each = 8 total.
    // top=[10,10,10,10], left=[20,20,20,20]: sum=120, dc=(120+4)>>3=15.
    let n = Neighbors4x4 {
        top: Some([10, 10, 10, 10]),
        left: Some([20, 20, 20, 20]),
        top_right: None, top_left: None,
    };
    let out = predict_4x4(Intra4x4Mode::Dc, &n).unwrap();
    assert!(out.iter().all(|&v| v == 15));
}

#[test]
fn dc_top_only_uses_4_sample_average() {
    // top=[10,10,10,10]: sum=40, dc=(40+2)>>2=10.
    let n = Neighbors4x4 {
        top: Some([10, 10, 10, 10]),
        left: None, top_right: None, top_left: None,
    };
    let out = predict_4x4(Intra4x4Mode::Dc, &n).unwrap();
    assert!(out.iter().all(|&v| v == 10));
}

#[test]
fn dc_left_only_uses_4_sample_average() {
    // left=[20,20,20,20]: sum=80, dc=(80+2)>>2=20.
    let n = Neighbors4x4 {
        top: None, top_right: None, top_left: None,
        left: Some([20, 20, 20, 20]),
    };
    let out = predict_4x4(Intra4x4Mode::Dc, &n).unwrap();
    assert!(out.iter().all(|&v| v == 20));
}

#[test]
fn dc_no_neighbors_falls_back_to_128() {
    let n = Neighbors4x4::none();
    let out = predict_4x4(Intra4x4Mode::Dc, &n).unwrap();
    assert!(out.iter().all(|&v| v == 128));
}

#[test]
fn diag_down_left_constant_input_yields_constant_output() {
    // All neighbors = c → all filtered samples = c → all predictions = c.
    let n = neighbors_constant(50);
    let out = predict_4x4(Intra4x4Mode::DiagonalDownLeft, &n).unwrap();
    assert!(out.iter().all(|&v| v == 50));
}

#[test]
fn diag_down_right_constant_input_yields_constant_output() {
    let n = neighbors_constant(75);
    let out = predict_4x4(Intra4x4Mode::DiagonalDownRight, &n).unwrap();
    assert!(out.iter().all(|&v| v == 75));
}

#[test]
fn vertical_right_constant_input_yields_constant_output() {
    let n = neighbors_constant(100);
    let out = predict_4x4(Intra4x4Mode::VerticalRight, &n).unwrap();
    assert!(out.iter().all(|&v| v == 100));
}

#[test]
fn horizontal_down_constant_input_yields_constant_output() {
    let n = neighbors_constant(60);
    let out = predict_4x4(Intra4x4Mode::HorizontalDown, &n).unwrap();
    assert!(out.iter().all(|&v| v == 60));
}

#[test]
fn vertical_left_constant_input_yields_constant_output() {
    let n = neighbors_constant(200);
    let out = predict_4x4(Intra4x4Mode::VerticalLeft, &n).unwrap();
    assert!(out.iter().all(|&v| v == 200));
}

#[test]
fn horizontal_up_constant_input_yields_constant_output() {
    let n = neighbors_constant(33);
    let out = predict_4x4(Intra4x4Mode::HorizontalUp, &n).unwrap();
    assert!(out.iter().all(|&v| v == 33));
}

#[test]
fn from_index_maps_all_nine_modes() {
    for i in 0..=8u8 {
        assert!(Intra4x4Mode::from_index(i).is_ok(), "idx {} should be valid", i);
    }
    assert!(Intra4x4Mode::from_index(9).is_err());
}

#[test]
fn diagonal_modes_propagate_top_right_neighbor_to_corner() {
    // DDL: pred[3,3] reads from p[6,7,7] = (tr[2] + 3*tr[3] + 2) >> 2.
    // Set top=[0,0,0,0], top_right=[0,0,8,32]: a[7] = (8+96+2)>>2 = 26.
    let n = Neighbors4x4 {
        top: Some([0, 0, 0, 0]),
        top_right: Some([0, 0, 8, 32]),
        left: None,
        top_left: None,
    };
    let out = predict_4x4(Intra4x4Mode::DiagonalDownLeft, &n).unwrap();
    assert_eq!(out[15], 26, "pred[3,3] should be (tr[2]+3*tr[3]+2)>>2");
}
