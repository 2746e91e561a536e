use proximity::codec::{flatten, make_point};

#[test]
fn make_point_packs_four_coordinates_per_lane() {
    let lanes = make_point(&vec![1, 2, 3, 4, 5, 6, 7, 8]);
    assert_eq!(lanes, vec![[1, 2, 3, 4], [5, 6, 7, 8]]);
}

#[test]
fn make_point_of_no_coordinates_is_empty() {
    assert!(make_point(&vec![]).is_empty());
}

#[test]
fn flatten_unpacks_lanes_in_order() {
    assert_eq!(flatten(&vec![[9, 8, 7, 6], [5, 4, 3, 2]]), vec![9, 8, 7, 6, 5, 4, 3, 2]);
}

#[test]
fn packing_round_trips_float_bit_patterns() {
    let coords: Vec<u32> = [1.5f32, -2.0, 0.0, -0.0, f32::MAX, f32::MIN_POSITIVE, 3.25, 1e-30]
        .iter()
        .map(|c| c.to_bits())
        .collect();
    assert_eq!(flatten(&make_point(&coords)), coords);
}
