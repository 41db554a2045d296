//! Tests for the tensor buffer: allocation from a shape, indexed
//! access, slicing and rendering.

use numrs::Dimensions;
use numrs::collective::{Collective, CollectiveError};
use numrs::header::Axis;

#[test]
fn test_from_shape_round_trip() {
    // The allocated buffer's length equals the total element count
    // read back from the buffer's own shape.
    let collective: Collective<i32> = Collective::from_shape(Box::new(Dimensions::new(5, 10)));

    let data = collective.data.expect("data should be allocated");
    let shape = collective.shape.expect("shape should be kept");
    assert_eq!(data.len(), shape.get_n());
    assert_eq!(data.len(), 50);
    assert!(data.iter().all(|&v| v == 0));
}

#[test]
fn test_from_shape_multilevel_round_trip() {
    let dim2 = Dimensions::new(7, 3);
    let dim1 = Dimensions::new(0, 2).with_next(Box::new(dim2));
    let collective: Collective<i32> = Collective::from_shape(Box::new(dim1));

    let data = collective.data.expect("data should be allocated");
    let shape = collective.shape.expect("shape should be kept");
    assert_eq!(data.len(), shape.get_n());
    assert_eq!(data.len(), 2 * 3 * 7);
}

#[test]
fn test_new_keeps_all_four_states() {
    let deferred: Collective<i32> = Collective::new(None, None);
    assert!(deferred.data.is_none());
    assert!(deferred.shape.is_none());

    let shaped: Collective<i32> = Collective::new(None, Some(Box::new(Dimensions::new(2, 2))));
    assert!(shaped.data.is_none());
    assert_eq!(shaped.shape.expect("shape should be kept").get_n(), 4);

    let realized: Collective<i32> =
        Collective::new(Some(vec![1, 2, 3, 4]), Some(Box::new(Dimensions::new(2, 2))));
    assert_eq!(realized.data.expect("data should be kept").len(), 4);
}

#[test]
fn test_get_and_set() {
    let mut collective: Collective<i32> =
        Collective::new(Some(vec![10, 20, 30]), Some(Box::new(Dimensions::new(3, 1))));

    assert_eq!(collective.get(0), Ok(10));
    assert_eq!(collective.get(2), Ok(30));
    assert_eq!(collective.set(1, 25), Ok(()));
    assert_eq!(collective.get(1), Ok(25));
}

#[test]
fn test_get_and_set_unallocated() {
    let mut collective: Collective<i32> = Collective::new(None, None);

    assert_eq!(collective.get(0), Err(CollectiveError::UnallocatedAccess));
    assert_eq!(collective.set(0, 1), Err(CollectiveError::UnallocatedAccess));
}

#[test]
fn test_get_and_set_out_of_range() {
    let mut collective: Collective<i32> =
        Collective::new(Some(vec![1, 2]), Some(Box::new(Dimensions::new(2, 1))));

    assert_eq!(collective.get(2), Err(CollectiveError::RangeViolation));
    assert_eq!(collective.set(5, 9), Err(CollectiveError::RangeViolation));
    assert_eq!(collective.get(1), Ok(2));
}

#[test]
fn test_get_slice_flatten() {
    // Over a 10-element buffer, the [2, 5) slice holds the source
    // elements at offsets 2, 3 and 4.
    let source: Collective<i32> = Collective::new(
        Some(vec![0, 10, 20, 30, 40, 50, 60, 70, 80, 90]),
        Some(Box::new(Dimensions::new(10, 1))),
    );

    let slice = source
        .get_slice(2, 5, Box::new(Dimensions::new(3, 1)), Axis::Flatten)
        .expect("a well-formed range should slice");
    let data = slice.data.expect("slice data should be allocated");
    assert_eq!(data.len(), 3);
    assert_eq!(data, vec![20, 30, 40]);
    assert_eq!(slice.shape.expect("slice shape should be set").get_n(), 3);
}

#[test]
fn test_get_slice_backwards_range() {
    let source: Collective<i32> = Collective::new(
        Some(vec![0, 10, 20, 30, 40, 50, 60, 70, 80, 90]),
        Some(Box::new(Dimensions::new(10, 1))),
    );

    let result = source.get_slice(5, 2, Box::new(Dimensions::new(3, 1)), Axis::Flatten);
    assert!(matches!(result, Err(CollectiveError::RangeViolation)));
}

#[test]
fn test_get_slice_past_the_end() {
    let source: Collective<i32> =
        Collective::new(Some(vec![1, 2, 3]), Some(Box::new(Dimensions::new(3, 1))));

    let result = source.get_slice(1, 4, Box::new(Dimensions::new(3, 1)), Axis::Flatten);
    assert!(matches!(result, Err(CollectiveError::RangeViolation)));
}

#[test]
fn test_get_slice_of_unallocated_data() {
    // A slice of a buffer with no data is a buffer with both parts unset.
    let source: Collective<i32> = Collective::new(None, None);

    let slice = source
        .get_slice(0, 0, Box::new(Dimensions::new(1, 1)), Axis::Flatten)
        .expect("slicing nothing is still valid");
    assert!(slice.data.is_none());
    assert!(slice.shape.is_none());
}

#[test]
fn test_get_slice_unsupported_axes() {
    let source: Collective<i32> =
        Collective::new(Some(vec![1, 2, 3]), Some(Box::new(Dimensions::new(3, 1))));

    let rows = source.get_slice(0, 2, Box::new(Dimensions::new(2, 1)), Axis::Rows);
    assert!(matches!(rows, Err(CollectiveError::UnsupportedAxis)));

    let columns = source.get_slice(0, 2, Box::new(Dimensions::new(2, 1)), Axis::Columns);
    assert!(matches!(columns, Err(CollectiveError::UnsupportedAxis)));
}

#[test]
fn test_deep_chain_scenario() {
    // Shape chain (rows 2) -> (rows 3) -> (rows 4, columns 5):
    // outer 2, middle 3, inner 4 x 5.
    let dim3 = Dimensions::new(5, 4);
    let dim2 = Dimensions::new(0, 3).with_next(Box::new(dim3));
    let dim1 = Dimensions::new(0, 2).with_next(Box::new(dim2));

    assert_eq!(dim1.get_n(), 120);
    assert_eq!(dim1.get_number_of_inner_arrays(), 6);
    assert_eq!(dim1.get_number_of_innermost_arrays(), 4);
    assert_eq!(dim1.render(), "2 → 3 → 4 × 5");
}

#[test]
fn test_render_single_node() {
    assert_eq!(Dimensions::new(5, 10).render(), "10 × 5");
}

#[test]
fn test_render_multi_digit_counts() {
    let dim2 = Dimensions::new(12, 345);
    let dim1 = Dimensions::new(0, 67).with_next(Box::new(dim2));
    assert_eq!(dim1.render(), "67 → 345 × 12");
}

#[test]
fn test_render_empty_dimensions() {
    // No node contributes anything: the sentinel text is rendered.
    assert_eq!(Dimensions::new(0, 0).render(), "Empty dimensions");
}

#[test]
fn test_render_skips_silent_nodes() {
    // A non-terminal node with zero rows contributes nothing.
    let dim2 = Dimensions::new(5, 10);
    let dim1 = Dimensions::new(0, 0).with_next(Box::new(dim2));
    assert_eq!(dim1.render(), "10 × 5");
}
