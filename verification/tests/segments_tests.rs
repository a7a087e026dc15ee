use document_diff::comparison::Comparison;
use document_diff::raster::Raster;
use document_diff::segments::{DifferenceSegementsBuilder, DifferenceSegments, Position};
use document_diff::similarity::PageSimilarity;

fn at(numerator: u32, denominator: u32) -> Position {
    Position { numerator, denominator }
}

/// A raster of two columns whose row `y` is filled with `rows[y]`.
fn striped(rows: &[u8]) -> Raster {
    let mut samples = Vec::new();
    for value in rows {
        for _ in 0..6 {
            samples.push(*value);
        }
    }
    Raster::from_samples(2, rows.len() as u32, samples).unwrap()
}

fn segments_of(a: &[u8], b: &[u8]) -> Vec<(Position, Position)> {
    let sim = PageSimilarity::Similar(0, 1);
    match Comparison::from_similarity(&sim, &striped(a), &[striped(b)]) {
        Comparison::Different(found) => found.segments,
        Comparison::Identical => panic!("a page with differing pixels is not identical"),
    }
}

#[test]
fn builder_without_rows_has_no_segment() {
    assert_eq!(DifferenceSegementsBuilder::build().finish(), DifferenceSegments { segments: vec![] });
}

#[test]
fn builder_joins_adjacent_hits() {
    let mut builder = DifferenceSegementsBuilder::build();
    builder.step(at(0, 4), false);
    builder.step(at(1, 4), true);
    builder.step(at(2, 4), true);
    builder.step(at(3, 4), false);
    builder.step(at(4, 4), false);
    assert_eq!(builder.finish().segments, vec![(at(1, 4), at(2, 4))]);
}

#[test]
fn builder_opens_a_new_segment_after_a_gap() {
    let mut builder = DifferenceSegementsBuilder::build();
    builder.step(at(0, 4), true);
    builder.step(at(1, 4), false);
    builder.step(at(2, 4), true);
    builder.step(at(3, 4), true);
    builder.step(at(4, 4), false);
    assert_eq!(builder.finish().segments, vec![(at(0, 4), at(0, 4)), (at(2, 4), at(3, 4))]);
}

#[test]
fn builder_flushes_the_open_segment() {
    let mut builder = DifferenceSegementsBuilder::build();
    builder.step(at(0, 2), false);
    builder.step(at(1, 2), true);
    builder.step(at(2, 2), true);
    assert_eq!(builder.finish().segments, vec![(at(1, 2), at(2, 2))]);
}

#[test]
fn page_without_match_is_flagged_as_a_whole() {
    let outcome = Comparison::from_similarity(&PageSimilarity::Different, &striped(&[1, 2]), &[]);
    assert_eq!(
        outcome,
        Comparison::Different(DifferenceSegments { segments: vec![(at(0, 1), at(1, 1))] })
    );
}

#[test]
fn page_matching_in_every_pixel_is_identical() {
    let sim = PageSimilarity::Similar(7, 0);
    assert_eq!(Comparison::from_similarity(&sim, &striped(&[1, 2]), &[]), Comparison::Identical);
}

#[test]
fn one_band_gives_one_segment() {
    let found = segments_of(&[0, 0, 0, 0, 0, 0, 0, 0, 0], &[0, 0, 0, 9, 9, 9, 0, 0, 0]);
    assert_eq!(found, vec![(at(3, 8), at(5, 8))]);
}

#[test]
fn last_three_rows_end_at_the_bottom() {
    let found = segments_of(&[0, 0, 0, 0, 0, 0, 0], &[0, 0, 0, 0, 9, 9, 9]);
    assert_eq!(found, vec![(at(4, 6), at(6, 6))]);
    let last = found.last().unwrap().1;
    assert_eq!(last.numerator, last.denominator);
}

#[test]
fn segments_are_apart_and_in_order() {
    let found = segments_of(&[0, 0, 0, 0, 0, 0, 0, 0], &[9, 0, 9, 9, 0, 0, 9, 0]);
    assert_eq!(found, vec![(at(0, 7), at(0, 7)), (at(2, 7), at(3, 7)), (at(6, 7), at(6, 7))]);
    for pair in found.windows(2) {
        assert!(pair[0].1.numerator < pair[1].0.numerator);
    }
    for (start, end) in &found {
        assert!(start.numerator <= end.numerator && end.numerator <= end.denominator);
    }
}

#[test]
fn row_differs_where_any_pixel_differs() {
    let a = Raster::from_samples(3, 2, vec![0; 18]).unwrap();
    let mut samples = vec![0; 18];
    samples[17] = 1;
    let b = Raster::from_samples(3, 2, samples).unwrap();
    let outcome = Comparison::from_similarity(&PageSimilarity::Similar(0, 1), &a, &[b]);
    assert_eq!(
        outcome,
        Comparison::Different(DifferenceSegments { segments: vec![(at(1, 1), at(1, 1))] })
    );
}

#[test]
fn page_of_one_row_is_flagged_from_top_to_bottom() {
    assert_eq!(segments_of(&[0], &[9]), vec![(at(0, 1), at(1, 1))]);
    assert_eq!(segments_of(&[0], &[9, 9, 9]), vec![(at(0, 1), at(1, 1))]);
    assert_eq!(segments_of(&[3], &[3]), vec![]);
}

#[test]
fn every_segment_lies_on_the_page() {
    for (a, b) in [
        (vec![0u8], vec![9u8]),
        (vec![0, 0], vec![9, 0]),
        (vec![0, 0], vec![0, 9]),
        (vec![0, 0, 0, 0, 0], vec![9, 0, 9, 9, 9]),
        (vec![0, 0, 0], vec![9, 9, 9]),
    ] {
        for (start, end) in segments_of(&a, &b) {
            assert!(start.denominator > 0 && end.denominator > 0);
            assert!(start.numerator <= start.denominator && end.numerator <= end.denominator);
            assert!(
                start.numerator as u64 * end.denominator as u64
                    <= end.numerator as u64 * start.denominator as u64
            );
        }
    }
}

#[test]
fn match_is_taken_from_the_named_baseline_page() {
    let sim = PageSimilarity::Similar(1, 2);
    let baseline = [striped(&[9, 9, 9]), striped(&[0, 9, 0])];
    let outcome = Comparison::from_similarity(&sim, &striped(&[0, 0, 0]), &baseline);
    assert_eq!(
        outcome,
        Comparison::Different(DifferenceSegments { segments: vec![(at(1, 2), at(1, 2))] })
    );
}

#[test]
fn rows_and_columns_beyond_the_match_are_left_out() {
    let a = striped(&[0, 0, 0, 0]);
    let b = Raster::from_samples(1, 2, vec![0, 0, 0, 9, 9, 9]).unwrap();
    let outcome = Comparison::from_similarity(&PageSimilarity::Similar(0, 1), &a, &[b]);
    assert_eq!(
        outcome,
        Comparison::Different(DifferenceSegments { segments: vec![(at(1, 3), at(1, 3))] })
    );
}

#[test]
fn top_and_bottom_are_zero_and_one() {
    assert_eq!(Position::top(), at(0, 1));
    assert_eq!(Position::bottom(), at(1, 1));
}
