use liteparse::page_objects::{
    collect_from_objects, collect_glyph_like_paths, is_glyph_like, keeps_image_bounds,
    descends_into_form, glyph_candidates, image_bounds_candidates, image_object_position,
    swaps_viewport_axes, FillMode, GlyphCandidate, PageObject, SegmentKind,
};

fn path(fill: Option<FillMode>, beziers: usize, lines: usize, bounds: Option<usize>) -> PageObject {
    let mut segments = vec![Some(SegmentKind::MoveTo)];
    for _ in 0..beziers {
        segments.push(Some(SegmentKind::BezierTo));
    }
    for _ in 0..lines {
        segments.push(Some(SegmentKind::LineTo));
    }
    PageObject::Path { fill, segments, bounds }
}

fn image(bounds: Option<usize>) -> PageObject {
    PageObject::Image { bounds }
}

#[test]
fn bezier_heavy_filled_path_is_candidate() {
    let objects = vec![Some(path(Some(FillMode::Winding), 8, 3, Some(7)))];
    assert_eq!(
        glyph_candidates(&objects),
        vec![GlyphCandidate { bounds: 7, segment_count: 12, bezier_like: true, dense: false }]
    );
}

#[test]
fn rounded_rectangle_is_not_bezier_like() {
    let objects = vec![Some(path(Some(FillMode::Alternate), 4, 6, Some(0)))];
    let found = glyph_candidates(&objects);
    assert_eq!(found.len(), 1);
    assert!(!found[0].bezier_like);
    assert!(!found[0].dense);
}

#[test]
fn line_flattened_path_is_dense() {
    let objects = vec![Some(path(Some(FillMode::Winding), 0, 70, Some(3)))];
    assert_eq!(
        glyph_candidates(&objects),
        vec![GlyphCandidate { bounds: 3, segment_count: 71, bezier_like: false, dense: true }]
    );
    // 63 segments are one short of dense.
    let objects = vec![Some(path(Some(FillMode::Winding), 0, 62, Some(3)))];
    assert!(!glyph_candidates(&objects)[0].dense);
}

#[test]
fn paths_that_fail_the_plain_tests_are_skipped() {
    let objects = vec![
        // stroked only
        Some(path(Some(FillMode::NoFill), 20, 0, Some(0))),
        // draw mode unreadable
        Some(path(None, 20, 0, Some(1))),
        // too few segments: 9
        Some(path(Some(FillMode::Winding), 8, 0, Some(2))),
        // bounds unreadable
        Some(path(Some(FillMode::Winding), 20, 0, None)),
        // exactly 10 segments
        Some(path(Some(FillMode::Winding), 9, 0, Some(4))),
        None,
        Some(image(Some(5))),
        Some(PageObject::Other),
    ];
    assert_eq!(
        glyph_candidates(&objects),
        vec![GlyphCandidate { bounds: 4, segment_count: 10, bezier_like: true, dense: false }]
    );
}

#[test]
fn null_segments_are_not_counted_as_beziers() {
    let mut segments = vec![Some(SegmentKind::BezierTo); 5];
    segments.extend(vec![None; 6]);
    let objects = vec![Some(PageObject::Path {
        fill: Some(FillMode::Winding),
        segments,
        bounds: Some(9),
    })];
    assert_eq!(
        glyph_candidates(&objects),
        vec![GlyphCandidate { bounds: 9, segment_count: 11, bezier_like: false, dense: false }]
    );
}

#[test]
fn forms_are_entered_two_levels_deep() {
    let glyph = |k| Some(path(Some(FillMode::Winding), 10, 0, Some(k)));
    let depth2 = PageObject::Form { children: vec![glyph(3)] };
    let depth1 = PageObject::Form { children: vec![glyph(2), Some(depth2)] };
    let depth0 = PageObject::Form { children: vec![glyph(1), Some(depth1), None] };
    let objects = vec![glyph(0), Some(depth0), glyph(4)];
    let keys: Vec<usize> = glyph_candidates(&objects).iter().map(|c| c.bounds).collect();
    // The form two levels deep is not entered, so key 3 is absent.
    assert_eq!(keys, vec![0, 1, 2, 4]);
    assert!(descends_into_form(0));
    assert!(descends_into_form(1));
    assert!(!descends_into_form(2));
}

#[test]
fn image_bounds_candidates_in_page_order() {
    let objects = vec![
        Some(image(Some(4))),
        None,
        Some(image(None)),
        Some(path(Some(FillMode::Winding), 10, 0, Some(9))),
        Some(image(Some(1))),
        Some(PageObject::Form { children: vec![Some(image(Some(8)))] }),
    ];
    assert_eq!(image_bounds_candidates(&objects), vec![4, 1]);
}

#[test]
fn image_object_position_counts_images_only() {
    let objects = vec![
        Some(PageObject::Other),
        Some(image(None)),
        None,
        Some(path(Some(FillMode::Winding), 10, 0, Some(9))),
        Some(image(Some(2))),
        Some(image(Some(3))),
    ];
    assert_eq!(image_object_position(&objects, 0), Some(1));
    assert_eq!(image_object_position(&objects, 1), Some(4));
    assert_eq!(image_object_position(&objects, 2), Some(5));
    assert_eq!(image_object_position(&objects, 3), None);
    assert_eq!(image_object_position(&Vec::new(), 0), None);
}

#[test]
fn image_positions_increase_with_numbers() {
    let objects = vec![Some(image(None)), None, Some(image(None)), Some(image(None))];
    let positions: Vec<usize> =
        (0..3).map(|n| image_object_position(&objects, n).unwrap()).collect();
    assert!(positions.windows(2).all(|w| w[0] < w[1]));
}

#[test]
fn quarter_turns_swap_axes() {
    assert!(!swaps_viewport_axes(0));
    assert!(swaps_viewport_axes(1));
    assert!(!swaps_viewport_axes(2));
    assert!(swaps_viewport_axes(3));
    assert!(!swaps_viewport_axes(-1));
}

#[test]
fn every_candidate_meets_segment_thresholds() {
    let mut objects = Vec::new();
    for beziers in [0usize, 3, 6, 9, 40] {
        for lines in [0usize, 5, 9, 60, 70] {
            let p = path(Some(FillMode::Winding), beziers, lines, Some(beziers * 100 + lines));
            objects.push(Some(PageObject::Form { children: vec![Some(p)] }));
            objects.push(Some(path(Some(FillMode::Alternate), beziers, lines, Some(1))));
        }
    }
    let found = glyph_candidates(&objects);
    assert!(!found.is_empty());
    for c in found {
        assert!(c.segment_count >= 10);
        if c.dense {
            assert!(c.segment_count >= 64);
        }
    }
}

#[test]
fn collect_appends_form_children_in_order() {
    let glyph = |k| Some(path(Some(FillMode::Winding), 10, 0, Some(k)));
    let make_children = || vec![glyph(5), None, glyph(6), Some(image(Some(1))), glyph(7)];
    let children = make_children();
    let form = PageObject::Form { children: make_children() };
    let earlier = GlyphCandidate { bounds: 99, segment_count: 50, bezier_like: false, dense: false };
    let mut out = vec![earlier];
    collect_glyph_like_paths(&form, 1, &mut out);
    let keys: Vec<usize> = out.iter().map(|c| c.bounds).collect();
    assert_eq!(keys, vec![99, 5, 6, 7]);

    // The same form two levels deep is not entered.
    let mut out = vec![earlier];
    collect_glyph_like_paths(&form, 2, &mut out);
    assert_eq!(out, vec![earlier]);

    // The children walked directly one level deeper give the same run.
    let mut direct = vec![earlier];
    collect_from_objects(&children, 2, &mut direct);
    let keys: Vec<usize> = direct.iter().map(|c| c.bounds).collect();
    assert_eq!(keys, vec![99, 5, 6, 7]);
}

#[test]
fn candidates_of_concatenated_runs_concatenate() {
    let glyph = |k| Some(path(Some(FillMode::Winding), 10, 0, Some(k)));
    let a = vec![glyph(1), Some(PageObject::Form { children: vec![glyph(2)] })];
    let b = vec![None, glyph(3)];
    let mut ab = vec![glyph(1), Some(PageObject::Form { children: vec![glyph(2)] })];
    ab.extend(vec![None, glyph(3)]);
    let mut expected = glyph_candidates(&a);
    expected.extend(glyph_candidates(&b));
    assert_eq!(glyph_candidates(&ab), expected);
}

#[test]
fn glyph_final_test_combines_box_and_profile() {
    let bez = GlyphCandidate { bounds: 0, segment_count: 12, bezier_like: true, dense: false };
    let flat = GlyphCandidate { bounds: 0, segment_count: 80, bezier_like: false, dense: true };
    let neither = GlyphCandidate { bounds: 0, segment_count: 12, bezier_like: false, dense: false };
    assert!(is_glyph_like(&bez, true, false));
    assert!(!is_glyph_like(&bez, false, true));
    assert!(is_glyph_like(&flat, true, true));
    assert!(!is_glyph_like(&flat, true, false));
    assert!(!is_glyph_like(&neither, true, true));
}

#[test]
fn image_kept_unless_small_or_covering() {
    assert!(keeps_image_bounds(true, true, false, false));
    assert!(keeps_image_bounds(true, true, true, false));
    assert!(keeps_image_bounds(true, true, false, true));
    assert!(!keeps_image_bounds(true, true, true, true));
    assert!(!keeps_image_bounds(false, true, false, false));
    assert!(!keeps_image_bounds(true, false, false, false));
}
