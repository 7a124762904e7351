//! Decisions taken over the objects of a PDF page.
//!
//! A page holds a list of objects; a form object holds a list of its own.
//! Each object is described by the plain values the decisions read: its kind,
//! for a path its fill mode and the kinds of its segments, and whether its
//! bounding box could be read. The box itself is kept by the caller and
//! found again through the key stored here, so that the geometric tests on
//! it stay with the caller.
use vstd::prelude::*;

verus! {

/// The kind of one segment of a path.
#[derive(Clone, Copy, Debug, PartialEq, Eq, Structural)]
pub enum SegmentKind {
    LineTo,
    BezierTo,
    MoveTo,
    Unknown,
}

/// How a path is filled.
#[derive(Clone, Copy, Debug, PartialEq, Eq, Structural)]
pub enum FillMode {
    /// Not filled: a stroked-only path.
    NoFill,
    /// Filled by the even-odd rule.
    Alternate,
    /// Filled by the non-zero winding rule.
    Winding,
}

/// One object of a page or of a form.
///
/// `bounds` is `Some(key)` when the object's bounding box could be read, the
/// key locating that box in the caller's table; `None` when it could not.
pub enum PageObject {
    /// An embedded image.
    Image { bounds: Option<usize> },
    /// A path: `fill` is `None` when its draw mode could not be read;
    /// `segments` holds one entry per segment, `None` for a segment that
    /// could not be obtained.
    Path { fill: Option<FillMode>, segments: Vec<Option<SegmentKind>>, bounds: Option<usize> },
    /// A form, holding objects of its own (`None` for one that could not be
    /// obtained).
    Form { children: Vec<Option<PageObject>> },
    /// Text, shading, or an object of unknown kind.
    Other,
}

/// A path that passed every test of a glyph outline that needs no geometry.
#[derive(Clone, Copy, Debug, PartialEq, Eq, Structural)]
pub struct GlyphCandidate {
    /// Where the caller keeps the path's bounding box.
    pub bounds: usize,
    /// How many segments the path has.
    pub segment_count: usize,
    /// The path is made mostly of Bézier curves, as letterforms are.
    pub bezier_like: bool,
    /// The path has enough segments to be a run of text whose curves were
    /// flattened into lines; the caller still tests their density.
    pub dense: bool,
}

/// Forms are entered only this many levels deep.
pub const MAX_FORM_DEPTH: usize = 2;

/// A rounded rectangle has 4 Bézier segments; a letterform usually 6 or more.
pub const MIN_BEZIER_SEGMENTS: usize = 6;

/// Paths with fewer segments are never taken for glyph outlines.
pub const MIN_TOTAL_SEGMENTS: usize = 10;

/// Fewest segments of a line-flattened run of text.
pub const MIN_FLATTENED_SEGMENTS: usize = 64;

/// The number of Bézier segments among `segs`.
pub open spec fn bezier_count(segs: Seq<Option<SegmentKind>>) -> nat
    decreases segs.len(),
{
    if segs.len() == 0 {
        0
    } else {
        bezier_count(segs.drop_last()) + if segs.last() == Some(SegmentKind::BezierTo) {
            1nat
        } else {
            0nat
        }
    }
}

/// The candidate a path yields: it must be filled, have at least
/// `MIN_TOTAL_SEGMENTS` segments, and have readable bounds.
pub open spec fn path_candidate(
    fill: Option<FillMode>,
    segments: Vec<Option<SegmentKind>>,
    bounds: Option<usize>,
) -> Option<GlyphCandidate> {
    match (fill, bounds) {
        (Some(f), Some(b)) => if f != FillMode::NoFill && segments.len() >= MIN_TOTAL_SEGMENTS {
            Some(
                GlyphCandidate {
                    bounds: b,
                    segment_count: segments.len(),
                    bezier_like: bezier_count(segments@) >= MIN_BEZIER_SEGMENTS,
                    dense: segments.len() >= MIN_FLATTENED_SEGMENTS,
                },
            )
        } else {
            None
        },
        _ => None,
    }
}

/// The candidates found in `obj`, an object `depth` forms deep, in the
/// order the objects are walked.
pub open spec fn object_candidates(obj: PageObject, depth: nat) -> Seq<GlyphCandidate>
    decreases obj,
{
    match obj {
        PageObject::Form { children } => if depth >= MAX_FORM_DEPTH {
            Seq::empty()
        } else {
            list_candidates(children@, depth + 1)
        },
        PageObject::Path { fill, segments, bounds } => match path_candidate(fill, segments, bounds) {
            Some(c) => seq![c],
            None => Seq::empty(),
        },
        _ => Seq::empty(),
    }
}

/// The candidates found in the objects `objs`, each `depth` forms deep.
pub open spec fn list_candidates(objs: Seq<Option<PageObject>>, depth: nat) -> Seq<
    GlyphCandidate,
>
    decreases objs,
{
    if objs.len() == 0 {
        Seq::empty()
    } else {
        list_candidates(objs.drop_last(), depth) + match objs.last() {
            Some(o) => object_candidates(o, depth),
            None => Seq::empty(),
        }
    }
}

/// The object is one of the page's embedded images.
pub open spec fn is_image(o: Option<PageObject>) -> bool {
    o matches Some(PageObject::Image { .. })
}

/// How many of `objs` are images.
pub open spec fn image_count(objs: Seq<Option<PageObject>>) -> nat
    decreases objs.len(),
{
    if objs.len() == 0 {
        0
    } else {
        image_count(objs.drop_last()) + if is_image(objs.last()) {
            1nat
        } else {
            0nat
        }
    }
}

/// The bounds keys of the images among `objs` whose bounds could be read,
/// in page order.
pub open spec fn image_bounds_keys(objs: Seq<Option<PageObject>>) -> Seq<usize>
    decreases objs.len(),
{
    if objs.len() == 0 {
        Seq::empty()
    } else {
        image_bounds_keys(objs.drop_last()) + match objs.last() {
            Some(PageObject::Image { bounds: Some(b) }) => seq![b],
            _ => Seq::empty(),
        }
    }
}

/// A form `depth` levels deep is entered: its objects are examined.
pub fn descends_into_form(depth: usize) -> (r: bool)
    ensures
        r == (depth < MAX_FORM_DEPTH),
{
    depth < MAX_FORM_DEPTH
}

/// Page rotations 1 and 3 (90 and 270 degrees) swap the viewport's width and
/// height.
pub fn swaps_viewport_axes(rotation: i32) -> (r: bool)
    ensures
        r == (rotation == 1 || rotation == 3),
{
    rotation == 1 || rotation == 3
}

/// The number of Bézier segments among `segs`.
fn count_beziers(segs: &Vec<Option<SegmentKind>>) -> (n: usize)
    ensures
        n == bezier_count(segs@),
{
    let mut n: usize = 0;
    let mut i: usize = 0;
    while i < segs.len()
        invariant
            i <= segs@.len(),
            n <= i,
            n == bezier_count(segs@.take(i as int)),
        decreases segs@.len() - i,
    {
        assert(segs@.take(i + 1).drop_last() =~= segs@.take(i as int));
        if segs[i] == Some(SegmentKind::BezierTo) {
            n = n + 1;
        }
        i = i + 1;
    }
    assert(segs@.take(i as int) =~= segs@);
    n
}

/// The candidate a path yields, as `path_candidate` states.
fn candidate_of_path(
    fill: Option<FillMode>,
    segments: &Vec<Option<SegmentKind>>,
    bounds: Option<usize>,
) -> (r: Option<GlyphCandidate>)
    ensures
        r == path_candidate(fill, *segments, bounds),
{
    match (fill, bounds) {
        (Some(f), Some(b)) => {
            if f != FillMode::NoFill && segments.len() >= MIN_TOTAL_SEGMENTS {
                let beziers = count_beziers(segments);
                Some(
                    GlyphCandidate {
                        bounds: b,
                        segment_count: segments.len(),
                        bezier_like: beziers >= MIN_BEZIER_SEGMENTS,
                        dense: segments.len() >= MIN_FLATTENED_SEGMENTS,
                    },
                )
            } else {
                None
            }
        },
        _ => None,
    }
}

/// Appends to `out` the candidates found in `obj`, an object `depth` forms
/// deep: for a form entered at that depth, those of its objects in order.
pub fn collect_glyph_like_paths(obj: &PageObject, depth: usize, out: &mut Vec<GlyphCandidate>)
    ensures
        final(out)@ == old(out)@ + object_candidates(*obj, depth as nat),
    decreases obj,
{
    match obj {
        PageObject::Form { children } => {
            if descends_into_form(depth) {
                collect_from_objects(children, depth + 1, out);
            } else {
                assert(out@ =~= out@ + Seq::<GlyphCandidate>::empty());
            }
        },
        PageObject::Path { fill, segments, bounds } => {
            match candidate_of_path(*fill, segments, *bounds) {
                Some(c) => out.push(c),
                None => {
                    assert(out@ =~= out@ + Seq::<GlyphCandidate>::empty());
                },
            }
        },
        _ => {
            assert(out@ =~= out@ + Seq::<GlyphCandidate>::empty());
        },
    }
}

/// Appends to `out` the candidates found in `objs`, each `depth` forms deep,
/// in order.
pub fn collect_from_objects(
    objs: &Vec<Option<PageObject>>,
    depth: usize,
    out: &mut Vec<GlyphCandidate>,
)
    ensures
        final(out)@ == old(out)@ + list_candidates(objs@, depth as nat),
    decreases objs,
{
    let ghost start = out@;
    let mut i: usize = 0;
    assert(start + list_candidates(objs@.take(0), depth as nat) =~= start);
    while i < objs.len()
        invariant
            i <= objs@.len(),
            out@ == start + list_candidates(objs@.take(i as int), depth as nat),
        decreases objs@.len() - i,
    {
        let ghost before = out@;
        assert(objs@.take(i + 1).drop_last() =~= objs@.take(i as int));
        match &objs[i] {
            Some(o) => {
                assert(decreases_to!(objs => objs[i as int]));
                collect_glyph_like_paths(o, depth, out);
            },
            None => {},
        }
        assert(out@ =~= start + list_candidates(objs@.take(i + 1), depth as nat));
        i = i + 1;
    }
    assert(objs@.take(i as int) =~= objs@);
}

/// The page objects that may be glyph outlines drawn as paths, in walk
/// order: filled paths with at least `MIN_TOTAL_SEGMENTS` segments and
/// readable bounds, on the page or inside forms entered at most
/// `MAX_FORM_DEPTH` levels deep.
pub fn glyph_candidates(objects: &Vec<Option<PageObject>>) -> (r: Vec<GlyphCandidate>)
    ensures
        r@ == list_candidates(objects@, 0),
{
    let mut out: Vec<GlyphCandidate> = Vec::new();
    collect_from_objects(objects, 0, &mut out);
    assert(out@ =~= list_candidates(objects@, 0));
    out
}

/// The bounds keys of the page's images whose bounds could be read, in page
/// order.
pub fn image_bounds_candidates(objects: &Vec<Option<PageObject>>) -> (r: Vec<usize>)
    ensures
        r@ == image_bounds_keys(objects@),
{
    let mut out: Vec<usize> = Vec::new();
    let mut i: usize = 0;
    while i < objects.len()
        invariant
            i <= objects@.len(),
            out@ == image_bounds_keys(objects@.take(i as int)),
        decreases objects@.len() - i,
    {
        assert(objects@.take(i + 1).drop_last() =~= objects@.take(i as int));
        match &objects[i] {
            Some(PageObject::Image { bounds: Some(b) }) => {
                out.push(*b);
            },
            _ => {},
        }
        assert(out@ =~= image_bounds_keys(objects@.take(i + 1)));
        i = i + 1;
    }
    assert(objects@.take(i as int) =~= objects@);
    out
}

/// The position among the page's objects of image number `image_obj_index`
/// (counting images only, from 0), if the page has that many images.
pub fn image_object_position(objects: &Vec<Option<PageObject>>, image_obj_index: usize) -> (r:
    Option<usize>)
    ensures
        match r {
            Some(i) => i < objects@.len() && is_image(objects@[i as int]) && image_count(
                objects@.take(i as int),
            ) == image_obj_index,
            None => image_count(objects@) <= image_obj_index,
        },
        r matches Some(i) ==> objects@[i as int] matches Some(PageObject::Image { .. }),
        r matches Some(i) ==> objects@.take(i as int).filter(
            |o: Option<PageObject>| o matches Some(PageObject::Image { .. }),
        ).len() == image_obj_index,
        r is None ==> objects@.filter(
            |o: Option<PageObject>| o matches Some(PageObject::Image { .. }),
        ).len() <= image_obj_index,
{
    let mut image_idx: usize = 0;
    let mut i: usize = 0;
    while i < objects.len()
        invariant
            i <= objects@.len(),
            image_idx == image_count(objects@.take(i as int)),
            image_idx <= image_obj_index,
        decreases objects@.len() - i,
    {
        assert(objects@.take(i + 1).drop_last() =~= objects@.take(i as int));
        match &objects[i] {
            Some(PageObject::Image { .. }) => {
                if image_idx == image_obj_index {
                    proof {
                        lemma_image_count_counts_images(objects@.take(i as int));
                    }
                    return Some(i);
                }
                image_idx = image_idx + 1;
            },
            _ => {},
        }
        i = i + 1;
    }
    assert(objects@.take(i as int) =~= objects@);
    proof {
        lemma_image_count_counts_images(objects@);
    }
    None
}

/// Among the first `j` objects there are at least as many images as among
/// the first `i <= j`, and more when object `i` is an image and `i < j`.
proof fn lemma_image_count_grows(objs: Seq<Option<PageObject>>, i: int, j: int)
    requires
        0 <= i <= j <= objs.len(),
    ensures
        image_count(objs.take(i)) <= image_count(objs.take(j)),
        i < j && is_image(objs[i]) ==> image_count(objs.take(i)) < image_count(objs.take(j)),
    decreases j - i,
{
    if i < j {
        lemma_image_count_grows(objs, i, j - 1);
        assert(objs.take(j).drop_last() =~= objs.take(j - 1));
        if i == j - 1 {
            assert(objs.take(j).last() == objs[i]);
        }
    }
}

/// Law: images are numbered in page order. When image number `n1` stands at
/// position `i1` and image number `n2` at position `i2`, a smaller number
/// stands at an earlier position.
pub proof fn lemma_image_positions_follow_numbers(
    objs: Seq<Option<PageObject>>,
    n1: nat,
    i1: int,
    n2: nat,
    i2: int,
)
    requires
        0 <= i1 < objs.len(),
        0 <= i2 < objs.len(),
        is_image(objs[i1]),
        is_image(objs[i2]),
        image_count(objs.take(i1)) == n1,
        image_count(objs.take(i2)) == n2,
        n1 < n2,
    ensures
        i1 < i2,
{
    if i2 <= i1 {
        lemma_image_count_grows(objs, i2, i1);
    }
}

/// A candidate meets the segment thresholds of the glyph test.
pub open spec fn meets_segment_thresholds(c: GlyphCandidate) -> bool {
    &&& c.segment_count >= MIN_TOTAL_SEGMENTS
    &&& c.dense ==> c.segment_count >= MIN_FLATTENED_SEGMENTS
}

/// Law: every candidate found in an object has at least
/// `MIN_TOTAL_SEGMENTS` segments, and a dense one at least
/// `MIN_FLATTENED_SEGMENTS`.
pub proof fn lemma_object_candidates_meet_thresholds(obj: PageObject, depth: nat)
    ensures
        forall|k: int|
            0 <= k < object_candidates(obj, depth).len() ==> meets_segment_thresholds(
                #[trigger] object_candidates(obj, depth)[k],
            ),
    decreases obj,
{
    match obj {
        PageObject::Form { children } => {
            if depth < MAX_FORM_DEPTH {
                let inner = list_candidates(children@, depth + 1);
                lemma_list_candidates_meet_thresholds(children@, depth + 1);
                assert(object_candidates(obj, depth) == inner);
                assert forall|k: int|
                    0 <= k < object_candidates(obj, depth).len() implies meets_segment_thresholds(
                    #[trigger] object_candidates(obj, depth)[k],
                ) by {
                    assert(meets_segment_thresholds(inner[k]));
                }
            } else {
                assert(object_candidates(obj, depth) =~= Seq::empty());
            }
        },
        _ => {},
    }
}

/// Law: every candidate found in a list of objects meets the segment
/// thresholds, as `lemma_object_candidates_meet_thresholds` states for one.
pub proof fn lemma_list_candidates_meet_thresholds(objs: Seq<Option<PageObject>>, depth: nat)
    ensures
        forall|k: int|
            0 <= k < list_candidates(objs, depth).len() ==> meets_segment_thresholds(
                #[trigger] list_candidates(objs, depth)[k],
            ),
    decreases objs,
{
    if objs.len() > 0 {
        lemma_list_candidates_meet_thresholds(objs.drop_last(), depth);
        match objs.last() {
            Some(o) => {
                lemma_object_candidates_meet_thresholds(o, depth);
            },
            None => {},
        }
        let front = list_candidates(objs.drop_last(), depth);
        let back = match objs.last() {
            Some(o) => object_candidates(o, depth),
            None => Seq::empty(),
        };
        assert forall|k: int|
            0 <= k < list_candidates(objs, depth).len() implies meets_segment_thresholds(
            #[trigger] list_candidates(objs, depth)[k],
        ) by {
            if k < front.len() {
                assert(list_candidates(objs, depth)[k] == front[k]);
            } else {
                assert(list_candidates(objs, depth)[k] == back[k - front.len()]);
            }
        }
    }
}

/// Law: the candidates of consecutive runs of objects are those of each run,
/// in order: the walk keeps the objects' order.
pub proof fn lemma_list_candidates_concatenate(
    a: Seq<Option<PageObject>>,
    b: Seq<Option<PageObject>>,
    depth: nat,
)
    ensures
        list_candidates(a + b, depth) == list_candidates(a, depth) + list_candidates(b, depth),
    decreases b.len(),
{
    if b.len() == 0 {
        assert(a + b =~= a);
        assert(list_candidates(a, depth) + list_candidates(b, depth) =~= list_candidates(
            a,
            depth,
        ));
    } else {
        lemma_list_candidates_concatenate(a, b.drop_last(), depth);
        assert((a + b).drop_last() =~= a + b.drop_last());
        assert((a + b).last() == b.last());
        let tail = match b.last() {
            Some(o) => object_candidates(o, depth),
            None => Seq::empty(),
        };
        assert(list_candidates(a, depth) + list_candidates(b.drop_last(), depth) + tail
            =~= list_candidates(a, depth) + (list_candidates(b.drop_last(), depth) + tail));
    }
}

/// Law: a form at depth 0 or 1 yields the candidates of its objects, each
/// walked one level deeper, in order; a form two or more levels deep yields
/// none.
pub proof fn lemma_form_candidates(children: Vec<Option<PageObject>>, depth: nat)
    ensures
        depth < 2 ==> object_candidates(PageObject::Form { children }, depth) == list_candidates(
            children@,
            depth + 1,
        ),
        depth >= 2 ==> object_candidates(PageObject::Form { children }, depth) == Seq::<
            GlyphCandidate,
        >::empty(),
{
}

/// The final test of a glyph-outline candidate, given the outcomes of the
/// tests on its bounding box that the caller makes: the box must be
/// text-sized (`box_fits`), and the path either Bézier-heavy or dense with
/// segments whose density over the box reaches the threshold
/// (`density_reached`).
pub fn is_glyph_like(c: &GlyphCandidate, box_fits: bool, density_reached: bool) -> (r: bool)
    ensures
        r == (box_fits && (c.bezier_like || (c.dense && density_reached))),
{
    box_fits && (c.bezier_like || (c.dense && density_reached))
}

/// Whether an image's bounding box is kept, given the outcomes of the
/// caller's size tests: it must be at least the minimum size each way, and
/// must not exceed the page-coverage limit in both directions at once.
pub fn keeps_image_bounds(
    wide_enough: bool,
    tall_enough: bool,
    wider_than_limit: bool,
    taller_than_limit: bool,
) -> (r: bool)
    ensures
        r == (wide_enough && tall_enough && !(wider_than_limit && taller_than_limit)),
{
    wide_enough && tall_enough && !(wider_than_limit && taller_than_limit)
}

/// Law: the Bézier count of a path is the number of its segments that are
/// Bézier curves, and nothing else.
pub proof fn lemma_bezier_count_counts_curves(segs: Seq<Option<SegmentKind>>)
    ensures
        bezier_count(segs) == segs.filter(
            |s: Option<SegmentKind>| s == Some(SegmentKind::BezierTo),
        ).len(),
    decreases segs.len(),
{
    reveal(Seq::filter);
    if segs.len() > 0 {
        lemma_bezier_count_counts_curves(segs.drop_last());
    }
}

/// A path none of whose segments is a Bézier curve has a Bézier count of 0.
proof fn lemma_no_curves_no_count(segs: Seq<Option<SegmentKind>>)
    requires
        forall|k: int| 0 <= k < segs.len() ==> segs[k] != Some(SegmentKind::BezierTo),
    ensures
        bezier_count(segs) == 0,
    decreases segs.len(),
{
    if segs.len() > 0 {
        assert(segs.last() == segs[segs.len() - 1]);
        lemma_no_curves_no_count(segs.drop_last());
    }
}

/// Law: a path drawn from moves and lines alone (no Bézier curve) is never
/// taken for a Bézier-heavy letterform, however many segments it has.
pub proof fn lemma_curveless_path_not_bezier_like(
    fill: Option<FillMode>,
    segments: Vec<Option<SegmentKind>>,
    bounds: Option<usize>,
)
    requires
        forall|k: int| 0 <= k < segments@.len() ==> segments@[k] != Some(SegmentKind::BezierTo),
    ensures
        path_candidate(fill, segments, bounds) matches Some(c) ==> !c.bezier_like,
{
    lemma_no_curves_no_count(segments@);
}

/// Law: a path with at least `MIN_BEZIER_SEGMENTS` Bézier segments, filled,
/// with at least `MIN_TOTAL_SEGMENTS` segments and readable bounds, is a
/// Bézier-like candidate.
pub proof fn lemma_curved_path_is_bezier_like(
    fill: FillMode,
    segments: Vec<Option<SegmentKind>>,
    b: usize,
)
    requires
        fill != FillMode::NoFill,
        segments@.len() >= MIN_TOTAL_SEGMENTS,
        segments@.filter(|s: Option<SegmentKind>| s == Some(SegmentKind::BezierTo)).len()
            >= MIN_BEZIER_SEGMENTS,
    ensures
        path_candidate(Some(fill), segments, Some(b)) matches Some(c) && c.bezier_like && c.bounds
            == b && c.segment_count == segments@.len(),
{
    lemma_bezier_count_counts_curves(segments@);
}

/// Law: the images of a list of objects are counted as the objects that are
/// images, and nothing else.
pub proof fn lemma_image_count_counts_images(objs: Seq<Option<PageObject>>)
    ensures
        image_count(objs) == objs.filter(
            |o: Option<PageObject>| o matches Some(PageObject::Image { .. }),
        ).len(),
    decreases objs.len(),
{
    reveal(Seq::filter);
    if objs.len() > 0 {
        lemma_image_count_counts_images(objs.drop_last());
    }
}

/// Law: the image bounds keys of consecutive runs of objects are those of
/// each run, in order.
pub proof fn lemma_image_bounds_keys_concatenate(
    a: Seq<Option<PageObject>>,
    b: Seq<Option<PageObject>>,
)
    ensures
        image_bounds_keys(a + b) == image_bounds_keys(a) + image_bounds_keys(b),
    decreases b.len(),
{
    if b.len() == 0 {
        assert(a + b =~= a);
        assert(image_bounds_keys(a) + image_bounds_keys(b) =~= image_bounds_keys(a));
    } else {
        lemma_image_bounds_keys_concatenate(a, b.drop_last());
        assert((a + b).drop_last() =~= a + b.drop_last());
        assert((a + b).last() == b.last());
        let tail = match b.last() {
            Some(PageObject::Image { bounds: Some(k) }) => seq![k],
            _ => Seq::empty(),
        };
        assert(image_bounds_keys(a) + image_bounds_keys(b.drop_last()) + tail =~= image_bounds_keys(
            a,
        ) + (image_bounds_keys(b.drop_last()) + tail));
    }
}

/// Law: a single object contributes its key exactly when it is an image
/// whose bounds could be read.
pub proof fn lemma_image_bounds_keys_single(o: Option<PageObject>)
    ensures
        o matches Some(PageObject::Image { bounds: Some(k) }) ==> image_bounds_keys(seq![o])
            == seq![k],
        !(o matches Some(PageObject::Image { bounds: Some(_) })) ==> image_bounds_keys(seq![o])
            == Seq::<usize>::empty(),
{
    let one = seq![o];
    assert(one.drop_last() =~= Seq::<Option<PageObject>>::empty());
    assert(one.last() == o);
    let tail = match o {
        Some(PageObject::Image { bounds: Some(k) }) => seq![k],
        _ => Seq::empty(),
    };
    assert(image_bounds_keys(one) == image_bounds_keys(one.drop_last()) + tail);
    assert(image_bounds_keys(one) =~= tail);
}

/// Law: which paths are candidates, and with what profile. A path is a
/// candidate exactly when it is filled, has at least 10 segments and readable
/// bounds; it is then Bézier-like exactly when at least 6 of its segments are
/// Bézier curves, and dense exactly when it has at least 64 segments.
pub proof fn lemma_path_candidate_profile(
    fill: Option<FillMode>,
    segments: Vec<Option<SegmentKind>>,
    bounds: Option<usize>,
)
    ensures
        path_candidate(fill, segments, bounds) is Some <==> (fill is Some && fill != Some(
            FillMode::NoFill,
        ) && bounds is Some && segments@.len() >= 10),
        path_candidate(fill, segments, bounds) matches Some(c) ==> c.bounds == bounds->Some_0
            && c.segment_count == segments@.len() && (c.bezier_like <==> segments@.filter(
            |s: Option<SegmentKind>| s == Some(SegmentKind::BezierTo),
        ).len() >= 6) && (c.dense <==> segments@.len() >= 64),
{
    lemma_bezier_count_counts_curves(segments@);
}

/// Law: a single object on its own yields the candidates of that object; a
/// missing object yields none.
pub proof fn lemma_single_object_candidates(o: Option<PageObject>, depth: nat)
    ensures
        list_candidates(seq![o], depth) == match o {
            Some(obj) => object_candidates(obj, depth),
            None => Seq::<GlyphCandidate>::empty(),
        },
{
    let one = seq![o];
    assert(one.drop_last() =~= Seq::<Option<PageObject>>::empty());
    assert(one.last() == o);
    let tail = match o {
        Some(obj) => object_candidates(obj, depth),
        None => Seq::<GlyphCandidate>::empty(),
    };
    assert(list_candidates(one, depth) == list_candidates(one.drop_last(), depth) + tail);
    assert(list_candidates(one, depth) =~= tail);
}

} // verus!
