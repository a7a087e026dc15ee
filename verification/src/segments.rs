//! Row ranges of a page that differ from its baseline, and the encoder
//! that builds them from a row-by-row signal.

use vstd::prelude::*;

verus! {

/// A height on a page, as a fraction of the page's height: `numerator`
/// over `denominator`, from 0 at the top row to 1 at the bottom row. A
/// value whose denominator is zero is no position.
#[derive(Debug, Clone, Copy, PartialEq, Eq, Structural)]
pub struct Position {
    pub numerator: u32,
    pub denominator: u32,
}

impl Position {
    /// Whether the position lies on the page, between 0 and 1.
    pub open spec fn on_page(&self) -> bool {
        0 < self.denominator && self.numerator <= self.denominator
    }

    /// Whether this position is no lower on the page than `other`.
    pub open spec fn at_most(&self, other: &Position) -> bool {
        self.numerator * other.denominator <= other.numerator * self.denominator
    }

    /// Whether this position is strictly higher on the page than `other`.
    pub open spec fn before(&self, other: &Position) -> bool {
        self.numerator * other.denominator < other.numerator * self.denominator
    }

    /// The top of the page.
    pub fn top() -> (position: Position)
        ensures
            position == (Position { numerator: 0, denominator: 1 }),
    {
        Position { numerator: 0, denominator: 1 }
    }

    /// The bottom of the page.
    pub fn bottom() -> (position: Position)
        ensures
            position == (Position { numerator: 1, denominator: 1 }),
    {
        Position { numerator: 1, denominator: 1 }
    }
}

/// One segment: the positions of its first and of its last row.
pub type Segment = (Position, Position);

/// The one segment that flags a whole page.
pub open spec fn whole_page() -> Seq<Segment> {
    seq![(Position { numerator: 0, denominator: 1 }, Position { numerator: 1, denominator: 1 })]
}

/// The parts of a page that differ from its baseline, from top to bottom.
#[derive(Debug, PartialEq, Eq)]
pub struct DifferenceSegments {
    pub segments: Vec<Segment>,
}

impl View for DifferenceSegments {
    type V = Seq<Segment>;

    open spec fn view(&self) -> Seq<Segment> {
        self.segments@
    }
}

/// Segments are in order when each lies on the page, none ends before it
/// starts, and each ends strictly before the next one starts.
pub open spec fn ordered_on_page(segments: Seq<Segment>) -> bool {
    &&& forall|k: int|
        0 <= k < segments.len() ==> {
            &&& (#[trigger] segments[k]).0.on_page()
            &&& segments[k].1.on_page()
            &&& segments[k].0.at_most(&segments[k].1)
        }
    &&& forall|k: int, m: int|
        0 <= k < m < segments.len() ==> (#[trigger] segments[k]).1.before(
            &(#[trigger] segments[m]).0,
        )
}

impl DifferenceSegments {
    /// See [`ordered_on_page`].
    pub open spec fn well_formed(&self) -> bool {
        ordered_on_page(self@)
    }
}

/// Whether `segment` runs from row `first` to row `last` of a page whose
/// bottom row is `bottom`.
pub open spec fn spans(segment: Segment, first: int, last: int, bottom: int) -> bool {
    &&& segment.0.numerator == first
    &&& segment.1.numerator == last
    &&& segment.0.denominator == bottom
    &&& segment.1.denominator == bottom
}

/// Whether `segment` covers row `row`.
pub open spec fn covers(segment: Segment, row: int) -> bool {
    segment.0.numerator <= row <= segment.1.numerator
}

/// Whether `segment` is a run of `hits` that cannot be made longer: all of
/// its rows are hit, the row above it is not, and the row below it is not.
pub open spec fn is_maximal_run(segment: Segment, hits: Seq<bool>, bottom: int) -> bool {
    let first = segment.0.numerator as int;
    let last = segment.1.numerator as int;
    &&& spans(segment, first, last, bottom)
    &&& 0 <= first <= last < hits.len()
    &&& forall|row: int| first <= row <= last ==> #[trigger] hits[row]
    &&& first == 0 || !hits[first - 1]
    &&& last + 1 == hits.len() || !hits[last + 1]
}

/// `segments` encodes the row signal `hits` of a page whose bottom row is
/// `bottom`: it lists, from top to bottom, the maximal runs of hit rows,
/// all of them and nothing else. Row `r` is written as the position
/// `r / bottom`, which is a position where the page has more than one row.
pub open spec fn encodes(segments: Seq<Segment>, hits: Seq<bool>, bottom: int) -> bool {
    &&& forall|k: int|
        0 <= k < segments.len() ==> is_maximal_run(#[trigger] segments[k], hits, bottom)
    &&& forall|k: int, m: int|
        0 <= k < m < segments.len() ==> (#[trigger] segments[k]).1.numerator
            < (#[trigger] segments[m]).0.numerator
    &&& forall|row: int|
        0 <= row < hits.len() && #[trigger] hits[row] ==> exists|k: int|
            0 <= k < segments.len() && covers(#[trigger] segments[k], row)
}

/// `segments` flags the rows `hits` of a page of `height` rows.
///
/// On a page of several rows the segments encode the rows: row `r` lies
/// at `r / (height - 1)`, the top row at 0 and the bottom row at 1. A page
/// of one row has no height to divide: where its row is hit the page is
/// flagged from top to bottom, in the one segment from 0 to 1, and where
/// it is not, nothing is flagged.
pub open spec fn flags(segments: Seq<Segment>, hits: Seq<bool>, height: int) -> bool {
    if height == 1 {
        segments == if hits.len() > 0 && hits[0] {
            whole_page()
        } else {
            Seq::<Segment>::empty()
        }
    } else {
        encodes(segments, hits, height - 1)
    }
}

/// Builds the segments of one page from its rows, taken from top to
/// bottom. At most one segment is open at a time.
pub struct DifferenceSegementsBuilder {
    segments: DifferenceSegments,
    current_segment: Option<Segment>,
}

impl DifferenceSegementsBuilder {
    /// The segments that are closed.
    pub closed spec fn finished(&self) -> Seq<Segment> {
        self.segments@
    }

    /// The segment that is open, if one is.
    pub closed spec fn current(&self) -> Option<Segment> {
        self.current_segment
    }

    /// A builder that has seen no row.
    pub fn build() -> (builder: Self)
        ensures
            builder.finished() == Seq::<Segment>::empty(),
            builder.current() == None::<Segment>,
    {
        DifferenceSegementsBuilder {
            segments: DifferenceSegments { segments: Vec::new() },
            current_segment: None,
        }
    }

    /// Takes the next row, at `position`. A hit extends the open segment to
    /// `position`, or opens one there; a miss closes the open segment.
    pub fn step(&mut self, position: Position, hit: bool)
        ensures
            final(self).finished() == match (old(self).current(), hit) {
                (Some(open), false) => old(self).finished().push(open),
                _ => old(self).finished(),
            },
            final(self).current() == match (old(self).current(), hit) {
                (Some(open), true) => Some((open.0, position)),
                (None, true) => Some((position, position)),
                (_, false) => None,
            },
    {
        match self.current_segment {
            Some(v) => {
                if hit {
                    self.current_segment = Some((v.0, position));
                } else {
                    self.segments.segments.push(v);
                    self.current_segment = None;
                }
            },
            None => {
                if hit {
                    self.current_segment = Some((position, position));
                }
            },
        }
    }

    /// Closes the open segment, if one is open, and hands out all segments.
    pub fn finish(self) -> (segments: DifferenceSegments)
        ensures
            segments@ == match self.current() {
                Some(open) => self.finished().push(open),
                None => self.finished(),
            },
    {
        let mut this = self;
        match this.current_segment {
            Some(v) => {
                this.segments.segments.push(v);
                this.segments
            },
            None => this.segments,
        }
    }
}

/// The closed segments of an encoder, followed by its open one.
pub open spec fn with_open(finished: Seq<Segment>, current: Option<Segment>) -> Seq<Segment> {
    match current {
        Some(open) => finished.push(open),
        None => finished,
    }
}

/// What holds of an encoder that has taken the first `seen` rows of `hits`:
/// its segments encode those rows, and a segment is open exactly when the
/// last of them was hit.
pub open spec fn encoded_so_far(
    finished: Seq<Segment>,
    current: Option<Segment>,
    hits: Seq<bool>,
    seen: int,
    bottom: int,
) -> bool {
    &&& 0 <= seen <= hits.len()
    &&& encodes(with_open(finished, current), hits.take(seen), bottom)
    &&& match current {
        Some(open) => open.1.numerator + 1 == seen,
        None => seen == 0 || !hits[seen - 1],
    }
}

/// Taking row `seen` keeps the encoder's segments an encoding of the rows
/// taken.
pub proof fn lemma_encoder_step(
    finished: Seq<Segment>,
    current: Option<Segment>,
    hits: Seq<bool>,
    seen: int,
    bottom: int,
    position: Position,
)
    requires
        encoded_so_far(finished, current, hits, seen, bottom),
        seen < hits.len(),
        position.numerator == seen,
        position.denominator == bottom,
    ensures
        encoded_so_far(
            match (current, hits[seen]) {
                (Some(open), false) => finished.push(open),
                _ => finished,
            },
            match (current, hits[seen]) {
                (Some(open), true) => Some((open.0, position)),
                (None, true) => Some((position, position)),
                (_, false) => None,
            },
            hits,
            seen + 1,
            bottom,
        ),
{
    let before = with_open(finished, current);
    let old_hits = hits.take(seen);
    let new_hits = hits.take(seen + 1);
    let after = with_open(
        match (current, hits[seen]) {
            (Some(open), false) => finished.push(open),
            _ => finished,
        },
        match (current, hits[seen]) {
            (Some(open), true) => Some((open.0, position)),
            (None, true) => Some((position, position)),
            (_, false) => None,
        },
    );
    assert forall|k: int| 0 <= k < finished.len() implies is_maximal_run(
        #[trigger] finished[k],
        new_hits,
        bottom,
    ) && finished[k].1.numerator + 1 < seen by {
        assert(finished[k] == before[k]);
        assert(is_maximal_run(before[k], old_hits, bottom));
        let last = finished[k].1.numerator as int;
        assert(old_hits[last]);
        match current {
            Some(open) => {
                assert(before[finished.len() as int] == open);
                assert(before[k].1.numerator < before[finished.len() as int].0.numerator);
            },
            None => {},
        }
        assert forall|row: int| finished[k].0.numerator <= row <= last implies #[trigger] new_hits[row] by {
            assert(old_hits[row]);
        }
    }
    match (current, hits[seen]) {
        (Some(open), true) => {
            let grown = (open.0, position);
            assert(before[finished.len() as int] == open);
            assert(is_maximal_run(before[finished.len() as int], old_hits, bottom));
            assert(after =~= finished.push(grown));
            assert forall|row: int| grown.0.numerator <= row <= seen implies #[trigger] new_hits[row] by {
                if row < seen {
                    assert(old_hits[row]);
                }
            }
            assert(is_maximal_run(grown, new_hits, bottom));
            assert forall|row: int| 0 <= row < new_hits.len() && #[trigger] new_hits[row] implies exists|
                k: int,
            |
                0 <= k < after.len() && covers(#[trigger] after[k], row) by {
                if row < seen {
                    assert(old_hits[row]);
                    let k = choose|k: int| 0 <= k < before.len() && covers(#[trigger] before[k], row);
                    if k < finished.len() {
                        assert(after[k] == before[k]);
                    } else {
                        assert(covers(after[finished.len() as int], row));
                    }
                } else {
                    assert(covers(after[finished.len() as int], row));
                }
            }
        },
        (Some(open), false) => {
            assert(before[finished.len() as int] == open);
            assert(is_maximal_run(before[finished.len() as int], old_hits, bottom));
            assert(after =~= before);
            assert forall|row: int| open.0.numerator <= row <= open.1.numerator implies #[trigger] new_hits[row] by {
                assert(old_hits[row]);
            }
            assert(is_maximal_run(open, new_hits, bottom));
            assert forall|row: int| 0 <= row < new_hits.len() && #[trigger] new_hits[row] implies exists|
                k: int,
            |
                0 <= k < after.len() && covers(#[trigger] after[k], row) by {
                assert(old_hits[row]);
                let k = choose|k: int| 0 <= k < before.len() && covers(#[trigger] before[k], row);
                assert(covers(after[k], row));
            }
        },
        (None, true) => {
            let opened = (position, position);
            assert(after =~= finished.push(opened));
            assert(is_maximal_run(opened, new_hits, bottom));
            assert forall|row: int| 0 <= row < new_hits.len() && #[trigger] new_hits[row] implies exists|
                k: int,
            |
                0 <= k < after.len() && covers(#[trigger] after[k], row) by {
                if row < seen {
                    assert(old_hits[row]);
                    let k = choose|k: int| 0 <= k < before.len() && covers(#[trigger] before[k], row);
                    assert(after[k] == before[k]);
                } else {
                    assert(covers(after[finished.len() as int], row));
                }
            }
        },
        (None, false) => {
            assert(after =~= before);
            assert forall|row: int| 0 <= row < new_hits.len() && #[trigger] new_hits[row] implies exists|
                k: int,
            |
                0 <= k < after.len() && covers(#[trigger] after[k], row) by {
                assert(old_hits[row]);
                let k = choose|k: int| 0 <= k < before.len() && covers(#[trigger] before[k], row);
                assert(covers(after[k], row));
            }
        },
    }
    assert forall|k: int| 0 <= k < after.len() implies is_maximal_run(
        #[trigger] after[k],
        new_hits,
        bottom,
    ) by {
        if k < finished.len() {
            assert(after[k] == finished[k]);
        }
    }
    assert forall|k: int, m: int| 0 <= k < m < after.len() implies (#[trigger] after[k]).1.numerator
        < (#[trigger] after[m]).0.numerator by {
        if m < finished.len() {
            assert(after[k] == before[k] && after[m] == before[m]);
        } else {
            assert(after[k] == finished[k]);
        }
    }
    assert(encodes(after, new_hits, bottom));
}

/// Two maximal runs of one signal that share a row are the same segment.
pub proof fn lemma_runs_meet(a: Segment, b: Segment, hits: Seq<bool>, bottom: int, row: int)
    requires
        is_maximal_run(a, hits, bottom),
        is_maximal_run(b, hits, bottom),
        covers(a, row),
        covers(b, row),
    ensures
        a == b,
{
    if a.0.numerator < b.0.numerator {
        assert(hits[b.0.numerator - 1]);
    }
    if b.0.numerator < a.0.numerator {
        assert(hits[a.0.numerator - 1]);
    }
    if a.1.numerator < b.1.numerator {
        assert(hits[a.1.numerator + 1]);
    }
    if b.1.numerator < a.1.numerator {
        assert(hits[b.1.numerator + 1]);
    }
}

/// Where two lists encode one signal, every segment of the first stands
/// at the same place in the second.
proof fn lemma_encoding_prefix(
    first: Seq<Segment>,
    second: Seq<Segment>,
    hits: Seq<bool>,
    bottom: int,
    k: int,
)
    requires
        encodes(first, hits, bottom),
        encodes(second, hits, bottom),
        0 <= k < first.len(),
    ensures
        k < second.len(),
        first[k] == second[k],
    decreases k,
{
    let start = first[k].0.numerator as int;
    assert(is_maximal_run(first[k], hits, bottom));
    assert(hits[start]);
    let m = choose|m: int| 0 <= m < second.len() && covers(#[trigger] second[m], start);
    assert(is_maximal_run(second[m], hits, bottom));
    lemma_runs_meet(first[k], second[m], hits, bottom, start);
    if m < k {
        lemma_encoding_prefix(first, second, hits, bottom, m);
        assert(first[m].1.numerator < first[k].0.numerator);
    } else if m > k {
        let other = second[k].0.numerator as int;
        assert(is_maximal_run(second[k], hits, bottom));
        assert(hits[other]);
        let j = choose|j: int| 0 <= j < first.len() && covers(#[trigger] first[j], other);
        assert(is_maximal_run(first[j], hits, bottom));
        lemma_runs_meet(first[j], second[k], hits, bottom, other);
        assert(second[k].1.numerator < second[m].0.numerator);
        if j < k {
            lemma_encoding_prefix(first, second, hits, bottom, j);
            assert(second[j].1.numerator < second[k].0.numerator);
        } else if j > k {
            assert(first[k].1.numerator < first[j].0.numerator);
        }
    }
}

/// A row signal has one encoding only: two lists of segments that encode
/// the same signal of the same page are the same list.
pub proof fn lemma_encoding_unique(
    first: Seq<Segment>,
    second: Seq<Segment>,
    hits: Seq<bool>,
    bottom: int,
)
    requires
        encodes(first, hits, bottom),
        encodes(second, hits, bottom),
    ensures
        first == second,
{
    if first.len() > 0 {
        lemma_encoding_prefix(first, second, hits, bottom, first.len() - 1);
    }
    if second.len() > 0 {
        lemma_encoding_prefix(second, first, hits, bottom, second.len() - 1);
    }
    assert forall|k: int| 0 <= k < first.len() implies first[k] == second[k] by {
        lemma_encoding_prefix(first, second, hits, bottom, k);
    }
    assert(first =~= second);
}

/// Where exactly the rows from `top` to `low` are hit, the encoding is the
/// one segment from `top / bottom` to `low / bottom`.
pub proof fn lemma_single_band(
    segments: Seq<Segment>,
    hits: Seq<bool>,
    bottom: int,
    top: int,
    low: int,
)
    requires
        encodes(segments, hits, bottom),
        0 <= top <= low < hits.len(),
        hits.len() <= u32::MAX,
        0 <= bottom <= u32::MAX,
        forall|row: int| 0 <= row < hits.len() ==> (#[trigger] hits[row] <==> top <= row <= low),
    ensures
        segments == seq![
            (
                Position { numerator: top as u32, denominator: bottom as u32 },
                Position { numerator: low as u32, denominator: bottom as u32 },
            ),
        ],
{
    let band = (
        Position { numerator: top as u32, denominator: bottom as u32 },
        Position { numerator: low as u32, denominator: bottom as u32 },
    );
    let only = seq![band];
    assert(is_maximal_run(band, hits, bottom));
    assert forall|row: int| 0 <= row < hits.len() && #[trigger] hits[row] implies exists|k: int|
        0 <= k < only.len() && covers(#[trigger] only[k], row) by {
        assert(covers(only[0], row));
    }
    assert(encodes(only, hits, bottom));
    lemma_encoding_unique(segments, only, hits, bottom);
}

/// The segments of an encoding never overlap and never stand out of
/// order: on a page of more than one row each lies between 0 and 1, starts
/// no later than it ends, and ends strictly before the next one starts.
/// Where the bottom row of the page is hit, the last segment ends at 1.
pub proof fn lemma_encoding_ordered(segments: Seq<Segment>, hits: Seq<bool>, bottom: int)
    requires
        encodes(segments, hits, bottom),
        0 < bottom,
        hits.len() <= bottom + 1,
    ensures
        ordered_on_page(segments),
        hits.len() == bottom + 1 && hits[bottom] ==> segments.len() > 0 && segments.last().1.numerator
            == segments.last().1.denominator,
{
    assert forall|k: int| 0 <= k < segments.len() implies {
        &&& (#[trigger] segments[k]).0.on_page()
        &&& segments[k].1.on_page()
        &&& segments[k].0.at_most(&segments[k].1)
    } by {
        assert(is_maximal_run(segments[k], hits, bottom));
        let first = segments[k].0.numerator as int;
        let last = segments[k].1.numerator as int;
        assert(first * bottom <= last * bottom) by (nonlinear_arith)
            requires
                first <= last,
                0 < bottom,
        ;
    }
    assert forall|k: int, m: int| 0 <= k < m < segments.len() implies (#[trigger] segments[k]).1.before(
        &(#[trigger] segments[m]).0,
    ) by {
        assert(is_maximal_run(segments[k], hits, bottom));
        assert(is_maximal_run(segments[m], hits, bottom));
        let last = segments[k].1.numerator as int;
        let next = segments[m].0.numerator as int;
        assert(last * bottom < next * bottom) by (nonlinear_arith)
            requires
                last < next,
                0 < bottom,
        ;
    }
    if hits.len() == bottom + 1 && hits[bottom] {
        let k = choose|k: int| 0 <= k < segments.len() && covers(#[trigger] segments[k], bottom);
        assert(is_maximal_run(segments[k], hits, bottom));
        let end = segments.len() - 1;
        assert(is_maximal_run(segments[end], hits, bottom));
        if k < end {
            assert(segments[k].1.numerator < segments[end].0.numerator);
        }
    }
}

/// The rows of a page are flagged in one way only: two lists of segments
/// that flag the same rows of the same page are the same list.
pub proof fn lemma_flags_unique(
    first: Seq<Segment>,
    second: Seq<Segment>,
    hits: Seq<bool>,
    height: int,
)
    requires
        flags(first, hits, height),
        flags(second, hits, height),
    ensures
        first == second,
{
    if height != 1 {
        lemma_encoding_unique(first, second, hits, height - 1);
    }
}

/// The segments that flag the rows of a page never overlap and never
/// stand out of order: each lies between 0 and 1, starts no later than it
/// ends, and ends strictly before the next one starts. Where the bottom
/// row of the page is hit, the last segment ends at 1.
pub proof fn lemma_flags_ordered(segments: Seq<Segment>, hits: Seq<bool>, height: int)
    requires
        flags(segments, hits, height),
        hits.len() <= height,
    ensures
        ordered_on_page(segments),
        hits.len() == height && height > 0 && hits[height - 1] ==> segments.len() > 0
            && segments.last().1.numerator == segments.last().1.denominator,
{
    if height == 1 {
        if hits.len() > 0 && hits[0] {
            assert(segments[0].0.at_most(&segments[0].1));
        }
    } else if height > 1 {
        lemma_encoding_ordered(segments, hits, height - 1);
    } else {
        if segments.len() > 0 {
            assert(is_maximal_run(segments[0], hits, height - 1));
        }
    }
}

} // verus!
