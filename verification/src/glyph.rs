//! UFO glyph naming and the walk over a glyph contour.
//!
//! A contour is a closed ring of points. The walk starts at its first
//! on-curve point and goes once round the ring: every on-curve point ends a
//! segment (a cubic when exactly two off-curve points lead up to a `curve`
//! point, a line otherwise), and every point is listed once as a marker with
//! its role. Points are named by their index in the contour, so the caller
//! keeps the coordinates and the walk decides only the structure.

use crate::text::char_range;
use vstd::prelude::*;
use vstd::string::*;

verus! {

/// Whether `c` is an uppercase letter, as `char::is_uppercase` decides it.
pub uninterp spec fn char_is_uppercase(c: char) -> bool;

/// `char::is_uppercase`: the Unicode `Uppercase` property of `c`. The
/// contract claims only that the result is the one `char_is_uppercase` names.
#[verifier::external_body]
fn is_uppercase(c: char) -> (b: bool)
    ensures
        b == char_is_uppercase(c),
{
    c.is_uppercase()
}

/// The file stem UFO3 gives a glyph: every uppercase letter is followed by
/// an underscore.
pub open spec fn glif_stem(name: Seq<char>) -> Seq<char>
    decreases name.len(),
{
    if name.len() == 0 {
        Seq::empty()
    } else {
        let c = name.last();
        glif_stem(name.drop_last()) + if char_is_uppercase(c) {
            seq![c, '_']
        } else {
            seq![c]
        }
    }
}

/// UFO3 glif file name of a glyph: the stem and `.glif`.
pub fn glif_name(glyph: &str) -> (file: String)
    ensures
        file@ == glif_stem(glyph@) + ".glif"@,
{
    let n = glyph.unicode_len();
    let mut s = String::new();
    let mut i: usize = 0;
    while i < n
        invariant
            n == glyph@.len(),
            i <= n,
            s@ == glif_stem(glyph@.subrange(0, i as int)),
        decreases n - i,
    {
        let c = glyph.get_char(i);
        let one = char_range(glyph, i, i + 1);
        s.append(one.as_str());
        if is_uppercase(c) {
            proof {
                reveal_strlit("_");
            }
            s.append("_");
        }
        assert(glyph@.subrange(0, i + 1).drop_last() =~= glyph@.subrange(0, i as int));
        assert(s@ =~= glif_stem(glyph@.subrange(0, i + 1)));
        i = i + 1;
    }
    assert(glyph@.subrange(0, n as int) =~= glyph@);
    s.append(".glif");
    s
}

/// The type of a contour point, as a UFO glif file records it.
#[derive(Clone, Copy, Debug, PartialEq, Eq, Structural)]
pub enum PointKind {
    Move,
    Line,
    OffCurve,
    Curve,
    QCurve,
}

/// What a contour point is drawn as.
#[derive(Clone, Copy, Debug, PartialEq, Eq, Structural)]
pub enum PtRole {
    /// A smooth on-curve point.
    Smooth,
    /// An on-curve corner.
    Corner,
    /// An off-curve control point.
    Off,
}

/// What the walk reads of a contour point: its type and its smooth flag.
#[derive(Clone, Copy, Debug, PartialEq, Eq, Structural)]
pub struct ContourPoint {
    pub kind: PointKind,
    pub smooth: bool,
}

/// One segment of the walk; the numbers are point indices in the contour.
#[derive(Clone, Copy, Debug, PartialEq, Eq, Structural)]
pub enum Segment {
    /// A straight line to `end`.
    Line { end: usize },
    /// A cubic through the controls `c1` and `c2` to `end`.
    Curve { c1: usize, c2: usize, end: usize },
}

/// The point a segment ends at.
pub open spec fn segment_end(s: Segment) -> usize {
    match s {
        Segment::Line { end } => end,
        Segment::Curve { end, .. } => end,
    }
}

/// The role of an on-curve point.
pub open spec fn on_curve_role(smooth: bool) -> PtRole {
    if smooth {
        PtRole::Smooth
    } else {
        PtRole::Corner
    }
}

/// The role a point is drawn with.
pub open spec fn role_of(p: ContourPoint) -> PtRole {
    if p.kind == PointKind::OffCurve {
        PtRole::Off
    } else {
        on_curve_role(p.smooth)
    }
}

/// The first on-curve point at or after `i`, if any.
pub open spec fn first_on_curve_from(pts: Seq<ContourPoint>, i: nat) -> Option<nat>
    decreases pts.len() - i,
{
    if i >= pts.len() {
        None
    } else if pts[i as int].kind != PointKind::OffCurve {
        Some(i)
    } else {
        first_on_curve_from(pts, i + 1)
    }
}

/// Where the walk round a contour is after some steps.
pub struct WalkState {
    /// Off-curve points seen since the last on-curve point.
    pub pending: Seq<usize>,
    /// The last on-curve point reached.
    pub prev_on: usize,
    pub segments: Seq<Segment>,
    /// Every point reached so far with its role; the start is listed once.
    pub markers: Seq<(usize, PtRole)>,
    /// Control handles: an on-curve anchor and the off-curve point it pulls.
    pub handles: Seq<(usize, usize)>,
}

/// The walk after `k` steps from the on-curve point `start`; step `k`
/// reaches the point `(start + k) % n`, so step `n` closes the contour.
pub open spec fn walk(pts: Seq<ContourPoint>, start: usize, k: nat) -> WalkState
    decreases k,
{
    if k == 0 {
        WalkState {
            pending: Seq::empty(),
            prev_on: start,
            segments: Seq::empty(),
            markers: seq![(start, on_curve_role(pts[start as int].smooth))],
            handles: Seq::empty(),
        }
    } else {
        walk_step(pts, walk(pts, start, (k - 1) as nat), ((start + k) % (pts.len() as int)) as usize, k == pts.len())
    }
}

/// One step of the walk reaching point `i`; `closing` marks the step back
/// to the start, which is not listed again.
pub open spec fn walk_step(pts: Seq<ContourPoint>, s: WalkState, i: usize, closing: bool) -> WalkState {
    let p = pts[i as int];
    if p.kind == PointKind::OffCurve {
        WalkState { pending: s.pending.push(i), markers: s.markers.push((i, PtRole::Off)), ..s }
    } else {
        let markers = if closing {
            s.markers
        } else {
            s.markers.push((i, on_curve_role(p.smooth)))
        };
        if p.kind == PointKind::Curve && s.pending.len() == 2 {
            WalkState {
                pending: Seq::empty(),
                prev_on: i,
                segments: s.segments.push(Segment::Curve { c1: s.pending[0], c2: s.pending[1], end: i }),
                markers,
                handles: s.handles.push((s.prev_on, s.pending[0])).push((i, s.pending[1])),
            }
        } else {
            WalkState {
                pending: Seq::empty(),
                prev_on: i,
                segments: s.segments.push(Segment::Line { end: i }),
                markers,
                handles: s.handles,
            }
        }
    }
}

/// The structure of one contour: where the walk starts, its segments, its
/// markers and its handles.
pub struct ContourPlan {
    pub start: usize,
    pub segments: Vec<Segment>,
    pub markers: Vec<(usize, PtRole)>,
    pub handles: Vec<(usize, usize)>,
}

/// Walk a contour. `None` when it has no on-curve point (such a contour is
/// skipped). Otherwise the walk starts at the first on-curve point, and the
/// markers list every point exactly once, in contour order from the start,
/// with its role; the last segment closes the contour at the start.
pub fn plan_contour(pts: &Vec<ContourPoint>) -> (plan: Option<ContourPlan>)
    ensures
        first_on_curve_from(pts@, 0) is None <==> plan is None,
        plan matches Some(p) ==> {
            let w = walk(pts@, p.start, pts@.len());
            &&& first_on_curve_from(pts@, 0) == Some(p.start as nat)
            &&& p.segments@ == w.segments
            &&& p.markers@ == w.markers
            &&& p.handles@ == w.handles
        },
        plan matches Some(p) ==> p.segments@.len() > 0 && segment_end(p.segments@.last()) == p.start,
        plan matches Some(p) ==> {
            &&& p.markers@.len() == pts@.len()
            &&& forall|j: int|
                0 <= j < pts@.len() ==> #[trigger] p.markers@[j] == (
                    ((p.start + j) % (pts@.len() as int)) as usize,
                    role_of(pts@[(p.start + j) % (pts@.len() as int)]),
                )
        },
{
    let n = pts.len();
    let mut start: usize = 0;
    while start < n && pts[start].kind == PointKind::OffCurve
        invariant
            start <= n == pts@.len(),
            first_on_curve_from(pts@, 0) == first_on_curve_from(pts@, start as nat),
        decreases n - start,
    {
        start = start + 1;
    }
    if start == n {
        return None;
    }
    let first = pts[start];
    let mut pending: Vec<usize> = Vec::new();
    let mut prev_on = start;
    let mut segments: Vec<Segment> = Vec::new();
    let mut markers: Vec<(usize, PtRole)> = Vec::new();
    let mut handles: Vec<(usize, usize)> = Vec::new();
    markers.push((start, if first.smooth { PtRole::Smooth } else { PtRole::Corner }));
    assert(markers@ =~= walk(pts@, start, 0).markers);
    let mut k: usize = 1;
    while k < n
        invariant
            n == pts@.len(),
            start < n,
            pts@[start as int].kind != PointKind::OffCurve,
            1 <= k <= n,
            ({
                let w = walk(pts@, start, (k - 1) as nat);
                &&& pending@ == w.pending
                &&& prev_on == w.prev_on
                &&& segments@ == w.segments
                &&& markers@ == w.markers
                &&& handles@ == w.handles
            }),
            forall|j: int| 0 <= j < pending@.len() ==> pending@[j] < n,
            prev_on < n,
        decreases n - k,
    {
        let i = if k < n - start { start + k } else { k - (n - start) };
        assert(i == (start + k) % (n as int)) by {
            if k < n - start {
                vstd::arithmetic::div_mod::lemma_small_mod((start + k) as nat, n as nat);
            } else {
                vstd::arithmetic::div_mod::lemma_mod_sub_multiples_vanish((start + k) as int, n as int);
                vstd::arithmetic::div_mod::lemma_small_mod(i as nat, n as nat);
            }
        }
        let p = pts[i];
        let ghost before = walk(pts@, start, (k - 1) as nat);
        if p.kind == PointKind::OffCurve {
            pending.push(i);
            markers.push((i, PtRole::Off));
        } else {
            if p.kind == PointKind::Curve && pending.len() == 2 {
                segments.push(Segment::Curve { c1: pending[0], c2: pending[1], end: i });
                handles.push((prev_on, pending[0]));
                handles.push((i, pending[1]));
            } else {
                segments.push(Segment::Line { end: i });
            }
            pending = Vec::new();
            prev_on = i;
            markers.push((i, if p.smooth { PtRole::Smooth } else { PtRole::Corner }));
        }
        proof {
            let w = walk(pts@, start, k as nat);
            assert(w == walk_step(pts@, before, i, false));
            assert(pending@ =~= w.pending);
            assert(markers@ =~= w.markers);
            assert(segments@ =~= w.segments);
            assert(handles@ =~= w.handles);
        }
        k = k + 1;
    }
    // The closing step reaches the start again, which is on-curve and
    // already listed.
    let ghost before = walk(pts@, start, (n - 1) as nat);
    if first.kind == PointKind::Curve && pending.len() == 2 {
        segments.push(Segment::Curve { c1: pending[0], c2: pending[1], end: start });
        handles.push((prev_on, pending[0]));
        handles.push((start, pending[1]));
    } else {
        segments.push(Segment::Line { end: start });
    }
    proof {
        let w = walk(pts@, start, n as nat);
        assert((start + n) % (n as int) == start) by {
            vstd::arithmetic::div_mod::lemma_mod_add_multiples_vanish(start as int, n as int);
            vstd::arithmetic::div_mod::lemma_small_mod(start as nat, n as nat);
        }
        assert(w == walk_step(pts@, before, start, true));
        assert(markers@ =~= w.markers);
        assert(segments@ =~= w.segments);
        assert(handles@ =~= w.handles);
    }
    proof {
        lemma_walk_markers(pts@, start, n as nat);
    }
    Some(ContourPlan { start, segments, markers, handles })
}

/// The markers of the walk list the points in contour order from the start,
/// each once, with its role.
proof fn lemma_walk_markers(pts: Seq<ContourPoint>, start: usize, k: nat)
    requires
        start < pts.len() <= usize::MAX,
        pts[start as int].kind != PointKind::OffCurve,
        k <= pts.len(),
    ensures
        walk(pts, start, k).markers.len() == if k == pts.len() { k } else { k + 1 },
        forall|j: int|
            0 <= j < walk(pts, start, k).markers.len() ==> #[trigger] walk(pts, start, k).markers[j]
                == (((start + j) % (pts.len() as int)) as usize, role_of(
                pts[(start + j) % (pts.len() as int)],
            )),
    decreases k,
{
    let n = pts.len() as int;
    if k == 0 {
        assert((start + 0) % n == start) by {
            vstd::arithmetic::div_mod::lemma_small_mod(start as nat, n as nat);
        }
    } else {
        lemma_walk_markers(pts, start, (k - 1) as nat);
        let i = (start + k) % n;
        let prev = walk(pts, start, (k - 1) as nat);
        let w = walk(pts, start, k);
        assert(0 <= i < n);
        assert(w == walk_step(pts, prev, i as usize, k == pts.len()));
        if k == pts.len() {
            assert(i == start) by {
                vstd::arithmetic::div_mod::lemma_mod_add_multiples_vanish(start as int, n);
                vstd::arithmetic::div_mod::lemma_small_mod(start as nat, n as nat);
            }
            assert(w.markers == prev.markers);
        } else {
            assert(w.markers == prev.markers.push((i as usize, role_of(pts[i]))));
            assert forall|j: int| 0 <= j < w.markers.len() implies #[trigger] w.markers[j] == (
                ((start + j) % n) as usize,
                role_of(pts[(start + j) % n]),
            ) by {
                if j < prev.markers.len() {
                    assert(w.markers[j] == prev.markers[j]);
                }
            }
        }
    }
}

/// The stem of a name is built character by character: the stem of two
/// names put together is their stems put together, a character that is not
/// uppercase stands for itself, and an uppercase one is followed by `_`.
pub proof fn lemma_glif_stem_by_character(a: Seq<char>, b: Seq<char>, c: char)
    ensures
        glif_stem(a + b) == glif_stem(a) + glif_stem(b),
        !char_is_uppercase(c) ==> glif_stem(seq![c]) == seq![c],
        char_is_uppercase(c) ==> glif_stem(seq![c]) == seq![c, '_'],
    decreases b.len(),
{
    assert(seq![c].drop_last() =~= Seq::<char>::empty());
    assert(glif_stem(Seq::<char>::empty()) == Seq::<char>::empty());
    assert(Seq::<char>::empty() + seq![c] =~= seq![c]);
    assert(Seq::<char>::empty() + seq![c, '_'] =~= seq![c, '_']);
    if b.len() == 0 {
        assert(a + b =~= a);
    } else {
        lemma_glif_stem_by_character(a, b.drop_last(), c);
        assert((a + b).drop_last() =~= a + b.drop_last());
        assert((a + b).last() == b.last());
    }
}

/// A name without uppercase letters is its own stem.
pub proof fn lemma_glif_stem_without_uppercase(name: Seq<char>)
    requires
        forall|i: int| 0 <= i < name.len() ==> !char_is_uppercase(#[trigger] name[i]),
    ensures
        glif_stem(name) == name,
    decreases name.len(),
{
    if name.len() > 0 {
        lemma_glif_stem_without_uppercase(name.drop_last());
        assert(name.drop_last() + seq![name.last()] =~= name);
    }
}

} // verus!
