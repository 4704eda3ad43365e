//! Filled-disk rasterisation by the midpoint circle method.
//!
//! A disk is produced as a list of horizontal line segments, four per step of
//! the midpoint walk, so that a radius `r` costs `O(r)` line draws.

use vstd::prelude::*;

verus! {

/// A straight line between two pixels, as it is handed to a drawing surface.
#[derive(Clone, Copy, Debug, PartialEq, Eq, Structural)]
pub struct Segment {
    pub x1: i32,
    pub y1: i32,
    pub x2: i32,
    pub y2: i32,
}

/// The mathematical line behind a [`Segment`]: two end points on the integer
/// grid.
pub ghost struct Line {
    pub x1: int,
    pub y1: int,
    pub x2: int,
    pub y2: int,
}

impl View for Segment {
    type V = Line;

    open spec fn view(&self) -> Line {
        Line { x1: self.x1 as int, y1: self.y1 as int, x2: self.x2 as int, y2: self.y2 as int }
    }
}

/// The lines behind a list of segments, in the same order.
pub open spec fn lines_of(segments: Seq<Segment>) -> Seq<Line> {
    segments.map_values(|s: Segment| s@)
}

/// State of the midpoint walk: the current half-width `x`, the current row
/// offset `y`, and the running error term.
pub ghost struct Arc {
    pub x: int,
    pub y: int,
    pub err: int,
}

/// The walk starts on the horizontal axis, at the full radius.
pub open spec fn arc_start(radius: int) -> Arc {
    Arc { x: radius, y: 0, err: 0 }
}

/// One step of the walk: go one row up, add to the error term, and pull `x`
/// in by one when the error term has crossed zero.
pub open spec fn arc_next(a: Arc) -> Arc {
    let y = a.y + 1;
    let err = a.err + 1 + 2 * y;
    if 2 * (err - a.x) + 1 > 0 {
        Arc { x: a.x - 1, y, err: err + 1 - 2 * (a.x - 1) }
    } else {
        Arc { x: a.x, y, err }
    }
}

/// The four spans drawn for one state of the walk, in drawing order: the rows
/// `cy + y`, `cy + x`, `cy - y` and `cy - x`.
pub open spec fn arc_spans(cx: int, cy: int, a: Arc) -> Seq<Line> {
    seq![
        Line { x1: cx + a.x, y1: cy + a.y, x2: cx - a.x, y2: cy + a.y },
        Line { x1: cx + a.y, y1: cy + a.x, x2: cx - a.y, y2: cy + a.x },
        Line { x1: cx - a.x, y1: cy - a.y, x2: cx + a.x, y2: cy - a.y },
        Line { x1: cx - a.y, y1: cy - a.x, x2: cx + a.y, y2: cy - a.x },
    ]
}

/// All spans drawn from state `a` until the walk ends, which it does as soon
/// as `x < y`.
pub open spec fn spans_from(cx: int, cy: int, a: Arc) -> Seq<Line>
    decreases a.x - a.y + 2,
{
    if a.x < a.y {
        Seq::empty()
    } else {
        arc_spans(cx, cy, a) + spans_from(cx, cy, arc_next(a))
    }
}

/// The spans of the filled disk of the given radius around `(cx, cy)`.
pub open spec fn disk_spans(cx: int, cy: int, radius: int) -> Seq<Line> {
    spans_from(cx, cy, arc_start(radius))
}

/// Whether the horizontal span `l` covers the pixel `(px, py)`: the pixel is
/// on the span's row and between its end points, whichever way round they
/// are given.
pub open spec fn span_covers(l: Line, px: int, py: int) -> bool {
    &&& l.y1 == py
    &&& l.y2 == py
    &&& (l.x1 <= px <= l.x2 || l.x2 <= px <= l.x1)
}

/// Whether some span of the list covers the pixel `(px, py)`.
pub open spec fn spans_cover(spans: Seq<Line>, px: int, py: int) -> bool {
    exists|i: int| 0 <= i < spans.len() && span_covers(#[trigger] spans[i], px, py)
}

/// The set of pixels that drawing the disk's spans sets.
pub open spec fn disk_pixels(cx: int, cy: int, radius: int) -> Set<(int, int)> {
    Set::new(|p: (int, int)| spans_cover(disk_spans(cx, cy, radius), p.0, p.1))
}

/// Whether one state of the walk sets the pixel at offset `(dx, dy)` from the
/// centre: the rows `y` and `-y` out to `x`, the rows `x` and `-x` out to `y`.
spec fn arc_lights(a: Arc, dx: int, dy: int) -> bool {
    ||| (dy == a.y || dy == -a.y) && -a.x <= dx <= a.x
    ||| (dy == a.x || dy == -a.x) && -a.y <= dx <= a.y
}

/// Whether the walk from state `a` on sets the pixel at offset `(dx, dy)`.
spec fn walk_lights(a: Arc, dx: int, dy: int) -> bool
    decreases a.x - a.y + 2,
{
    a.x >= a.y && (arc_lights(a, dx, dy) || walk_lights(arc_next(a), dx, dy))
}

/// A pixel is covered by two lists of spans put together exactly when one of
/// the lists covers it.
proof fn lemma_cover_concat(s: Seq<Line>, t: Seq<Line>, px: int, py: int)
    ensures
        spans_cover(s + t, px, py) == (spans_cover(s, px, py) || spans_cover(t, px, py)),
{
    if spans_cover(s, px, py) {
        let i = choose|i: int| 0 <= i < s.len() && span_covers(#[trigger] s[i], px, py);
        assert((s + t)[i] == s[i]);
    }
    if spans_cover(t, px, py) {
        let i = choose|i: int| 0 <= i < t.len() && span_covers(#[trigger] t[i], px, py);
        assert((s + t)[s.len() + i] == t[i]);
    }
    if spans_cover(s + t, px, py) {
        let i = choose|i: int| 0 <= i < (s + t).len() && span_covers(#[trigger] (s + t)[i], px, py);
        if i < s.len() {
            assert(s[i] == (s + t)[i]);
        } else {
            assert(t[i - s.len()] == (s + t)[i]);
        }
    }
}

/// The four spans of one state cover the pixels that the state sets.
proof fn lemma_arc_cover(cx: int, cy: int, a: Arc, px: int, py: int)
    requires
        0 <= a.y <= a.x,
    ensures
        spans_cover(arc_spans(cx, cy, a), px, py) == arc_lights(a, px - cx, py - cy),
{
    let s = arc_spans(cx, cy, a);
    let dx = px - cx;
    let dy = py - cy;
    if spans_cover(s, px, py) {
        let i = choose|i: int| 0 <= i < s.len() && span_covers(#[trigger] s[i], px, py);
        assert(i == 0 || i == 1 || i == 2 || i == 3);
    }
    if dy == a.y && -a.x <= dx <= a.x {
        assert(span_covers(s[0], px, py));
    }
    if dy == a.x && -a.y <= dx <= a.y {
        assert(span_covers(s[1], px, py));
    }
    if dy == -a.y && -a.x <= dx <= a.x {
        assert(span_covers(s[2], px, py));
    }
    if dy == -a.x && -a.y <= dx <= a.y {
        assert(span_covers(s[3], px, py));
    }
}

/// The spans drawn from a state on cover the pixels that the walk from that
/// state on sets.
proof fn lemma_walk_cover(cx: int, cy: int, a: Arc, px: int, py: int)
    requires
        0 <= a.y,
    ensures
        spans_cover(spans_from(cx, cy, a), px, py) == walk_lights(a, px - cx, py - cy),
    decreases a.x - a.y + 2,
{
    if a.x >= a.y {
        lemma_arc_cover(cx, cy, a, px, py);
        lemma_walk_cover(cx, cy, arc_next(a), px, py);
        lemma_cover_concat(arc_spans(cx, cy, a), spans_from(cx, cy, arc_next(a)), px, py);
    }
}

/// What the walk sets is symmetric in both offsets.
proof fn lemma_walk_mirror(a: Arc, dx: int, dy: int)
    ensures
        walk_lights(a, dx, dy) == walk_lights(a, -dx, dy),
        walk_lights(a, dx, dy) == walk_lights(a, dx, -dy),
    decreases a.x - a.y + 2,
{
    if a.x >= a.y {
        lemma_walk_mirror(arc_next(a), dx, dy);
    }
}

/// The walk sets nothing further out than its current half-width.
proof fn lemma_walk_bounded(a: Arc, dx: int, dy: int)
    requires
        0 <= a.y,
        walk_lights(a, dx, dy),
    ensures
        -a.x <= dx <= a.x,
        -a.x <= dy <= a.x,
    decreases a.x - a.y + 2,
{
    if !arc_lights(a, dx, dy) {
        lemma_walk_bounded(arc_next(a), dx, dy);
    }
}

/// With a pixel the walk sets every pixel of the same row that is nearer to
/// the vertical axis.
proof fn lemma_walk_centred(a: Arc, dx: int, ex: int, dy: int)
    requires
        0 <= a.y,
        walk_lights(a, dx, dy),
        -dx <= ex <= dx || dx <= ex <= -dx,
    ensures
        walk_lights(a, ex, dy),
    decreases a.x - a.y + 2,
{
    if !arc_lights(a, dx, dy) {
        lemma_walk_centred(arc_next(a), dx, ex, dy);
    }
}

/// The walk sets the centre pixel of every row from its current row out to
/// its current half-width.
proof fn lemma_walk_rows(a: Arc, dy: int)
    requires
        0 <= a.y <= dy <= a.x,
    ensures
        walk_lights(a, 0, dy),
    decreases a.x - a.y + 2,
{
    if dy != a.y && dy != a.x {
        lemma_walk_rows(arc_next(a), dy);
    }
}

/// The disk is its own mirror image across the vertical and across the
/// horizontal line through its centre: a pixel is set exactly when its
/// reflection is.
pub proof fn lemma_disk_mirror_symmetric(cx: int, cy: int, radius: int, px: int, py: int)
    ensures
        disk_pixels(cx, cy, radius).contains((px, py))
            == disk_pixels(cx, cy, radius).contains((2 * cx - px, py)),
        disk_pixels(cx, cy, radius).contains((px, py))
            == disk_pixels(cx, cy, radius).contains((px, 2 * cy - py)),
{
    let a = arc_start(radius);
    lemma_walk_cover(cx, cy, a, px, py);
    lemma_walk_cover(cx, cy, a, 2 * cx - px, py);
    lemma_walk_cover(cx, cy, a, px, 2 * cy - py);
    lemma_walk_mirror(a, px - cx, py - cy);
}

/// No pixel of the disk lies further than `radius` from the centre, along
/// either axis.
pub proof fn lemma_disk_within_radius(cx: int, cy: int, radius: int, px: int, py: int)
    requires
        disk_pixels(cx, cy, radius).contains((px, py)),
    ensures
        cx - radius <= px <= cx + radius,
        cy - radius <= py <= cy + radius,
{
    let a = arc_start(radius);
    lemma_walk_cover(cx, cy, a, px, py);
    lemma_walk_bounded(a, px - cx, py - cy);
}

/// The disk is filled: with a pixel it holds every pixel of the same row that
/// is no further from the vertical axis through the centre.
pub proof fn lemma_disk_rows_filled(cx: int, cy: int, radius: int, px: int, qx: int, py: int)
    requires
        disk_pixels(cx, cy, radius).contains((px, py)),
        px <= qx <= 2 * cx - px || 2 * cx - px <= qx <= px,
    ensures
        disk_pixels(cx, cy, radius).contains((qx, py)),
{
    let a = arc_start(radius);
    lemma_walk_cover(cx, cy, a, px, py);
    lemma_walk_cover(cx, cy, a, qx, py);
    lemma_walk_centred(a, px - cx, qx - cx, py - cy);
}

/// The disk has no empty row: on every row within `radius` of the centre,
/// the pixel straight above or below the centre is set.
pub proof fn lemma_disk_rows_present(cx: int, cy: int, radius: int, py: int)
    requires
        cy - radius <= py <= cy + radius,
    ensures
        disk_pixels(cx, cy, radius).contains((cx, py)),
{
    let a = arc_start(radius);
    lemma_walk_cover(cx, cy, a, cx, py);
    if py >= cy {
        lemma_walk_rows(a, py - cy);
    } else {
        lemma_walk_rows(a, cy - py);
        lemma_walk_mirror(a, 0, cy - py);
    }
}

/// Whether every pixel of the disk's bounding square can be addressed by a
/// 32-bit coordinate. A negative radius has no pixels and always fits.
pub open spec fn disk_fits(cx: int, cy: int, radius: int) -> bool {
    radius >= 0 ==> {
        &&& i32::MIN <= cx - radius
        &&& cx + radius <= i32::MAX
        &&& i32::MIN <= cy - radius
        &&& cy + radius <= i32::MAX
    }
}

/// Tests whether the disk of the given radius around `(cx, cy)` can be
/// rasterised: whether all its pixels have 32-bit coordinates.
pub fn disk_in_range(cx: i32, cy: i32, radius: i32) -> (ok: bool)
    ensures
        ok == disk_fits(cx as int, cy as int, radius as int),
{
    if radius < 0 {
        return true;
    }
    let r: i64 = radius as i64;
    let lo: i64 = i32::MIN as i64;
    let hi: i64 = i32::MAX as i64;
    lo <= cx as i64 - r && cx as i64 + r <= hi && lo <= cy as i64 - r && cy as i64 + r <= hi
}

/// Rasterises the filled disk of the given radius around `(cx, cy)`.
///
/// The result lists the horizontal spans in the order in which they are to be
/// drawn: four for each step of the midpoint walk. A negative radius gives no
/// span at all, and radius zero gives the centre pixel alone.
pub fn draw_filled_circle(cx: i32, cy: i32, radius: i32) -> (spans: Vec<Segment>)
    requires
        disk_fits(cx as int, cy as int, radius as int),
    ensures
        lines_of(spans@) == disk_spans(cx as int, cy as int, radius as int),
{
    let mut spans: Vec<Segment> = Vec::new();
    assert(lines_of(spans@) =~= Seq::empty());
    if radius < 0 {
        return spans;
    }
    let x0: i64 = cx as i64;
    let y0: i64 = cy as i64;
    let mut x: i64 = radius as i64;
    let mut y: i64 = 0;
    let mut err: i64 = 0;
    while x >= y
        invariant
            radius >= 0,
            x0 == cx,
            y0 == cy,
            disk_fits(cx as int, cy as int, radius as int),
            0 <= y <= x + 2,
            x <= radius,
            -radius <= err <= radius + 6 * y,
            lines_of(spans@) + spans_from(cx as int, cy as int, Arc { x: x as int, y: y as int, err: err as int })
                == disk_spans(cx as int, cy as int, radius as int),
        decreases x - y + 2,
    {
        let ghost before = lines_of(spans@);
        let ghost a = Arc { x: x as int, y: y as int, err: err as int };
        spans.push(Segment { x1: (x0 + x) as i32, y1: (y0 + y) as i32, x2: (x0 - x) as i32, y2: (y0 + y) as i32 });
        spans.push(Segment { x1: (x0 + y) as i32, y1: (y0 + x) as i32, x2: (x0 - y) as i32, y2: (y0 + x) as i32 });
        spans.push(Segment { x1: (x0 - x) as i32, y1: (y0 - y) as i32, x2: (x0 + x) as i32, y2: (y0 - y) as i32 });
        spans.push(Segment { x1: (x0 - y) as i32, y1: (y0 - x) as i32, x2: (x0 + y) as i32, y2: (y0 - x) as i32 });
        assert(lines_of(spans@) =~= before + arc_spans(cx as int, cy as int, a));
        assert(before + spans_from(cx as int, cy as int, a)
            =~= lines_of(spans@) + spans_from(cx as int, cy as int, arc_next(a)));

        y += 1;
        err += 1 + 2 * y;
        if 2 * (err - x) + 1 > 0 {
            x -= 1;
            err += 1 - 2 * x;
        }
    }
    assert(lines_of(spans@) + Seq::<Line>::empty() =~= lines_of(spans@));
    spans
}

} // verus!
