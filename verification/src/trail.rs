//! The orbit trail: a bounded history of a body's screen positions.
//!
//! Points are kept in the order in which they were appended. Once the trail
//! is full, each new point pushes the oldest one out.

use std::collections::VecDeque;
use vstd::prelude::*;
use crate::raster::{Line, Segment, lines_of};

verus! {

/// Number of points that a trail keeps unless told otherwise.
pub const DEFAULT_TRAIL_CAPACITY: usize = 1000;

/// The last `n` elements of `s`, or all of `s` if it has no more than `n`.
pub open spec fn most_recent(s: Seq<(i32, i32)>, n: nat) -> Seq<(i32, i32)> {
    if s.len() <= n {
        s
    } else {
        s.subrange(s.len() - n, s.len() as int)
    }
}

/// A trail bounded by `n` after `p` has been appended to it.
pub open spec fn appended(s: Seq<(i32, i32)>, p: (i32, i32), n: nat) -> Seq<(i32, i32)> {
    most_recent(s.push(p), n)
}

/// A trail bounded by `n` after the points `ps` have been appended to it one
/// by one, first to last.
pub open spec fn appended_all(s: Seq<(i32, i32)>, ps: Seq<(i32, i32)>, n: nat) -> Seq<(i32, i32)>
    decreases ps.len(),
{
    if ps.len() == 0 {
        s
    } else {
        appended_all(appended(s, ps[0], n), ps.drop_first(), n)
    }
}

/// The line from `a` to `b`.
pub open spec fn line_between(a: (i32, i32), b: (i32, i32)) -> Line {
    Line { x1: a.0 as int, y1: a.1 as int, x2: b.0 as int, y2: b.1 as int }
}

/// The connected path through `points`: one line for each pair of
/// neighbours, in order. Fewer than two points give no line.
pub open spec fn polyline(points: Seq<(i32, i32)>) -> Seq<Line> {
    Seq::new(
        if points.len() >= 1 { (points.len() - 1) as nat } else { 0 },
        |i: int| line_between(points[i], points[i + 1]),
    )
}

/// Appending to a trail that holds no more than its bound leaves exactly the
/// most recent points of everything it was given, in their order.
pub proof fn lemma_appended_all(s: Seq<(i32, i32)>, ps: Seq<(i32, i32)>, n: nat)
    requires
        s.len() <= n,
    ensures
        appended_all(s, ps, n) == most_recent(s + ps, n),
        appended_all(s, ps, n).len() <= n,
    decreases ps.len(),
{
    if ps.len() == 0 {
        assert(s + ps =~= s);
    } else {
        let first = appended(s, ps[0], n);
        let rest = ps.drop_first();
        lemma_appended_all(first, rest, n);
        assert(s + ps =~= s.push(ps[0]) + rest);
        assert(most_recent(first + rest, n) =~= most_recent(s.push(ps[0]) + rest, n));
    }
}

/// After at least as many points have been appended as the trail can hold,
/// the trail is full and holds the last of them and nothing else, oldest
/// first.
pub proof fn lemma_trail_bound(s: Seq<(i32, i32)>, ps: Seq<(i32, i32)>, n: nat)
    requires
        s.len() <= n,
        ps.len() >= n,
    ensures
        appended_all(s, ps, n).len() == n,
        appended_all(s, ps, n) == ps.subrange(ps.len() - n, ps.len() as int),
{
    lemma_appended_all(s, ps, n);
    assert(most_recent(s + ps, n) =~= ps.subrange(ps.len() - n, ps.len() as int));
}

/// A bounded first-in, first-out history of screen positions.
#[derive(Debug)]
pub struct OrbitTrail {
    points: VecDeque<(i32, i32)>,
    capacity: usize,
}

impl View for OrbitTrail {
    type V = Seq<(i32, i32)>;

    /// The points of the trail, oldest first.
    closed spec fn view(&self) -> Seq<(i32, i32)> {
        self.points@
    }
}

impl OrbitTrail {
    /// The trail's invariant: it holds no more points than its bound.
    pub closed spec fn wf(&self) -> bool {
        self.points@.len() <= self.capacity
    }

    /// A well-formed trail is never longer than its bound.
    pub proof fn lemma_wf_bounded(&self)
        requires
            self.wf(),
        ensures
            self@.len() <= self.bound(),
    {
    }

    /// The largest number of points that the trail keeps.
    pub closed spec fn bound(&self) -> nat {
        self.capacity as nat
    }

    /// An empty trail that keeps up to [`DEFAULT_TRAIL_CAPACITY`] points.
    pub fn new() -> (trail: Self)
        ensures
            trail.wf(),
            trail@ == Seq::<(i32, i32)>::empty(),
            trail.bound() == DEFAULT_TRAIL_CAPACITY,
    {
        OrbitTrail { points: VecDeque::new(), capacity: DEFAULT_TRAIL_CAPACITY }
    }

    /// An empty trail that keeps up to `capacity` points.
    pub fn with_capacity(capacity: usize) -> (trail: Self)
        ensures
            trail.wf(),
            trail@ == Seq::<(i32, i32)>::empty(),
            trail.bound() == capacity,
    {
        OrbitTrail { points: VecDeque::new(), capacity }
    }

    /// The largest number of points that the trail keeps.
    pub fn capacity(&self) -> (n: usize)
        ensures
            n == self.bound(),
    {
        self.capacity
    }

    /// The number of points in the trail, which never exceeds its capacity.
    pub fn len(&self) -> (n: usize)
        ensures
            n == self@.len(),
            self.wf() ==> n <= self.bound(),
    {
        self.points.len()
    }

    /// Whether the trail holds no point.
    pub fn is_empty(&self) -> (b: bool)
        ensures
            b == (self@.len() == 0),
    {
        self.points.len() == 0
    }

    /// The point at position `index`, counted from the oldest, if there is
    /// one.
    pub fn get(&self, index: usize) -> (p: Option<(i32, i32)>)
        ensures
            p == if index < self@.len() { Some(self@[index as int]) } else { None },
    {
        if index < self.points.len() {
            Some(self.points[index])
        } else {
            None
        }
    }

    /// The points of the trail, oldest first.
    pub fn points(&self) -> (out: Vec<(i32, i32)>)
        ensures
            out@ == self@,
    {
        let mut out: Vec<(i32, i32)> = Vec::new();
        let n: usize = self.points.len();
        let mut i: usize = 0;
        while i < n
            invariant
                n == self.points@.len(),
                i <= n,
                out@ == self.points@.take(i as int),
            decreases n - i,
        {
            out.push(self.points[i]);
            i += 1;
            assert(out@ =~= self.points@.take(i as int));
        }
        assert(self.points@.take(n as int) =~= self.points@);
        out
    }

    /// Appends `point` as the newest of the trail. A full trail gives up its
    /// oldest point for it.
    pub fn push(&mut self, point: (i32, i32))
        requires
            old(self).wf(),
        ensures
            final(self).wf(),
            final(self)@ == appended(old(self)@, point, old(self).bound()),
            final(self).bound() == old(self).bound(),
    {
        self.points.push_back(point);
        if self.points.len() > self.capacity {
            self.points.pop_front();
        }
        assert(self.points@ =~= appended(old(self).points@, point, old(self).capacity as nat));
    }

    /// The lines that join each point of the trail to the next, oldest first.
    pub fn segments(&self) -> (out: Vec<Segment>)
        ensures
            lines_of(out@) == polyline(self@),
    {
        let mut out: Vec<Segment> = Vec::new();
        let n: usize = self.points.len();
        let mut i: usize = 1;
        while i < n
            invariant
                n == self.points@.len(),
                1 <= i,
                i <= n || i == 1,
                out@.len() == i - 1,
                forall|k: int| 0 <= k < i - 1 ==> (#[trigger] out@[k])@ == line_between(self.points@[k], self.points@[k + 1]),
            decreases n - i,
        {
            let a: (i32, i32) = self.points[i - 1];
            let b: (i32, i32) = self.points[i];
            out.push(Segment { x1: a.0, y1: a.1, x2: b.0, y2: b.1 });
            i += 1;
        }
        assert(lines_of(out@) =~= polyline(self@));
        out
    }

    /// Appends `point` to the trail and returns the lines of the path through
    /// all the points that the trail then holds.
    pub fn append_and_draw(&mut self, point: (i32, i32)) -> (out: Vec<Segment>)
        requires
            old(self).wf(),
        ensures
            final(self).wf(),
            final(self)@ == appended(old(self)@, point, old(self).bound()),
            final(self).bound() == old(self).bound(),
            lines_of(out@) == polyline(final(self)@),
    {
        self.push(point);
        self.segments()
    }
}

} // verus!
