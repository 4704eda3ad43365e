//! A body as it appears on screen: its name, the radius and colour of its
//! disk, and the trail that it leaves behind.

use vstd::prelude::*;
use crate::raster::{Segment, disk_fits, disk_in_range, disk_spans, draw_filled_circle, lines_of};
use crate::trail::{OrbitTrail, DEFAULT_TRAIL_CAPACITY, appended, polyline};

verus! {

/// A colour as red, green and blue intensities.
#[derive(Clone, Copy, Debug, PartialEq, Eq, Structural)]
pub struct Color {
    pub r: u8,
    pub g: u8,
    pub b: u8,
}

/// One body of the simulation, as far as drawing it is concerned.
#[derive(Debug)]
pub struct Planet {
    name: String,
    radius: i32,
    color: Color,
    orbit: OrbitTrail,
}

/// What a [`Planet`] stands for.
pub ghost struct PlanetView {
    /// The body's name.
    pub name: Seq<char>,
    /// Radius of the body's disk, in pixels.
    pub radius: int,
    /// Colour of the disk and of the trail.
    pub color: Color,
    /// The screen positions at which the body was last drawn, oldest first.
    pub trail: Seq<(i32, i32)>,
    /// The largest number of positions that the trail keeps.
    pub trail_bound: nat,
}

impl View for Planet {
    type V = PlanetView;

    closed spec fn view(&self) -> PlanetView {
        PlanetView {
            name: self.name@,
            radius: self.radius as int,
            color: self.color,
            trail: self.orbit@,
            trail_bound: self.orbit.bound(),
        }
    }
}

impl Planet {
    /// The body's invariant: its trail is no longer than the trail's bound.
    pub closed spec fn wf(&self) -> bool {
        self.orbit.wf()
    }

    /// A well-formed body's trail is never longer than its bound.
    pub proof fn lemma_wf_bounded(&self)
        requires
            self.wf(),
        ensures
            self@.trail.len() <= self@.trail_bound,
    {
        self.orbit.lemma_wf_bounded();
    }

    /// A body that has not been drawn yet: its trail is empty and keeps up to
    /// [`DEFAULT_TRAIL_CAPACITY`] positions.
    pub fn new(name: String, radius: i32, color: Color) -> (planet: Self)
        ensures
            planet.wf(),
            planet@ == (PlanetView {
                name: name@,
                radius: radius as int,
                color,
                trail: Seq::empty(),
                trail_bound: DEFAULT_TRAIL_CAPACITY as nat,
            }),
    {
        Planet { name, radius, color, orbit: OrbitTrail::new() }
    }

    /// The body's name.
    pub fn name(&self) -> (name: &String)
        ensures
            name@ == self@.name,
    {
        &self.name
    }

    /// Radius of the body's disk, in pixels.
    pub fn radius(&self) -> (r: i32)
        ensures
            r == self@.radius,
    {
        self.radius
    }

    /// Colour in which the body and its trail are drawn.
    pub fn color(&self) -> (c: Color)
        ensures
            c == self@.color,
    {
        self.color
    }

    /// The body's trail.
    pub fn orbit(&self) -> (trail: &OrbitTrail)
        ensures
            trail@ == self@.trail,
            trail.bound() == self@.trail_bound,
            trail.wf() == self.wf(),
    {
        &self.orbit
    }

    /// Tests whether the body can be drawn at the screen position `(x0, y0)`:
    /// whether its whole disk has 32-bit coordinates there.
    pub fn fits_at(&self, x0: i32, y0: i32) -> (ok: bool)
        ensures
            ok == disk_fits(x0 as int, y0 as int, self@.radius),
    {
        disk_in_range(x0, y0, self.radius)
    }

    /// Draws the body at the screen position `(x0, y0)`.
    ///
    /// The position becomes the newest point of the trail. The result lists
    /// the lines to draw, all in the body's colour and in this order: the
    /// spans of the filled disk around `(x0, y0)`, then the path through the
    /// trail, oldest point first.
    pub fn draw(&mut self, x0: i32, y0: i32) -> (lines: Vec<Segment>)
        requires
            old(self).wf(),
            disk_fits(x0 as int, y0 as int, old(self)@.radius),
        ensures
            final(self).wf(),
            final(self)@ == (PlanetView {
                trail: appended(old(self)@.trail, (x0, y0), old(self)@.trail_bound),
                ..old(self)@
            }),
            lines_of(lines@) == disk_spans(x0 as int, y0 as int, old(self)@.radius) + polyline(
                final(self)@.trail,
            ),
    {
        let mut lines: Vec<Segment> = draw_filled_circle(x0, y0, self.radius);
        let mut path: Vec<Segment> = self.orbit.append_and_draw((x0, y0));
        let ghost disk = lines@;
        let ghost tail = path@;
        lines.append(&mut path);
        assert(lines_of(disk + tail) =~= lines_of(disk) + lines_of(tail));
        lines
    }
}

} // verus!
