//! Path records, and what is settled about a path before any tessellation.
//!
//! Coordinates and widths are carried as the bit patterns of IEEE 754
//! single-precision numbers. A pattern whose exponent field is all ones is an
//! infinity or not a number; a pattern whose bits below the sign are all zero
//! is a zero. On these two facts alone a record is sorted: a record with a
//! coordinate or width that is not finite is malformed and fails; a record
//! that cannot cover any area, because every point of it is one and the same
//! or because its stroke has no width, is degenerate and gives the empty
//! fragment; every other record goes to the tessellator.

use vstd::prelude::*;
use crate::mesh::{
    lemma_empty_fragment_adds_nothing, FragmentView, GeometryFailure, MeshFragment, MeshView,
    PathResult,
};

verus! {

/// Which regions of a self-intersecting outline count as inside.
#[derive(Clone, Copy, Debug, PartialEq, Eq)]
pub enum FillRule {
    NonZero,
    EvenOdd,
}

/// How the ends of an open stroke are drawn.
#[derive(Clone, Copy, Debug, PartialEq, Eq)]
pub enum LineCap {
    Butt,
    Round,
    Square,
}

/// How the corners of a stroke are drawn.
#[derive(Clone, Copy, Debug, PartialEq, Eq)]
pub enum LineJoin {
    Miter,
    Round,
    Bevel,
}

/// Whether a path is filled or stroked, and how.
#[derive(Clone, Copy, Debug, PartialEq, Eq)]
pub enum Paint {
    Fill { rule: FillRule },
    Stroke { width: u32, cap: LineCap, join: LineJoin },
}

/// One step of an outline. Points are `[x, y]`.
#[derive(Clone, Copy, Debug, PartialEq, Eq)]
pub enum Segment {
    MoveTo { to: [u32; 2] },
    LineTo { to: [u32; 2] },
    QuadraticTo { control: [u32; 2], to: [u32; 2] },
    CubicTo { control_1: [u32; 2], control_2: [u32; 2], to: [u32; 2] },
    Close,
}

/// One drawable path of a document.
#[derive(Clone, Debug)]
pub struct PathRecord {
    pub paint: Paint,
    pub segments: Vec<Segment>,
    pub color: [u32; 4],
}

/// What is settled about a path before tessellation.
#[derive(Clone, Copy, Debug, PartialEq, Eq)]
pub enum PathClass {
    /// The tessellator has to run.
    Drawable,
    /// The path covers no area: its fragment is empty.
    Degenerate,
    /// The path holds a number that is not finite: it fails.
    Malformed,
}

/// Mathematical content of a [`PathRecord`].
#[verifier::ext_equal]
pub struct PathView {
    pub paint: Paint,
    pub segments: Seq<Segment>,
    pub color: [u32; 4],
}

/// The pattern stands for a finite number.
pub open spec fn finite_bits(bits: u32) -> bool {
    (bits & 0x7F80_0000) != 0x7F80_0000
}

/// The pattern stands for zero, of either sign.
pub open spec fn zero_bits(bits: u32) -> bool {
    (bits & 0x7FFF_FFFF) == 0
}

/// Two finite patterns stand for the same number.
pub open spec fn same_number(a: u32, b: u32) -> bool {
    a == b || (zero_bits(a) && zero_bits(b))
}

pub open spec fn finite_point(p: [u32; 2]) -> bool {
    finite_bits(p[0]) && finite_bits(p[1])
}

pub open spec fn same_point(p: [u32; 2], q: [u32; 2]) -> bool {
    same_number(p[0], q[0]) && same_number(p[1], q[1])
}

impl Segment {
    /// Every coordinate of the segment is finite.
    pub open spec fn finite(self) -> bool {
        match self {
            Segment::MoveTo { to } => finite_point(to),
            Segment::LineTo { to } => finite_point(to),
            Segment::QuadraticTo { control, to } => finite_point(control) && finite_point(to),
            Segment::CubicTo { control_1, control_2, to } => finite_point(control_1)
                && finite_point(control_2) && finite_point(to),
            Segment::Close => true,
        }
    }

    /// Every point of the segment is the point `at`.
    pub open spec fn stays_at(self, at: [u32; 2]) -> bool {
        match self {
            Segment::MoveTo { to } => same_point(to, at),
            Segment::LineTo { to } => same_point(to, at),
            Segment::QuadraticTo { control, to } => same_point(control, at) && same_point(to, at),
            Segment::CubicTo { control_1, control_2, to } => same_point(control_1, at)
                && same_point(control_2, at) && same_point(to, at),
            Segment::Close => true,
        }
    }

    /// The point the segment ends at; `Close` names none.
    pub open spec fn end(self) -> Option<[u32; 2]> {
        match self {
            Segment::MoveTo { to } => Some(to),
            Segment::LineTo { to } => Some(to),
            Segment::QuadraticTo { control, to } => Some(to),
            Segment::CubicTo { control_1, control_2, to } => Some(to),
            Segment::Close => None,
        }
    }
}

/// Every segment stays at the point `at`.
pub open spec fn gathered_at(segments: Seq<Segment>, at: [u32; 2]) -> bool {
    forall|i: int| 0 <= i < segments.len() ==> (#[trigger] segments[i]).stays_at(at)
}

impl PathView {
    /// Every coordinate, and the width of a stroke, is finite.
    pub open spec fn finite(self) -> bool {
        &&& forall|i: int| 0 <= i < self.segments.len() ==> (#[trigger] self.segments[i]).finite()
        &&& match self.paint {
            Paint::Fill { rule } => true,
            Paint::Stroke { width, cap, join } => finite_bits(width),
        }
    }

    /// The outline has no length: there is one point that every segment
    /// stays at. An outline without points is of this kind.
    pub open spec fn zero_length(self) -> bool {
        exists|at: [u32; 2]| gathered_at(self.segments, at)
    }

    /// The stroke has no width.
    pub open spec fn zero_width(self) -> bool {
        match self.paint {
            Paint::Fill { rule } => false,
            Paint::Stroke { width, cap, join } => zero_bits(width),
        }
    }

    /// How the path is sorted.
    pub open spec fn class(self) -> PathClass {
        if !self.finite() {
            PathClass::Malformed
        } else if self.zero_length() || self.zero_width() {
            PathClass::Degenerate
        } else {
            PathClass::Drawable
        }
    }

    /// The outcome that is settled without tessellation: failure for a
    /// malformed path, the empty fragment for a degenerate one, none for a
    /// drawable one.
    pub open spec fn settled(self) -> Option<Result<FragmentView, GeometryFailure>> {
        match self.class() {
            PathClass::Malformed => Some(Err(GeometryFailure::NotFinite)),
            PathClass::Degenerate => Some(
                Ok(FragmentView { vertices: Seq::empty(), indices: Seq::empty() }),
            ),
            PathClass::Drawable => None,
        }
    }
}

impl View for PathRecord {
    type V = PathView;

    open spec fn view(&self) -> PathView {
        PathView { paint: self.paint, segments: self.segments@, color: self.color }
    }
}

/// A segment that stays at a point ends there, and stays at every point
/// that is the same.
pub proof fn lemma_stays_at_same(segment: Segment, at: [u32; 2], other: [u32; 2])
    requires
        segment.stays_at(at),
    ensures
        same_point(at, other) ==> segment.stays_at(other),
        segment.end() matches Some(end) ==> same_point(end, at),
{
}

/// Whether the pattern stands for a finite number.
pub fn is_finite(bits: u32) -> (finite: bool)
    ensures
        finite == finite_bits(bits),
{
    (bits & 0x7F80_0000) != 0x7F80_0000
}

/// Whether the pattern stands for zero.
pub fn is_zero(bits: u32) -> (zero: bool)
    ensures
        zero == zero_bits(bits),
{
    (bits & 0x7FFF_FFFF) == 0
}

fn point_is_finite(p: &[u32; 2]) -> (finite: bool)
    ensures
        finite == finite_point(*p),
{
    is_finite(p[0]) && is_finite(p[1])
}

fn points_agree(p: &[u32; 2], q: &[u32; 2]) -> (same: bool)
    ensures
        same == same_point(*p, *q),
{
    (p[0] == q[0] || (is_zero(p[0]) && is_zero(q[0]))) && (p[1] == q[1] || (is_zero(p[1])
        && is_zero(q[1])))
}

impl Segment {
    /// Checks that every coordinate of the segment is finite.
    pub fn is_finite(&self) -> (finite: bool)
        ensures
            finite == self.finite(),
    {
        match self {
            Segment::MoveTo { to } => point_is_finite(to),
            Segment::LineTo { to } => point_is_finite(to),
            Segment::QuadraticTo { control, to } => point_is_finite(control) && point_is_finite(to),
            Segment::CubicTo { control_1, control_2, to } => point_is_finite(control_1)
                && point_is_finite(control_2) && point_is_finite(to),
            Segment::Close => true,
        }
    }

    /// Checks that every point of the segment is the point `at`.
    pub fn is_at(&self, at: &[u32; 2]) -> (stays: bool)
        ensures
            stays == self.stays_at(*at),
    {
        match self {
            Segment::MoveTo { to } => points_agree(to, at),
            Segment::LineTo { to } => points_agree(to, at),
            Segment::QuadraticTo { control, to } => points_agree(control, at) && points_agree(
                to,
                at,
            ),
            Segment::CubicTo { control_1, control_2, to } => points_agree(control_1, at)
                && points_agree(control_2, at) && points_agree(to, at),
            Segment::Close => true,
        }
    }

    /// The point the segment ends at.
    pub fn end_point(&self) -> (end: Option<[u32; 2]>)
        ensures
            end == self.end(),
    {
        match self {
            Segment::MoveTo { to } => Some(*to),
            Segment::LineTo { to } => Some(*to),
            Segment::QuadraticTo { control, to } => Some(*to),
            Segment::CubicTo { control_1, control_2, to } => Some(*to),
            Segment::Close => None,
        }
    }
}

impl PathRecord {
    /// Checks that every coordinate, and the width of a stroke, is finite.
    pub fn is_finite(&self) -> (finite: bool)
        ensures
            finite == self@.finite(),
    {
        match self.paint {
            Paint::Fill { rule } => {},
            Paint::Stroke { width, cap, join } => {
                if !is_finite(width) {
                    return false;
                }
            },
        }
        let mut i: usize = 0;
        while i < self.segments.len()
            invariant
                i <= self.segments.len(),
                forall|j: int| 0 <= j < i ==> (#[trigger] self.segments@[j]).finite(),
            decreases self.segments.len() - i,
        {
            if !self.segments[i].is_finite() {
                assert(!self@.segments[i as int].finite());
                return false;
            }
            i += 1;
        }
        true
    }

    /// Checks whether the outline has no length.
    pub fn has_zero_length(&self) -> (zero: bool)
        ensures
            zero == self@.zero_length(),
    {
        let mut first: usize = 0;
        while first < self.segments.len() && self.segments[first].end_point().is_none()
            invariant
                first <= self.segments.len(),
                forall|j: int| 0 <= j < first ==> (#[trigger] self.segments@[j]).end() is None,
            decreases self.segments.len() - first,
        {
            first += 1;
        }
        if first == self.segments.len() {
            assert(gathered_at(self@.segments, [0u32, 0u32]));
            return true;
        }
        let anchor = match self.segments[first].end_point() {
            Some(end) => end,
            None => {
                proof {
                    assert(false);
                }
                [0, 0]
            },
        };
        let mut i: usize = 0;
        while i < self.segments.len()
            invariant
                i <= self.segments.len(),
                first < self.segments.len(),
                self.segments@[first as int].end() == Some(anchor),
                forall|j: int| 0 <= j < i ==> (#[trigger] self.segments@[j]).stays_at(anchor),
            decreases self.segments.len() - i,
        {
            if !self.segments[i].is_at(&anchor) {
                proof {
                    let stray = self.segments@[i as int];
                    let leading = self.segments@[first as int];
                    assert forall|at: [u32; 2]| !gathered_at(self@.segments, at) by {
                        if stray.stays_at(at) && leading.stays_at(at) {
                            lemma_stays_at_same(leading, at, anchor);
                            lemma_stays_at_same(stray, at, anchor);
                        }
                    }
                }
                return false;
            }
            i += 1;
        }
        assert(gathered_at(self@.segments, anchor));
        true
    }

    /// Checks whether the path is a stroke without width.
    pub fn has_zero_width(&self) -> (zero: bool)
        ensures
            zero == self@.zero_width(),
    {
        match self.paint {
            Paint::Fill { rule } => false,
            Paint::Stroke { width, cap, join } => is_zero(width),
        }
    }

    /// Sorts the path.
    pub fn classify(&self) -> (class: PathClass)
        ensures
            class == self@.class(),
    {
        if !self.is_finite() {
            PathClass::Malformed
        } else if self.has_zero_width() || self.has_zero_length() {
            PathClass::Degenerate
        } else {
            PathClass::Drawable
        }
    }

    /// The outcome of the path where it is settled without tessellation:
    /// failure for a malformed path, the empty fragment for a degenerate
    /// one. `None` says that the tessellator has to run.
    pub fn settle(&self) -> (outcome: Option<PathResult>)
        ensures
            match (outcome, self@.settled()) {
                (Some(Ok(fragment)), Some(Ok(view))) => fragment@ == view,
                (Some(Err(failure)), Some(Err(expected))) => failure == expected,
                (None, None) => true,
                _ => false,
            },
    {
        match self.classify() {
            PathClass::Malformed => Some(Err(GeometryFailure::NotFinite)),
            PathClass::Degenerate => Some(
                Ok(MeshFragment { vertices: Vec::new(), indices: Vec::new() }),
            ),
            PathClass::Drawable => None,
        }
    }
}

/// A path that is settled without tessellation adds nothing to the mesh of
/// its document, whether it failed or gave the empty fragment.
pub proof fn lemma_settled_path_adds_nothing(mesh: MeshView, path: PathView)
    requires
        path.settled() is Some,
    ensures
        match path.settled() {
            Some(Ok(fragment)) => mesh.with_path(Some(fragment)) == mesh,
            Some(Err(_)) => mesh.with_path(None) == mesh,
            None => false,
        },
{
    if let Some(Ok(fragment)) = path.settled() {
        lemma_empty_fragment_adds_nothing(mesh, fragment);
    }
}

} // verus!
