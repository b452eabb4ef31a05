//! Points and ranges in a document, in the editor's 1-indexed coordinates.

use vstd::prelude::*;

verus! {

/// A start or end point of a range: a 1-indexed row and column, ordered
/// row-major.
#[derive(Clone, Copy, Debug, Default, PartialEq, Eq, Structural, PartialOrd, Ord, Hash)]
pub struct Point {
    pub row: usize,
    pub column: usize,
}

impl Point {
    /// `self` comes strictly before `other` in row-major order.
    pub open spec fn before(self, other: Point) -> bool {
        self.row < other.row || (self.row == other.row && self.column < other.column)
    }

    /// `self` comes before `other` or is `other`.
    pub open spec fn not_after(self, other: Point) -> bool {
        self.before(other) || self == other
    }

    pub open spec fn spec_next(self) -> Point {
        Point { row: self.row, column: (self.column + 1) as usize }
    }

    pub open spec fn spec_prev(self) -> Point {
        Point { row: self.row, column: (self.column - 1) as usize }
    }

    /// Creates a `Point`.
    pub fn new(row: usize, column: usize) -> (r: Point)
        ensures
            r == (Point { row, column }),
    {
        Point { row, column }
    }

    /// Converts a 0-indexed row and column, as the parser reports them, to a
    /// `Point`; `None` where either does not fit once shifted by one.
    pub fn one_indexed(row: usize, column: usize) -> (r: Option<Point>)
        ensures
            r == (if row < usize::MAX && column < usize::MAX {
                Some(Point { row: (row + 1) as usize, column: (column + 1) as usize })
            } else {
                None::<Point>
            }),
    {
        if row < usize::MAX && column < usize::MAX {
            Some(Point { row: row + 1, column: column + 1 })
        } else {
            None
        }
    }

    /// The next point: one column further on the same row.
    pub fn next(&self) -> (r: Point)
        requires
            self.column < usize::MAX,
        ensures
            r == self.spec_next(),
    {
        Point { row: self.row, column: self.column + 1 }
    }

    /// The previous point: one column back on the same row.
    pub fn prev(&self) -> (r: Point)
        requires
            self.column > 0,
        ensures
            r == self.spec_prev(),
    {
        Point { row: self.row, column: self.column - 1 }
    }

    /// Whether `self` comes strictly before `other`.
    pub fn precedes(&self, other: &Point) -> (r: bool)
        ensures
            r == self.before(*other),
    {
        self.row < other.row || (self.row == other.row && self.column < other.column)
    }
}

/// What a range or a capture stands for in contracts: two points and a face.
pub struct Span {
    pub start: Point,
    pub end: Point,
    pub face: Seq<char>,
}

/// A styled range of the resolver's output: `end` is inclusive.
#[derive(Clone, Debug, PartialEq, Eq)]
pub struct RangeSpec {
    pub start: Point,
    pub end: Point,
    pub face: String,
}

impl View for RangeSpec {
    type V = Span;

    open spec fn view(&self) -> Span {
        Span { start: self.start, end: self.end, face: self.face@ }
    }
}

impl RangeSpec {
    /// Creates a new `RangeSpec`.
    pub fn new(start: Point, end: Point, face: String) -> (r: RangeSpec)
        ensures
            r@ == (Span { start, end, face: face@ }),
    {
        RangeSpec { start, end, face }
    }
}

/// A capture whose name resolved to a face: `end` is exclusive, as the query
/// engine reports it.
#[derive(Clone, Debug, PartialEq, Eq)]
pub struct Capture {
    pub start: Point,
    pub end: Point,
    pub face: String,
}

impl View for Capture {
    type V = Span;

    open spec fn view(&self) -> Span {
        Span { start: self.start, end: self.end, face: self.face@ }
    }
}

impl Capture {
    /// Creates a new `Capture`.
    pub fn new(start: Point, end: Point, face: String) -> (r: Capture)
        ensures
            r@ == (Span { start, end, face: face@ }),
    {
        Capture { start, end, face }
    }
}

/// The spans of a sequence of ranges.
pub open spec fn range_spans(rs: Seq<RangeSpec>) -> Seq<Span> {
    rs.map_values(|r: RangeSpec| r@)
}

/// The spans of a sequence of captures.
pub open spec fn capture_spans(cs: Seq<Capture>) -> Seq<Span> {
    cs.map_values(|c: Capture| c@)
}

} // verus!
