//! Structures and functions relating to crossword grids and entries.
use vstd::prelude::*;
use vstd::std_specs::convert::FromSpecImpl;
use vstd::std_specs::convert::IntoSpec;
use vstd::math::{max, min};
use vstd::utf8::encode_utf8;

use crate::laws::{lemma_max_extent, lemma_max_extent_bounds_cells};

verus! {

/// A direction in the crossword grid space. Colloquial names for crossword
/// clue directions are used to ease reasoning and mental visuals, but in
/// theory these could be any direction on a 2D grid.
#[derive(Clone, Copy, Debug, PartialEq, Eq, Structural)]
pub enum GridDirection {
    /// The "across" direction. On paper, this is typically horizontal toward
    /// the right.
    Across,
    /// The "down" direction. On paper, this is typically vertical toward the
    /// bottom.
    Down,
}

/// A coordinate in the crossword grid.
///
/// Coordinates start in the upper-left of the grid.
#[derive(Clone, Copy, Debug, Default)]
pub struct Coordinate {
    /// The across coordinate (e.g. horizontal).
    pub a: usize,
    /// The down coordinate (e.g. vertical).
    pub d: usize,
}

/// Inclusive "lies between" on one axis, with the two bounds in any order.
pub open spec fn between(x: int, b1: int, b2: int) -> bool {
    (b1 <= x <= b2) || (b2 <= x <= b1)
}

impl Coordinate {
    /// Whether this coordinate lies in the bounding box spanned by the two
    /// bounds (inclusive, bounds in any order).
    pub open spec fn within(self, b1: Coordinate, b2: Coordinate) -> bool {
        between(self.a as int, b1.a as int, b2.a as int)
            && between(self.d as int, b1.d as int, b2.d as int)
    }

    /// Check if this coordinate is between two other coordinates. If the two
    /// other coordinates do not create an across or down line (e.g. they are
    /// diagonal), this will check if this coordinate is within the bounding
    /// box described by the other two coordinates. Note that the comparison is
    /// inclusive of the bounds.
    ///
    /// The bounding coordinates do not need to be sorted/ordered in any way.
    pub fn is_within(self, bound1: Coordinate, bound2: Coordinate) -> (r: bool)
        ensures
            r == self.within(bound1, bound2),
            r == (min(bound1.a as int, bound2.a as int) <= self.a <= max(
                bound1.a as int,
                bound2.a as int,
            ) && min(bound1.d as int, bound2.d as int) <= self.d <= max(
                bound1.d as int,
                bound2.d as int,
            )),
    {
        let (min_across, max_across) = if bound1.a <= bound2.a {
            (bound1.a, bound2.a)
        } else {
            (bound2.a, bound1.a)
        };
        let (min_down, max_down) = if bound1.d <= bound2.d {
            (bound1.d, bound2.d)
        } else {
            (bound2.d, bound1.d)
        };
        min_across <= self.a && self.a <= max_across && min_down <= self.d && self.d <= max_down
    }
}

/// Simple conversion from a tuple of two values to a grid coordinate. The
/// first value is the coordinate's across value, and the second the
/// coordinate's down value.
impl From<(usize, usize)> for Coordinate {
    fn from(value: (usize, usize)) -> (c: Self)
        ensures
            c.a == value.0,
            c.d == value.1,
    {
        Self { a: value.0, d: value.1 }
    }
}

impl FromSpecImpl<(usize, usize)> for Coordinate {
    open spec fn obeys_from_spec() -> bool {
        true
    }

    open spec fn from_spec(v: (usize, usize)) -> Self {
        Coordinate { a: v.0, d: v.1 }
    }
}

/// A word entry in the crossword.
#[derive(Debug)]
pub struct Entry {
    /// The starting point of the entry in the crossword grid. The first
    /// element of the entry's text goes in this coordinate, with the
    /// remaining text following in the direction of this entry.
    coordinate: Coordinate,
    /// The entry's text. Note that this may be incomplete if the entry was
    /// created as a side-effect from the insertion of a valid entry.
    text: String,
    direction: GridDirection,
}

/// The mathematical content of an [`Entry`]: where it starts, what it
/// spells and which way it runs.
pub struct EntryView {
    pub coordinate: Coordinate,
    pub text: Seq<char>,
    pub direction: GridDirection,
}

impl EntryView {
    /// The length of the entry in grid cells: the length of its text in
    /// bytes (UTF-8) as `str::len` gives it, which is what the entry's bounds
    /// are computed from.
    pub open spec fn len(self) -> nat {
        (encode_utf8(self.text).len() as usize) as nat
    }

    /// The across coordinate of the entry's last cell.
    pub open spec fn last_across(self) -> int {
        match self.direction {
            GridDirection::Across => self.coordinate.a + self.len() - 1,
            GridDirection::Down => self.coordinate.a as int,
        }
    }

    /// The down coordinate of the entry's last cell.
    pub open spec fn last_down(self) -> int {
        match self.direction {
            GridDirection::Across => self.coordinate.d as int,
            GridDirection::Down => self.coordinate.d + self.len() - 1,
        }
    }

    /// The across bound of the entry: its across coordinate plus its length
    /// for an across entry, its across coordinate for a down entry.
    pub open spec fn max_across(self) -> int {
        match self.direction {
            GridDirection::Across => self.coordinate.a + self.len(),
            GridDirection::Down => self.coordinate.a as int,
        }
    }

    /// The down bound of the entry: its down coordinate plus its length for
    /// a down entry, its down coordinate for an across entry.
    pub open spec fn max_down(self) -> int {
        match self.direction {
            GridDirection::Across => self.coordinate.d as int,
            GridDirection::Down => self.coordinate.d + self.len(),
        }
    }

    /// The entry's end can be computed in `usize` without overflow or
    /// underflow: the start along the entry's direction plus its length lies
    /// in `1..=usize::MAX`.
    pub open spec fn end_fits(self) -> bool {
        match self.direction {
            GridDirection::Across => 1 <= self.coordinate.a + self.len() <= usize::MAX,
            GridDirection::Down => 1 <= self.coordinate.d + self.len() <= usize::MAX,
        }
    }

    /// The last coordinate the entry uses along `axis`.
    pub open spec fn extent(self, axis: GridDirection) -> int {
        match axis {
            GridDirection::Across => self.last_across(),
            GridDirection::Down => self.last_down(),
        }
    }

    /// Whether the cell `(ca, cd)` holds a letter of this entry.
    pub open spec fn covers(self, ca: int, cd: int) -> bool {
        match self.direction {
            GridDirection::Across => cd == self.coordinate.d && self.coordinate.a <= ca
                <= self.last_across(),
            GridDirection::Down => ca == self.coordinate.a && self.coordinate.d <= cd
                <= self.last_down(),
        }
    }

    /// The two entries run the same way and share a cell of the grid.
    pub open spec fn overlaps(self, other: EntryView) -> bool {
        self.direction == other.direction && exists|ca: int, cd: int|
            #[trigger] self.covers(ca, cd) && #[trigger] other.covers(ca, cd)
    }

    /// Both entries lie on the same line of the grid (the same row for across
    /// entries, the same column for down entries).
    pub open spec fn same_line(self, other: EntryView) -> bool {
        match self.direction {
            GridDirection::Across => self.coordinate.d == other.coordinate.d,
            GridDirection::Down => self.coordinate.a == other.coordinate.a,
        }
    }

    /// The two entries are perpendicular and share a cell of the grid.
    pub open spec fn intersects(self, other: EntryView) -> bool {
        self.direction != other.direction && exists|ca: int, cd: int|
            #[trigger] self.covers(ca, cd) && #[trigger] other.covers(ca, cd)
    }
}

/// The point `(pa, pd)` lies in the bounding box of the entry's first and
/// last cells.
pub open spec fn point_within(pa: int, pd: int, e: EntryView) -> bool {
    between(pa, e.coordinate.a as int, e.last_across()) && between(
        pd,
        e.coordinate.d as int,
        e.last_down(),
    )
}

/// For parallel entries, sharing a cell comes down to a check on their ends:
/// both are non-empty, they lie on the same line, and the other entry's first
/// or last cell lies on this one, or this one's first cell lies on the other.
proof fn lemma_overlap_by_ends(x: EntryView, y: EntryView)
    requires
        x.direction == y.direction,
    ensures
        x.overlaps(y) <==> {
            &&& x.len() >= 1
            &&& y.len() >= 1
            &&& x.same_line(y)
            &&& point_within(y.coordinate.a as int, y.coordinate.d as int, x) || point_within(
                y.last_across(),
                y.last_down(),
                x,
            ) || point_within(x.coordinate.a as int, x.coordinate.d as int, y)
        },
{
    let xa = x.coordinate.a as int;
    let xd = x.coordinate.d as int;
    let ya = y.coordinate.a as int;
    let yd = y.coordinate.d as int;
    if x.overlaps(y) {
        let (ca, cd) = choose|ca: int, cd: int|
            #[trigger] x.covers(ca, cd) && #[trigger] y.covers(ca, cd);
        assert(x.covers(ca, cd) && y.covers(ca, cd));
    }
    if x.len() >= 1 && y.len() >= 1 && x.same_line(y) {
        if point_within(ya, yd, x) {
            assert(x.covers(ya, yd) && y.covers(ya, yd));
        } else if point_within(y.last_across(), y.last_down(), x) {
            assert(x.covers(y.last_across(), y.last_down()) && y.covers(
                y.last_across(),
                y.last_down(),
            ));
        } else if point_within(xa, xd, y) {
            assert(x.covers(xa, xd) && y.covers(xa, xd));
        }
    }
}

/// For perpendicular entries, sharing a cell comes down to the down entry's
/// column meeting the across entry's row inside both spans.
proof fn lemma_intersect_by_ends(x: EntryView, y: EntryView)
    requires
        x.direction != y.direction,
    ensures
        x.intersects(y) <==> match x.direction {
            GridDirection::Across => {
                &&& y.coordinate.d <= x.coordinate.d <= y.last_down()
                &&& x.coordinate.a <= y.coordinate.a <= x.last_across()
            },
            GridDirection::Down => {
                &&& y.coordinate.a <= x.coordinate.a <= y.last_across()
                &&& x.coordinate.d <= y.coordinate.d <= x.last_down()
            },
        },
{
    let (ca, cd) = match x.direction {
        GridDirection::Across => (y.coordinate.a as int, x.coordinate.d as int),
        GridDirection::Down => (x.coordinate.a as int, y.coordinate.d as int),
    };
    if x.intersects(y) {
        let (ea, ed) = choose|ea: int, ed: int|
            #[trigger] x.covers(ea, ed) && #[trigger] y.covers(ea, ed);
        assert(x.covers(ea, ed) && y.covers(ea, ed));
    }
    if x.covers(ca, cd) && y.covers(ca, cd) {
        assert(x.intersects(y));
    }
}

impl View for Entry {
    type V = EntryView;

    closed spec fn view(&self) -> EntryView {
        EntryView { coordinate: self.coordinate, text: self.text@, direction: self.direction }
    }
}

impl Clone for Entry {
    fn clone(&self) -> (r: Self)
        ensures
            r == *self,
    {
        Entry { coordinate: self.coordinate, text: self.text.clone(), direction: self.direction }
    }
}

impl Entry {
    /// Create a new entry from its text, its starting coordinate and its
    /// direction. The coordinate may be anything convertible to a
    /// [`Coordinate`], such as a tuple `(across, down)`.
    pub fn new<C: Into<Coordinate>>(text: &str, coordinate: C, direction: GridDirection) -> (e: Self)
        ensures
            e@.text == text@,
            e@.direction == direction,
            C::obeys_into_spec() ==> e@.coordinate == IntoSpec::into_spec(coordinate),
            call_ensures(<C as Into<Coordinate>>::into, (coordinate,), e@.coordinate),
    {
        Self { coordinate: coordinate.into(), text: text.to_string(), direction }
    }

    /// The entry's length in bytes, which is the number of grid cells it
    /// takes.
    fn text_len(&self) -> (n: usize)
        ensures
            n == self@.len(),
    {
        self.text.as_str().len()
    }

    /// Return whether this entry is parallel (in the same direction as)
    /// another entry.
    pub fn is_parallel_to(&self, other: &Self) -> (r: bool)
        ensures
            r == (self@.direction == other@.direction),
    {
        self.direction == other.direction
    }

    /// Return the maximum across coordinate used by this entry. If the entry
    /// is in the across direction, this will be its across coordinate plus
    /// its length. Otherwise, it is just the across coordinate.
    pub fn max_across(&self) -> (r: usize)
        requires
            self@.direction == GridDirection::Down || self@.coordinate.a + self@.len()
                <= usize::MAX,
        ensures
            r == self@.max_across(),
            self@.direction == GridDirection::Across ==> r == self@.coordinate.a + self@.len(),
            self@.direction == GridDirection::Down ==> r == self@.coordinate.a,
    {
        match self.direction {
            GridDirection::Across => self.coordinate.a + self.text_len(),
            GridDirection::Down => self.coordinate.a,
        }
    }

    /// Return the maximum down coordinate used by this entry. If the entry
    /// is in the down direction, this will be its down coordinate plus its
    /// length. Otherwise, it is just the down coordinate.
    pub fn max_down(&self) -> (r: usize)
        requires
            self@.direction == GridDirection::Across || self@.coordinate.d + self@.len()
                <= usize::MAX,
        ensures
            r == self@.max_down(),
            self@.direction == GridDirection::Down ==> r == self@.coordinate.d + self@.len(),
            self@.direction == GridDirection::Across ==> r == self@.coordinate.d,
    {
        match self.direction {
            GridDirection::Across => self.coordinate.d,
            GridDirection::Down => self.coordinate.d + self.text_len(),
        }
    }

    /// Return the minimum across coordinate used by this entry: the across
    /// coordinate of its start.
    pub fn min_across(&self) -> (r: usize)
        ensures
            r == self@.coordinate.a,
    {
        return self.coordinate.a;
    }

    /// Return the minimum down coordinate used by this entry: the down
    /// coordinate of its start.
    pub fn min_down(&self) -> (r: usize)
        ensures
            r == self@.coordinate.d,
    {
        return self.coordinate.d;
    }

    /// The coordinate at which the entry starts.
    pub fn start_coordinate(&self) -> (c: Coordinate)
        ensures
            c == self@.coordinate,
    {
        return self.coordinate;
    }

    /// The coordinate at which the entry ends.
    pub fn end_coordinate(&self) -> (c: Coordinate)
        requires
            self@.end_fits(),
        ensures
            c.a == self@.last_across(),
            c.d == self@.last_down(),
            self@.direction == GridDirection::Across ==> c.a == self@.coordinate.a + self@.len() - 1
                && c.d == self@.coordinate.d,
            self@.direction == GridDirection::Down ==> c.a == self@.coordinate.a && c.d
                == self@.coordinate.d + self@.len() - 1,
    {
        match self.direction {
            GridDirection::Across => Coordinate {
                a: self.coordinate.a + self.text_len() - 1,
                d: self.coordinate.d,
            },
            GridDirection::Down => Coordinate {
                a: self.coordinate.a,
                d: self.coordinate.d + self.text_len() - 1,
            },
        }
    }
}

/// Methods pertaining to comparisons between two entries.
impl Entry {
    /// Check whether this entry overlaps with another entry. This is distinct
    /// from an intersection in that entries must be parallel for them to be
    /// considered overlapping: they run the same way and share at least one
    /// cell of the grid. Overlapping is symmetric.
    pub fn overlaps(&self, other: &Self) -> (r: bool)
        requires
            self@.end_fits(),
            other@.end_fits(),
        ensures
            r == self@.overlaps(other@),
    {
        let ss = self.start_coordinate();
        let se = self.end_coordinate();
        let os = other.start_coordinate();
        let oe = other.end_coordinate();

        if self.is_parallel_to(other) {
            proof {
                lemma_overlap_by_ends(self@, other@);
            }
            // The entries share a cell when either end of the other entry lies
            // between (inclusive) this entry's start and end, or this entry
            // starts inside the other one (it is contained in it), and they
            // are collinear. An entry with empty text has no cell to share.
            let is_within = os.is_within(ss, se) || oe.is_within(ss, se) || ss.is_within(os, oe);
            let is_same_level = match self.direction {
                GridDirection::Across => {
                    assert(other.direction == GridDirection::Across);
                    self.coordinate.d == other.coordinate.d
                },
                GridDirection::Down => {
                    assert(other.direction == GridDirection::Down);
                    self.coordinate.a == other.coordinate.a
                },
            };
            let non_empty = self.text_len() > 0 && other.text_len() > 0;
            non_empty && is_within && is_same_level
        } else {
            false
        }
    }

    /// Check whether this entry intersects with another entry. This is
    /// distinct from an overlap in that entries must be perpendicular for
    /// them to be considered intersecting.
    pub fn intersects(&self, other: &Self) -> (r: bool)
        requires
            self@.end_fits(),
            other@.end_fits(),
        ensures
            r == self@.intersects(other@),
    {
        let ss = self.start_coordinate();
        let se = self.end_coordinate();
        let os = other.start_coordinate();
        let oe = other.end_coordinate();

        if !self.is_parallel_to(other) {
            proof {
                lemma_intersect_by_ends(self@, other@);
            }
            match (self.direction, other.direction) {
                (GridDirection::Across, GridDirection::Across)
                | (GridDirection::Down, GridDirection::Down) => false,
                (GridDirection::Across, GridDirection::Down) => {
                    (os.d <= ss.d && ss.d <= oe.d) && (ss.a <= os.a && os.a <= se.a)
                },
                (GridDirection::Down, GridDirection::Across) => {
                    (os.a <= ss.a && ss.a <= oe.a) && (ss.d <= os.d && os.d <= se.d)
                },
            }
        } else {
            false
        }
    }
}

/// Simple conversion from a grid entry into a grid coordinate (its start) so
/// it can be used with coordinate-comparing methods. This also gives
/// `Into<Coordinate>` for `Entry`.
impl From<Entry> for Coordinate {
    fn from(value: Entry) -> (c: Self)
        ensures
            c == value@.coordinate,
    {
        value.coordinate
    }
}

impl FromSpecImpl<Entry> for Coordinate {
    open spec fn obeys_from_spec() -> bool {
        true
    }

    open spec fn from_spec(v: Entry) -> Self {
        v@.coordinate
    }
}

/// The crossword grid.
#[derive(Debug)]
pub struct Grid {
    /// The maximum coordinate of the grid in the across direction. If no size
    /// is given, the grid may be expanded as far in this direction as
    /// necessary to fit words in.
    pub size_across: Option<usize>,
    /// The maximum coordinate of the grid in the down direction. If no size
    /// is given, the grid may be expanded as far in this direction as
    /// necessary to fit words in.
    pub size_down: Option<usize>,
    /// All of the valid entries in the grid. During grid _creation_, a
    /// separate list of "incomplete" entries may be tracked for future word
    /// placement candidates, but these entries _must_ always be valid.
    pub entries: Vec<Entry>,
}

/// A grid under construction.
pub struct IncompleteGrid {
    grid: Grid,
    /// Entries in the grid that are side-effects of adding to the main
    /// entries list. These are possibly-incomplete or invalid entries that
    /// must be satisfied in order for the grid to be considered satisfied.
    entry_fragments: Vec<Entry>,
}

/// The largest coordinate used along `axis` by any entry of `s` (the
/// largest `last_across` for `Across`, `last_down` for `Down`), or `None`
/// when `s` is empty.
pub open spec fn max_extent(s: Seq<EntryView>, axis: GridDirection) -> Option<int>
    decreases s.len(),
{
    if s.len() == 0 {
        None
    } else {
        let last = s.last().extent(axis);
        match max_extent(s.drop_last(), axis) {
            None => Some(last),
            Some(m) => Some(if last > m { last } else { m }),
        }
    }
}

/// An optional integer as an optional `usize`.
pub open spec fn as_usize(o: Option<int>) -> Option<usize> {
    match o {
        None => None,
        Some(m) => Some(m as usize),
    }
}

/// The views of a slice of entries.
pub open spec fn views(s: Seq<Entry>) -> Seq<EntryView> {
    s.map_values(|e: Entry| e@)
}

impl Grid {
    /// Create a grid from a list of entries. The grid size in each direction
    /// is the largest coordinate of any entry's last cell (see
    /// [`Entry::end_coordinate`]), or `None` for no entries.
    pub fn from(value: &[Entry]) -> (g: Self)
        requires
            forall|i: int| 0 <= i < value@.len() ==> (#[trigger] value@[i])@.end_fits(),
        ensures
            g.size_across == as_usize(max_extent(views(value@), GridDirection::Across)),
            g.size_down == as_usize(max_extent(views(value@), GridDirection::Down)),
            g.entries@ == value@,
            value@.len() == 0 ==> g.size_across is None && g.size_down is None,
            value@.len() > 0 ==> g.size_across is Some && g.size_down is Some,
            forall|i: int, ca: int, cd: int|
                0 <= i < value@.len() && #[trigger] value@[i]@.covers(ca, cd) ==> {
                    &&& g.size_across matches Some(m) && ca <= m
                    &&& g.size_down matches Some(n) && cd <= n
                },
            g.size_across matches Some(m) ==> exists|i: int|
                0 <= i < value@.len() && {
                    ||| (#[trigger] value@[i])@.direction == GridDirection::Across && m
                        == value@[i]@.coordinate.a + value@[i]@.len() - 1
                    ||| value@[i]@.direction == GridDirection::Down && m == value@[i]@.coordinate.a
                },
            g.size_down matches Some(n) ==> exists|i: int|
                0 <= i < value@.len() && {
                    ||| (#[trigger] value@[i])@.direction == GridDirection::Down && n
                        == value@[i]@.coordinate.d + value@[i]@.len() - 1
                    ||| value@[i]@.direction == GridDirection::Across && n == value@[i]@.coordinate.d
                },
    {
        let mut size_across: Option<usize> = None;
        let mut size_down: Option<usize> = None;
        let mut entries: Vec<Entry> = Vec::new();
        let n = value.len();
        for i in 0..n
            invariant
                n == value@.len(),
                forall|j: int| 0 <= j < value@.len() ==> (#[trigger] value@[j])@.end_fits(),
                entries@ == value@.take(i as int),
                size_across == as_usize(max_extent(views(value@.take(i as int)), GridDirection::Across)),
                size_down == as_usize(max_extent(views(value@.take(i as int)), GridDirection::Down)),
                max_extent(views(value@.take(i as int)), GridDirection::Across) matches Some(m) ==> 0 <= m <= usize::MAX,
                max_extent(views(value@.take(i as int)), GridDirection::Down) matches Some(m) ==> 0 <= m <= usize::MAX,
        {
            let e = &value[i];
            let end = e.end_coordinate();
            let ma = end.a;
            let md = end.d;
            size_across = match size_across {
                None => Some(ma),
                Some(m) => Some(if ma > m { ma } else { m }),
            };
            size_down = match size_down {
                None => Some(md),
                Some(m) => Some(if md > m { md } else { m }),
            };
            entries.push(e.clone());
            proof {
                let t = value@.take(i + 1);
                assert(t.drop_last() =~= value@.take(i as int));
                assert(views(t).drop_last() =~= views(value@.take(i as int)));
                assert(views(t).last() == value@[i as int]@);
            }
        }
        proof {
            assert(value@.take(n as int) =~= value@);
            let vs = views(value@);
            lemma_max_extent(vs, GridDirection::Across);
            lemma_max_extent(vs, GridDirection::Down);
            lemma_max_extent_bounds_cells(vs);
            assert forall|i: int| 0 <= i < value@.len() implies #[trigger] vs[i] == value@[i]@ by {}
            assert forall|i: int, ca: int, cd: int|
                0 <= i < value@.len() && #[trigger] value@[i]@.covers(ca, cd) implies {
                    &&& size_across matches Some(m) && ca <= m
                    &&& size_down matches Some(n) && cd <= n
                } by {
                assert(vs[i] == value@[i]@);
                assert(vs[i].covers(ca, cd));
            }
            if size_across is Some {
                let i = choose|i: int| 0 <= i < vs.len() && {
                    ||| (#[trigger] vs[i]).direction == GridDirection::Across && max_extent(vs, GridDirection::Across)->0
                        == vs[i].coordinate.a + vs[i].len() - 1
                    ||| vs[i].direction == GridDirection::Down && max_extent(vs, GridDirection::Across)->0 == vs[i].coordinate.a
                };
                assert(vs[i] == value@[i]@);
            }
            if size_down is Some {
                let i = choose|i: int| 0 <= i < vs.len() && {
                    ||| (#[trigger] vs[i]).direction == GridDirection::Down && max_extent(vs, GridDirection::Down)->0
                        == vs[i].coordinate.d + vs[i].len() - 1
                    ||| vs[i].direction == GridDirection::Across && max_extent(vs, GridDirection::Down)->0 == vs[i].coordinate.d
                };
                assert(vs[i] == value@[i]@);
            }
        }
        Self { size_across, size_down, entries }
    }
}

} // verus!
