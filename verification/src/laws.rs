//! Properties of entries and grids that relate several operations.
use vstd::prelude::*;

use vstd::std_specs::convert::FromSpec;
use vstd::utf8::encode_utf8;

use crate::grid::{Coordinate, Entry, EntryView, GridDirection, max_extent};

verus! {

/// Whether a coordinate lies between two bounds does not depend on the order
/// in which the bounds are given.
pub proof fn lemma_within_bounds_unordered(c: Coordinate, b1: Coordinate, b2: Coordinate)
    ensures
        c.within(b1, b2) == c.within(b2, b1),
{
}

/// Overlapping entries are parallel, intersecting entries are perpendicular;
/// so no entry both overlaps and intersects another.
pub proof fn lemma_overlap_excludes_intersection(x: EntryView, y: EntryView)
    ensures
        x.overlaps(y) ==> x.direction == y.direction,
        x.intersects(y) ==> x.direction != y.direction,
        !(x.overlaps(y) && x.intersects(y)),
{
}

/// Intersection is symmetric.
pub proof fn lemma_intersects_symmetric(x: EntryView, y: EntryView)
    ensures
        x.intersects(y) == y.intersects(x),
{
    if x.intersects(y) {
        let (ca, cd) = choose|ca: int, cd: int|
            #[trigger] x.covers(ca, cd) && #[trigger] y.covers(ca, cd);
        assert(y.covers(ca, cd) && x.covers(ca, cd));
    }
    if y.intersects(x) {
        let (ca, cd) = choose|ca: int, cd: int|
            #[trigger] y.covers(ca, cd) && #[trigger] x.covers(ca, cd);
        assert(x.covers(ca, cd) && y.covers(ca, cd));
    }
}

/// The bounds of an entry are its start plus its length along its
/// direction, and its start across it; along its direction that is one past
/// its last cell.
pub proof fn lemma_bounds_and_last_cell(x: EntryView)
    ensures
        x.direction == GridDirection::Across ==> {
            &&& x.max_across() == x.coordinate.a + x.len()
            &&& x.max_down() == x.coordinate.d
            &&& x.max_across() == x.last_across() + 1
        },
        x.direction == GridDirection::Down ==> {
            &&& x.max_down() == x.coordinate.d + x.len()
            &&& x.max_across() == x.coordinate.a
            &&& x.max_down() == x.last_down() + 1
        },
{
}

/// An entry's length is the number of bytes of its text in UTF-8.
pub proof fn lemma_len_is_byte_count(x: EntryView)
    requires
        encode_utf8(x.text).len() <= usize::MAX,
    ensures
        x.len() == encode_utf8(x.text).len(),
{
}

/// The cells of an entry lie on its line, starting at its start and running
/// along its direction for as many cells as its length.
pub proof fn lemma_cells_of_entry(x: EntryView, ca: int, cd: int)
    ensures
        x.direction == GridDirection::Across ==> (x.covers(ca, cd) <==> (cd == x.coordinate.d
            && x.coordinate.a <= ca < x.coordinate.a + x.len())),
        x.direction == GridDirection::Down ==> (x.covers(ca, cd) <==> (ca == x.coordinate.a
            && x.coordinate.d <= cd < x.coordinate.d + x.len())),
{
}

/// The last cell of a non-empty entry is `len - 1` steps from its start along
/// its direction; it is a cell of the entry, and no cell of the entry lies
/// beyond it.
pub proof fn lemma_last_cell(x: EntryView)
    requires
        x.len() >= 1,
    ensures
        x.direction == GridDirection::Across ==> x.last_across() == x.coordinate.a + x.len() - 1
            && x.last_down() == x.coordinate.d,
        x.direction == GridDirection::Down ==> x.last_down() == x.coordinate.d + x.len() - 1
            && x.last_across() == x.coordinate.a,
        x.covers(x.last_across(), x.last_down()),
        forall|ca: int, cd: int|
            #[trigger] x.covers(ca, cd) ==> ca <= x.last_across() && cd <= x.last_down(),
{
}

/// Converting a pair gives the coordinate with that across and down value.
pub proof fn lemma_coordinate_from_pair(x: usize, y: usize)
    ensures
        <Coordinate as FromSpec<(usize, usize)>>::from_spec((x, y)).a == x,
        <Coordinate as FromSpec<(usize, usize)>>::from_spec((x, y)).d == y,
{
}

/// Converting an entry gives its start, whatever its direction.
pub proof fn lemma_coordinate_from_entry(e: Entry)
    ensures
        <Coordinate as FromSpec<Entry>>::from_spec(e) == e@.coordinate,
{
}

/// Overlap is symmetric.
pub proof fn lemma_overlaps_symmetric(x: EntryView, y: EntryView)
    ensures
        x.overlaps(y) == y.overlaps(x),
{
    if x.overlaps(y) {
        let (ca, cd) = choose|ca: int, cd: int|
            #[trigger] x.covers(ca, cd) && #[trigger] y.covers(ca, cd);
        assert(y.covers(ca, cd) && x.covers(ca, cd));
    }
    if y.overlaps(x) {
        let (ca, cd) = choose|ca: int, cd: int|
            #[trigger] y.covers(ca, cd) && #[trigger] x.covers(ca, cd);
        assert(x.covers(ca, cd) && y.covers(ca, cd));
    }
}

/// Two entries overlap exactly when they run the same way along the same
/// line, both are non-empty, and each starts before the other ends.
pub proof fn lemma_overlaps_iff_spans_meet(x: EntryView, y: EntryView)
    ensures
        x.overlaps(y) <==> {
            &&& x.direction == y.direction
            &&& x.len() >= 1
            &&& y.len() >= 1
            &&& match x.direction {
                GridDirection::Across => {
                    &&& x.coordinate.d == y.coordinate.d
                    &&& x.coordinate.a < y.coordinate.a + y.len()
                    &&& y.coordinate.a < x.coordinate.a + x.len()
                },
                GridDirection::Down => {
                    &&& x.coordinate.a == y.coordinate.a
                    &&& x.coordinate.d < y.coordinate.d + y.len()
                    &&& y.coordinate.d < x.coordinate.d + x.len()
                },
            }
        },
{
    if x.overlaps(y) {
        let (ca, cd) = choose|ca: int, cd: int|
            #[trigger] x.covers(ca, cd) && #[trigger] y.covers(ca, cd);
        assert(x.covers(ca, cd) && y.covers(ca, cd));
    }
    if x.direction == y.direction && x.len() >= 1 && y.len() >= 1 {
        let (ca, cd) = match x.direction {
            GridDirection::Across => (
                if x.coordinate.a <= y.coordinate.a { y.coordinate.a as int } else { x.coordinate.a as int },
                x.coordinate.d as int,
            ),
            GridDirection::Down => (
                x.coordinate.a as int,
                if x.coordinate.d <= y.coordinate.d { y.coordinate.d as int } else { x.coordinate.d as int },
            ),
        };
        if match x.direction {
            GridDirection::Across => x.coordinate.d == y.coordinate.d && x.coordinate.a < y.coordinate.a + y.len()
                && y.coordinate.a < x.coordinate.a + x.len(),
            GridDirection::Down => x.coordinate.a == y.coordinate.a && x.coordinate.d < y.coordinate.d + y.len()
                && y.coordinate.d < x.coordinate.d + x.len(),
        } {
            assert(x.covers(ca, cd) && y.covers(ca, cd));
        }
    }
}

/// Two entries intersect exactly when they are perpendicular and the down
/// entry's column falls within the across entry's cells while the across
/// entry's row falls within the down entry's cells.
pub proof fn lemma_intersects_iff_lines_cross(x: EntryView, y: EntryView)
    ensures
        x.intersects(y) <==> {
            &&& x.direction != y.direction
            &&& match x.direction {
                GridDirection::Across => {
                    &&& y.coordinate.d <= x.coordinate.d < y.coordinate.d + y.len()
                    &&& x.coordinate.a <= y.coordinate.a < x.coordinate.a + x.len()
                },
                GridDirection::Down => {
                    &&& y.coordinate.a <= x.coordinate.a < y.coordinate.a + y.len()
                    &&& x.coordinate.d <= y.coordinate.d < x.coordinate.d + x.len()
                },
            }
        },
{
    if x.intersects(y) {
        let (ca, cd) = choose|ca: int, cd: int|
            #[trigger] x.covers(ca, cd) && #[trigger] y.covers(ca, cd);
        assert(x.covers(ca, cd) && y.covers(ca, cd));
    }
    let (ca, cd) = match x.direction {
        GridDirection::Across => (y.coordinate.a as int, x.coordinate.d as int),
        GridDirection::Down => (x.coordinate.a as int, y.coordinate.d as int),
    };
    if x.direction != y.direction && x.covers(ca, cd) && y.covers(ca, cd) {
        assert(x.intersects(y));
    }
}

/// A coordinate lies within two bounds exactly when each of its values lies
/// between the smaller and the larger bound value on that axis.
pub proof fn lemma_within_is_box(c: Coordinate, b1: Coordinate, b2: Coordinate)
    ensures
        c.within(b1, b2) <==> {
            &&& (if b1.a <= b2.a { b1.a <= c.a <= b2.a } else { b2.a <= c.a <= b1.a })
            &&& (if b1.d <= b2.d { b1.d <= c.d <= b2.d } else { b2.d <= c.d <= b1.d })
        },
{
}

/// The largest extent of a sequence of entries exists exactly when the
/// sequence is not empty, bounds the extent of every entry and is the
/// extent of one of them.
pub proof fn lemma_max_extent(s: Seq<EntryView>, axis: GridDirection)
    ensures
        max_extent(s, axis) is None <==> s.len() == 0,
        max_extent(s, axis) matches Some(m) ==> {
            &&& forall|i: int| 0 <= i < s.len() ==> (#[trigger] s[i]).extent(axis) <= m
            &&& exists|i: int| 0 <= i < s.len() && (#[trigger] s[i]).extent(axis) == m
        },
    decreases s.len(),
{
    if s.len() > 0 {
        let p = s.drop_last();
        lemma_max_extent(p, axis);
        let last = s.last().extent(axis);
        assert(s[s.len() - 1].extent(axis) == last);
        assert forall|i: int| 0 <= i < p.len() implies #[trigger] s[i] == p[i] by {}
        match max_extent(p, axis) {
            None => {},
            Some(m) => {
                if last <= m {
                    let k = choose|i: int| 0 <= i < p.len() && (#[trigger] p[i]).extent(axis) == m;
                    assert(s[k] == p[k]);
                }
            },
        }
    }
}

/// The largest extents of a sequence of entries bound every cell of every
/// entry, across and down, and each is the coordinate of some entry's last
/// cell.
pub proof fn lemma_max_extent_bounds_cells(s: Seq<EntryView>)
    ensures
        forall|i: int, ca: int, cd: int|
            0 <= i < s.len() && #[trigger] s[i].covers(ca, cd) ==> {
                &&& max_extent(s, GridDirection::Across) matches Some(m) && ca <= m
                &&& max_extent(s, GridDirection::Down) matches Some(n) && cd <= n
            },
        max_extent(s, GridDirection::Across) matches Some(m) ==> exists|i: int|
            0 <= i < s.len() && {
                ||| (#[trigger] s[i]).direction == GridDirection::Across && m == s[i].coordinate.a
                    + s[i].len() - 1
                ||| s[i].direction == GridDirection::Down && m == s[i].coordinate.a
            },
        max_extent(s, GridDirection::Down) matches Some(n) ==> exists|i: int|
            0 <= i < s.len() && {
                ||| (#[trigger] s[i]).direction == GridDirection::Down && n == s[i].coordinate.d
                    + s[i].len() - 1
                ||| s[i].direction == GridDirection::Across && n == s[i].coordinate.d
            },
{
    lemma_max_extent(s, GridDirection::Across);
    lemma_max_extent(s, GridDirection::Down);
    assert forall|i: int, ca: int, cd: int|
        0 <= i < s.len() && #[trigger] s[i].covers(ca, cd) implies {
            &&& max_extent(s, GridDirection::Across) matches Some(m) && ca <= m
            &&& max_extent(s, GridDirection::Down) matches Some(n) && cd <= n
        } by {
        assert(s[i].extent(GridDirection::Across) == s[i].last_across());
        assert(s[i].extent(GridDirection::Down) == s[i].last_down());
    }
    if max_extent(s, GridDirection::Across) is Some {
        let m = max_extent(s, GridDirection::Across)->0;
        let k = choose|i: int| 0 <= i < s.len() && (#[trigger] s[i]).extent(GridDirection::Across) == m;
        assert(s[k].extent(GridDirection::Across) == m);
    }
    if max_extent(s, GridDirection::Down) is Some {
        let n = max_extent(s, GridDirection::Down)->0;
        let k = choose|i: int| 0 <= i < s.len() && (#[trigger] s[i]).extent(GridDirection::Down) == n;
        assert(s[k].extent(GridDirection::Down) == n);
    }
}

} // verus!
