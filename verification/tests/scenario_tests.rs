use lib::grid::{Coordinate, Entry, Grid, GridDirection};

#[test]
fn overlap_of_down_entries() {
    //   0 1
    // 0   i
    // 1   n
    // 2   tt
    // 3   oo
    // 4    p
    let e1 = Entry::new("into", (1usize, 0usize), GridDirection::Down);
    let e2 = Entry::new("top", (1usize, 2usize), GridDirection::Down);
    assert!(e1.overlaps(&e2));
    assert!(e2.overlaps(&e1));
    assert!(!e1.intersects(&e2));
}

#[test]
fn intersection_of_perpendicular_entries() {
    //   0 1 2 3
    // 0   e
    // 1 c r a b
    // 2   a
    let e1 = Entry::new("era", (1usize, 0usize), GridDirection::Down);
    let e2 = Entry::new("crab", (0usize, 1usize), GridDirection::Across);
    assert!(e1.intersects(&e2));
    assert!(e2.intersects(&e1));
    assert!(!e1.overlaps(&e2));
}

#[test]
fn perpendicular_entries_that_miss() {
    // "crab" on row 1 ends at column 3; "era" at column 4 does not reach it.
    let e1 = Entry::new("era", (4usize, 0usize), GridDirection::Down);
    let e2 = Entry::new("crab", (0usize, 1usize), GridDirection::Across);
    assert!(!e1.intersects(&e2));
    assert!(!e2.intersects(&e1));
}

#[test]
fn parallel_entries_never_intersect() {
    let e1 = Entry::new("cut", (0usize, 0usize), GridDirection::Across);
    let e2 = Entry::new("utter", (1usize, 0usize), GridDirection::Across);
    assert!(!e1.intersects(&e2));
    assert!(e1.is_parallel_to(&e2));
}

#[test]
fn perpendicular_entries_never_overlap() {
    let e1 = Entry::new("out", (0usize, 0usize), GridDirection::Across);
    let e2 = Entry::new("undo", (1usize, 0usize), GridDirection::Down);
    assert!(!e1.overlaps(&e2));
    assert!(!e2.overlaps(&e1));
    assert!(!e1.is_parallel_to(&e2));
}

#[test]
fn parallel_entries_on_different_lines_do_not_overlap() {
    let e1 = Entry::new("cut", (0usize, 0usize), GridDirection::Across);
    let e2 = Entry::new("utter", (1usize, 1usize), GridDirection::Across);
    assert!(!e1.overlaps(&e2));
    assert!(!e2.overlaps(&e1));
}

#[test]
fn entry_inside_another_overlaps_both_ways() {
    // "at" lies inside "cattle" on row 0: they share cells (1,0) and (2,0).
    let short = Entry::new("at", (1usize, 0usize), GridDirection::Across);
    let long = Entry::new("cattle", (0usize, 0usize), GridDirection::Across);
    assert!(short.overlaps(&long));
    assert!(long.overlaps(&short));
}

#[test]
fn touching_ends_overlap() {
    // "cut" ends at (2,0), where "tea" starts.
    let e1 = Entry::new("cut", (0usize, 0usize), GridDirection::Across);
    let e2 = Entry::new("tea", (2usize, 0usize), GridDirection::Across);
    assert!(e1.overlaps(&e2));
    assert!(e2.overlaps(&e1));
}

#[test]
fn empty_entry_overlaps_nothing() {
    // An entry with no text covers no cell.
    let empty = Entry::new("", (1usize, 0usize), GridDirection::Across);
    let word = Entry::new("cattle", (0usize, 0usize), GridDirection::Across);
    assert!(!empty.overlaps(&word));
    assert!(!word.overlaps(&empty));
}

#[test]
fn entry_bounds_across() {
    let e = Entry::new("twiddle", (3usize, 5usize), GridDirection::Across);
    assert_eq!(e.max_across(), 10);
    assert_eq!(e.max_down(), 5);
    assert_eq!(e.min_across(), 3);
    assert_eq!(e.min_down(), 5);
    let s = e.start_coordinate();
    assert_eq!((s.a, s.d), (3, 5));
    let t = e.end_coordinate();
    assert_eq!((t.a, t.d), (9, 5));
}

#[test]
fn entry_bounds_down() {
    let e = Entry::new("growl", (1usize, 2usize), GridDirection::Down);
    assert_eq!(e.max_across(), 1);
    assert_eq!(e.max_down(), 7);
    assert_eq!(e.min_across(), 1);
    assert_eq!(e.min_down(), 2);
    let t = e.end_coordinate();
    assert_eq!((t.a, t.d), (1, 6));
}

#[test]
fn entry_length_counts_bytes() {
    // "é" takes two bytes, so "café" spans five cells.
    let e = Entry::new("café", (0usize, 0usize), GridDirection::Across);
    assert_eq!(e.max_across(), 5);
    assert_eq!(e.end_coordinate().a, 4);
}

#[test]
fn entry_from_a_coordinate() {
    let c = Coordinate::from((4usize, 7usize));
    let e = Entry::new("ox", c, GridDirection::Down);
    assert_eq!(e.min_across(), 4);
    assert_eq!(e.min_down(), 7);
}

#[test]
fn coordinate_from_tuple() {
    let c = Coordinate::from((5usize, 1usize));
    assert_eq!(c.a, 5usize);
    assert_eq!(c.d, 1usize);
}

#[test]
fn coordinate_from_entry_is_its_start() {
    let e = Entry::new("growl", (1usize, 2usize), GridDirection::Down);
    let c: Coordinate = e.into();
    assert_eq!((c.a, c.d), (1, 2));
}

#[test]
fn coordinate_outside_box() {
    let c1 = Coordinate::from((0usize, 3usize));
    let c2 = Coordinate::from((3usize, 0usize));
    assert!(!Coordinate::from((4usize, 1usize)).is_within(c1, c2));
    assert!(!Coordinate::from((1usize, 4usize)).is_within(c2, c1));
}

#[test]
fn grid_from_entries() {
    //   0 1 2 3 4 5
    // 0       d
    // 1 a c r o s s
    // 2       w
    // 3       n
    let e = vec![
        Entry::new("across", (0usize, 1usize), GridDirection::Across),
        Entry::new("down", (3usize, 0usize), GridDirection::Down),
    ];
    let g = Grid::from(e.as_slice());
    assert_eq!(g.size_across, Some(5usize));
    assert_eq!(g.size_down, Some(3usize));
    assert_eq!(g.entries.len(), 2);
    assert_eq!(g.entries[1].min_across(), 3);
}

#[test]
fn grid_from_no_entries() {
    let e: Vec<Entry> = Vec::new();
    let g = Grid::from(e.as_slice());
    assert_eq!(g.size_across, None);
    assert_eq!(g.size_down, None);
    assert!(g.entries.is_empty());
}

#[test]
fn cloned_entry_keeps_its_place() {
    let e = Entry::new("mount", (3usize, 0usize), GridDirection::Down);
    let c = e.clone();
    assert_eq!(c.max_down(), 5);
    assert_eq!(c.end_coordinate().d, 4);
    assert!(c.overlaps(&e));
}
