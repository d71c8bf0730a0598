use lib::grid::{Coordinate, Entry, GridDirection};

#[test]
fn test_coordinate_is_within() {
    let tests: [[(usize, usize); 3]; 8] = [
        //   0 1 2 3
        // 0 +-----x
        // 1 | 1 2 |
        // 2 | 3 4 |
        // 3 x-----+
        [(0, 3), (3, 0), (1, 1)],
        [(0, 3), (3, 0), (2, 1)],
        [(0, 3), (3, 0), (1, 2)],
        [(0, 3), (3, 0), (2, 2)],
        //   0 1
        // 0 1-x
        // 1 x-2
        [(1, 0), (0, 1), (0, 0)],
        [(1, 0), (0, 1), (1, 1)],
        // Also test the bounds themselves
        [(1, 0), (0, 1), (1, 0)],
        [(1, 0), (0, 1), (0, 1)],
    ];

    for test in tests {
        let [c1, c2, c3] = test.map(Coordinate::from);
        assert!(c3.is_within(c1, c2));
        assert!(c3.is_within(c2, c1));
    }
}

#[test]
fn test_entries_overlap() {
    let tests = [
        //     0 1 2 3 4 5
        //   0 c u t
        //       u t t e r
        (
            Entry::new("cut", (0usize, 0usize), GridDirection::Across),
            Entry::new("utter", (1usize, 0usize), GridDirection::Across),
        ),
        //     0 1 2 3 4 5 6 7
        //   0 y o u r s
        //         u n r e a l
        (
            Entry::new("yours", (0usize, 0usize), GridDirection::Across),
            Entry::new("unreal", (2usize, 0usize), GridDirection::Across),
        ),
    ];

    for test in tests {
        let (e1, e2) = test;
        assert!(e1.overlaps(&e2), "Entries should overlap: {e1:?} -> {e2:?}");

        // Intersections between entries are symmetric.
        assert!(
            e2.overlaps(&e1),
            "Entries should overlap symmetrically: {e1:?} -> {e2:?}"
        );
    }
}

#[test]
fn test_entries_do_not_overlap() {
    let tests = [
        //     0 1 2 3 4 5
        //   0 c u t
        //           u t t e r
        (
            Entry::new("cut", (0usize, 0usize), GridDirection::Across),
            Entry::new("utter", (3usize, 0usize), GridDirection::Across),
        ),
        //     0 1 2 3 4 5 6 7
        //   0 y o u r s
        //               u n r e a l
        (
            Entry::new("yours", (0usize, 0usize), GridDirection::Across),
            Entry::new("unreal", (5usize, 0usize), GridDirection::Across),
        ),
    ];

    for test in tests {
        let (e1, e2) = test;
        assert!(
            !e1.overlaps(&e2),
            "Entries should not overlap: {e1:?} -> {e2:?}"
        );

        // Intersections between entries are symmetric.
        assert!(
            !e2.overlaps(&e1),
            "Entries should not overlap symmetrically: {e1:?} -> {e2:?}"
        );
    }
}

#[test]
fn test_entries_intersect() {
    let tests = [
        //     0 1 2
        //   0 o u t
        //   1   n
        //   2   d
        //   3   o
        (
            Entry::new("out", (0usize, 0usize), GridDirection::Across),
            Entry::new("undo", (1usize, 0usize), GridDirection::Down),
        ),
        //     0 1 2 3 4 5 6
        //   0 t u r m o i l
        //   1       o
        //   2       u
        //   3       n
        //   4       t
        (
            Entry::new("turnmoil", (0usize, 0usize), GridDirection::Across),
            Entry::new("mount", (3usize, 0usize), GridDirection::Down),
        ),
    ];

    for test in tests {
        let (e1, e2) = test;
        assert!(
            e1.intersects(&e2),
            "Entries should intersect: {e1:?} -> {e2:?}"
        );

        // Intersections between entries are symmetric.
        assert!(
            e2.intersects(&e1),
            "Entries should intersect: {e1:?} -> {e2:?}"
        );
    }
}
