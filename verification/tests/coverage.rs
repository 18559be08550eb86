use topstitch::connection::{check_for_gaps, find_gap, non_overlapping_segments, CoverageError};

#[test]
fn full_coverage_passes() {
    assert_eq!(find_gap(&[Some((7, 4)), Some((3, 0))], 8), Ok(()));
    assert_eq!(find_gap(&[Some((0, 0))], 1), Ok(()));
    check_for_gaps(&[Some((7, 4)), Some((3, 0))], 8);
    check_for_gaps(&[Some((0, 0))], 1);
}

#[test]
fn coverage_faults_are_reported() {
    assert_eq!(find_gap(&[], 4), Err(CoverageError::Unconnected));
    assert_eq!(find_gap(&[None, Some((3, 0))], 4), Err(CoverageError::InvalidConnection));
    assert_eq!(find_gap(&[Some((3, 2)), None], 4), Err(CoverageError::InvalidConnection));
    assert_eq!(
        find_gap(&[Some((3, 3)), None, Some((1, 0))], 4),
        Err(CoverageError::InvalidConnection)
    );
    assert_eq!(find_gap(&[Some((5, 0))], 8), Err(CoverageError::Gap { msb: 7, lsb: 6 }));
    assert_eq!(find_gap(&[Some((7, 2))], 8), Err(CoverageError::Gap { msb: 1, lsb: 0 }));
    assert_eq!(
        find_gap(&[Some((7, 5)), Some((2, 0))], 8),
        Err(CoverageError::Gap { msb: 4, lsb: 3 })
    );
    assert_eq!(find_gap(&[Some((8, 0))], 8), Err(CoverageError::Misordered));
    assert_eq!(find_gap(&[Some((7, 3)), Some((4, 0))], 8), Err(CoverageError::Misordered));
}

#[test]
fn coverage_messages() {
    assert_eq!(CoverageError::Unconnected.message("top.a"), "top.a is unconnected");
    assert_eq!(
        CoverageError::InvalidConnection.message("top.a"),
        "Invalid connection found for top.a"
    );
    assert_eq!(
        CoverageError::Gap { msb: 7, lsb: 6 }.message("top.a"),
        "top.a[7:6] is unconnected"
    );
    assert_eq!(CoverageError::Gap { msb: 3, lsb: 3 }.message("top.a"), "top.a[3] is unconnected");
}

#[test]
fn overlapping_ranges_are_cut_at_every_boundary() {
    assert_eq!(non_overlapping_segments(&vec![(7, 0), (3, 0)]), vec![(3, 0), (7, 4)]);
    assert_eq!(
        non_overlapping_segments(&vec![(7, 4), (5, 2)]),
        vec![(3, 2), (5, 4), (7, 6)]
    );
    assert_eq!(non_overlapping_segments(&vec![(2, 2)]), vec![(2, 2)]);
    assert_eq!(non_overlapping_segments(&vec![]), vec![]);
}
