use bochservisor::coverage::{dump_coverage, Coverage};

#[test]
fn offsets_are_seen_once() {
    let mut coverage = Coverage::new();
    assert!(coverage.record(Some("a"), 1));
    assert!(coverage.record(Some("a"), 2));
    assert!(!coverage.record(Some("a"), 1));
    assert!(coverage.record(Some("b"), 1));
    assert!(!coverage.record(Some("a"), 2));
    // Nothing is forgotten
    for offset in 3..40 {
        assert!(coverage.record(Some("b"), offset));
    }
    assert!(!coverage.record(Some("a"), 1));
    assert!(!coverage.record(Some("b"), 1));
}

#[test]
fn no_module_is_the_unknown_one() {
    let mut coverage = Coverage::new();
    assert!(coverage.record(None, 1));
    assert!(!coverage.record(Some("<unknown>"), 1));
    assert!(coverage.record(Some(""), 1));
}

#[test]
fn nothing_is_dumped_of_nothing() {
    assert!(dump_coverage(&Coverage::new()).is_none());
}

#[test]
fn sums_are_dumped() {
    let mut coverage = Coverage::new();
    for offset in 0..5 {
        coverage.record(Some("kernel32.dll"), offset);
        coverage.record(Some("kernel32.dll"), offset);
    }
    for offset in 0..3 {
        coverage.record(None, offset);
    }
    coverage.record(Some("ntdll.dll"), 77);
    let report = dump_coverage(&coverage).unwrap();
    let mut rows: Vec<(String, usize)> =
        report.rows.into_iter().map(|row| (row.module, row.unique_offsets)).collect();
    rows.sort();
    assert_eq!(
        rows,
        vec![
            ("<unknown>".to_string(), 3),
            ("kernel32.dll".to_string(), 5),
            ("ntdll.dll".to_string(), 1),
        ]
    );
    assert_eq!(report.sum, 9);
    assert_eq!(report.named_sum, 6);
    assert_eq!(report.sum - report.named_sum, 3);
}

#[test]
fn only_unknown_code_gives_no_named_sum() {
    let mut coverage = Coverage::new();
    coverage.record(None, 4);
    let report = dump_coverage(&coverage).unwrap();
    assert_eq!((report.named_sum, report.sum), (0, 1));
}

#[test]
fn one_new_offset_adds_one() {
    let mut coverage = Coverage::new();
    coverage.record(Some("a"), 1);
    coverage.record(None, 1);
    let sums = |coverage: &Coverage| {
        let report = dump_coverage(coverage).unwrap();
        (report.named_sum, report.sum)
    };
    assert_eq!(sums(&coverage), (1, 2));
    assert!(coverage.record(Some("a"), 2));
    assert_eq!(sums(&coverage), (2, 3));
    assert!(coverage.record(None, 2));
    assert_eq!(sums(&coverage), (2, 4));
    assert!(coverage.record(Some("b"), 2));
    assert_eq!(sums(&coverage), (3, 5));
    assert!(!coverage.record(Some("b"), 2));
    assert_eq!(sums(&coverage), (3, 5));
}
