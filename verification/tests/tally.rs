use nice::tally::ResponseTally;

#[test]
fn report_is_sorted_and_complete() {
    let mut t = ResponseTally::new();
    for key in ["w1", "w2", "w1", "w3", "w1", "w2"] {
        t.record(key.to_string());
    }
    let report = t.drain_sorted();
    assert_eq!(
        report,
        vec![
            ("w1".to_string(), 3),
            ("w2".to_string(), 2),
            ("w3".to_string(), 1)
        ]
    );
}

#[test]
fn report_clears_the_tally() {
    let mut t = ResponseTally::new();
    t.record("x".to_string());
    assert_eq!(t.drain_sorted().len(), 1);
    assert!(t.drain_sorted().is_empty());
    t.record("x".to_string());
    assert_eq!(t.drain_sorted(), vec![("x".to_string(), 1)]);
}

#[test]
fn empty_report() {
    let mut t = ResponseTally::new();
    assert!(t.drain_sorted().is_empty());
}

#[test]
fn ties_keep_every_answer() {
    let mut t = ResponseTally::new();
    for key in ["a", "b", "c", "b", "a", "c"] {
        t.record(key.to_string());
    }
    let mut report = t.drain_sorted();
    assert!(report.iter().all(|(_, n)| *n == 2));
    report.sort();
    assert_eq!(
        report,
        vec![("a".to_string(), 2), ("b".to_string(), 2), ("c".to_string(), 2)]
    );
}

#[test]
fn count_of_reports_counts() {
    let mut t = ResponseTally::new();
    assert_eq!(t.count_of(&"a".to_string()), None);
    t.record("a".to_string());
    t.record("a".to_string());
    assert_eq!(t.count_of(&"a".to_string()), Some(2));
    assert_eq!(t.count_of(&"b".to_string()), None);
}
