use document_diff::scan::{BaselineProbe, FileTypeEnum, FoundFiles, ScanAction, Timestamp};

fn time(seconds: i64, nanoseconds: u32) -> Timestamp {
    Timestamp { seconds, nanoseconds }
}

#[test]
fn everything_but_a_directory_is_a_file() {
    assert_eq!(FileTypeEnum::from_is_dir(true), FileTypeEnum::Dir);
    assert_eq!(FileTypeEnum::from_is_dir(false), FileTypeEnum::File);
}

#[test]
fn new_file_is_a_candidate() {
    let mut found = FoundFiles::new();
    let action = found.observe(FileTypeEnum::File, BaselineProbe::NotFound, "cur/a", "last/a");
    assert!(matches!(action, ScanAction::Next));
    assert_eq!(found.finish(), vec![("cur/a", "last/a")]);
}

#[test]
fn file_over_a_baseline_directory_is_a_candidate() {
    let mut found = FoundFiles::new();
    let probe = BaselineProbe::Found(FileTypeEnum::Dir);
    let action = found.observe(FileTypeEnum::File, probe, "cur/a", "last/a");
    assert!(matches!(action, ScanAction::Next));
    assert_eq!(found.finish(), vec![("cur/a", "last/a")]);
}

#[test]
fn file_with_a_baseline_file_waits_for_its_times() {
    let mut found = FoundFiles::new();
    let probe = BaselineProbe::Found(FileTypeEnum::File);
    let action = found.observe(FileTypeEnum::File, probe, "cur/a", "last/a");
    assert!(matches!(action, ScanAction::CompareTimes("cur/a", "last/a")));
    assert!(found.finish().is_empty());
}

#[test]
fn directory_is_scanned_whatever_the_baseline_holds() {
    for probe in [
        BaselineProbe::NotFound,
        BaselineProbe::Found(FileTypeEnum::Dir),
        BaselineProbe::Found(FileTypeEnum::File),
    ] {
        let mut found = FoundFiles::new();
        let action = found.observe(FileTypeEnum::Dir, probe, "cur/d", "last/d");
        assert!(matches!(action, ScanAction::Recurse("cur/d", "last/d")));
        assert!(found.finish().is_empty());
    }
}

#[test]
fn failed_lookup_ends_the_scan() {
    for kind in [FileTypeEnum::File, FileTypeEnum::Dir] {
        let mut found = FoundFiles::new();
        let action = found.observe(kind, BaselineProbe::Failed, "cur/a", "last/a");
        assert!(matches!(action, ScanAction::Abort));
        assert!(found.finish().is_empty());
    }
}

#[test]
fn only_a_strictly_newer_file_is_a_candidate() {
    let mut found = FoundFiles::new();
    found.compare_times(time(10, 5), time(10, 5), "same", "last/same");
    found.compare_times(time(10, 5), time(10, 6), "older by nanoseconds", "b");
    found.compare_times(time(9, 999), time(10, 0), "older by seconds", "c");
    found.compare_times(time(10, 6), time(10, 5), "newer by nanoseconds", "d");
    found.compare_times(time(11, 0), time(10, 999), "newer by seconds", "e");
    found.compare_times(time(-1, 0), time(-2, 999), "newer before the epoch", "f");
    assert_eq!(
        found.finish(),
        vec![
            ("newer by nanoseconds", "d"),
            ("newer by seconds", "e"),
            ("newer before the epoch", "f")
        ]
    );
}

#[test]
fn promoted_file_is_no_candidate_again() {
    let written = time(100, 0);
    let promoted = time(160, 0);
    let mut found = FoundFiles::new();
    let probe = BaselineProbe::Found(FileTypeEnum::File);
    let action = found.observe(FileTypeEnum::File, probe, "cur/a", "last/a");
    if let ScanAction::CompareTimes(current, baseline) = action {
        found.compare_times(written, promoted, current, baseline);
    }
    assert!(found.finish().is_empty());
}

#[test]
fn candidates_stand_in_the_order_found() {
    let mut found = FoundFiles::new();
    found.observe(FileTypeEnum::File, BaselineProbe::NotFound, 1, 10);
    found.observe(FileTypeEnum::Dir, BaselineProbe::NotFound, 2, 20);
    found.compare_times(time(2, 0), time(1, 0), 3, 30);
    found.observe(FileTypeEnum::File, BaselineProbe::Found(FileTypeEnum::Dir), 4, 40);
    assert_eq!(found.finish(), vec![(1, 10), (3, 30), (4, 40)]);
}

#[test]
fn times_are_compared_by_seconds_first() {
    assert!(time(2, 0).is_later_than(&time(1, 999_999_999)));
    assert!(!time(1, 999_999_999).is_later_than(&time(2, 0)));
    assert!(!time(1, 1).is_later_than(&time(1, 1)));
}

#[test]
fn times_are_counted_from_the_epoch() {
    assert_eq!(Timestamp::after_epoch(0, 0), Some(time(0, 0)));
    assert_eq!(Timestamp::after_epoch(12, 500), Some(time(12, 500)));
    assert_eq!(Timestamp::before_epoch(0, 0), Some(time(0, 0)));
    assert_eq!(Timestamp::before_epoch(12, 0), Some(time(-12, 0)));
    assert_eq!(Timestamp::before_epoch(12, 1), Some(time(-13, 999_999_999)));
    assert_eq!(Timestamp::before_epoch(0, 999_999_999), Some(time(-1, 1)));
    assert_eq!(Timestamp::after_epoch(i64::MAX as u64, 0), Some(time(i64::MAX, 0)));
    assert_eq!(Timestamp::after_epoch(i64::MAX as u64 + 1, 0), None);
    assert_eq!(Timestamp::after_epoch(1, 1_000_000_000), None);
    assert_eq!(Timestamp::before_epoch(i64::MAX as u64 - 1, 1), Some(time(i64::MIN + 1, 999_999_999)));
    assert_eq!(Timestamp::before_epoch(i64::MAX as u64, 0), None);
    assert_eq!(Timestamp::before_epoch(1, 1_000_000_000), None);
}

#[test]
fn earlier_times_before_the_epoch_are_earlier() {
    let near = Timestamp::before_epoch(1, 200).unwrap();
    let far = Timestamp::before_epoch(1, 300).unwrap();
    assert!(near.is_later_than(&far));
    assert!(!far.is_later_than(&near));
    assert!(Timestamp::after_epoch(0, 0).unwrap().is_later_than(&near));
}
