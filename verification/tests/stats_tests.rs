use howbig::scanner::ScanStats;
use howbig::tree::{fold_children, DirEntry};

#[test]
fn counters_start_at_zero() {
    let stats = ScanStats::new();
    assert_eq!(stats.files_scanned(), 0);
    assert_eq!(stats.dirs_scanned(), 0);
    assert_eq!(stats.errors(), 0);
    let by_default = ScanStats::default();
    assert_eq!(by_default.files_scanned(), 0);
    assert_eq!(by_default.dirs_scanned(), 0);
    assert_eq!(by_default.errors(), 0);
}

#[test]
fn counters_count_independently() {
    let mut stats = ScanStats::new();
    stats.record_file();
    stats.record_file();
    stats.record_dir();
    stats.record_error();
    assert_eq!(stats.files_scanned(), 2);
    assert_eq!(stats.dirs_scanned(), 1);
    assert_eq!(stats.errors(), 1);
}

#[test]
fn merge_adds_component_wise() {
    let mut a = ScanStats::new();
    a.record_file();
    a.record_dir();
    let mut b = ScanStats::new();
    b.record_file();
    b.record_error();
    a.merge(&b);
    assert_eq!(a.files_scanned(), 2);
    assert_eq!(a.dirs_scanned(), 1);
    assert_eq!(a.errors(), 1);
}

#[test]
fn merge_order_does_not_change_totals() {
    // the same three per-task counters folded in two different orders
    let mut t1 = ScanStats::new();
    t1.record_file();
    t1.record_file();
    let mut t2 = ScanStats::new();
    t2.record_dir();
    t2.record_error();
    let mut t3 = ScanStats::new();
    t3.record_file();
    t3.record_dir();

    let mut one_way = ScanStats::new();
    one_way.merge(&t1);
    one_way.merge(&t2);
    one_way.merge(&t3);

    let mut other_way = ScanStats::new();
    other_way.merge(&t3);
    other_way.merge(&t1);
    other_way.merge(&t2);

    assert_eq!(one_way.files_scanned(), other_way.files_scanned());
    assert_eq!(one_way.dirs_scanned(), other_way.dirs_scanned());
    assert_eq!(one_way.errors(), other_way.errors());
    assert_eq!(one_way.files_scanned(), 3);
    assert_eq!(one_way.dirs_scanned(), 2);
    assert_eq!(one_way.errors(), 1);
}

#[test]
fn error_isolation() {
    // a failed sibling entry adds exactly one error and leaves what the
    // accessible siblings contribute untouched
    let siblings = || -> Vec<DirEntry> {
        vec![
            DirEntry::file_node(String::from("ok_a"), 100),
            DirEntry::file_node(String::from("ok_b"), 42),
        ]
    };

    let mut clean = ScanStats::new();
    clean.record_dir();
    clean.record_file();
    clean.record_file();
    let clean_dir = fold_children(String::from("dir"), siblings(), 5);

    let mut faulty = ScanStats::new();
    faulty.record_dir();
    faulty.record_file();
    faulty.record_file();
    faulty.record_error(); // the unreadable third entry, skipped
    let faulty_dir = fold_children(String::from("dir"), siblings(), 5);

    assert_eq!(faulty.errors(), clean.errors() + 1);
    assert_eq!(faulty.files_scanned(), clean.files_scanned());
    assert_eq!(faulty.dirs_scanned(), clean.dirs_scanned());
    assert_eq!(faulty_dir.size, clean_dir.size);
    assert_eq!(faulty_dir.size, 142);
    assert_eq!(faulty_dir.file_count, clean_dir.file_count);
    assert_eq!(faulty_dir.file_count, 2);
}
