use elodie::{collect_results, path_le_exec, sort_by_path, FileRecord, HashFailure, HashResult, StreamHasher};

fn record(path: &str, content: &[u8]) -> FileRecord {
    let mut h = StreamHasher::new();
    h.absorb(content);
    FileRecord { path: String::from(path), digest: h.finish(), captured_at: None }
}

#[test]
fn failed_file_is_left_out_and_counted() {
    let results = vec![
        HashResult::Hashed(record("a.jpg", b"1")),
        HashResult::Failed(HashFailure { path: String::from("locked.jpg"), cause: String::from("permission denied") }),
        HashResult::Hashed(record("b.jpg", b"2")),
    ];
    let out = collect_results(results);
    assert_eq!(out.records.len(), 2);
    assert_eq!(out.records[0].path, "a.jpg");
    assert_eq!(out.records[1].path, "b.jpg");
    assert_eq!(out.failures.len(), 1);
    assert_eq!(out.failures[0].path, "locked.jpg");
    assert_eq!(out.failures[0].cause, "permission denied");
}

#[test]
fn empty_scan() {
    let out = collect_results(Vec::new());
    assert!(out.records.is_empty());
    assert!(out.failures.is_empty());
}

#[test]
fn path_order_is_lexicographic() {
    assert!(path_le_exec("a", "b"));
    assert!(path_le_exec("a", "ab"));
    assert!(!path_le_exec("ab", "a"));
    assert!(path_le_exec("", ""));
    assert!(path_le_exec("x/1.jpg", "x/1.jpg"));
    assert!(!path_le_exec("b", "a"));
}

#[test]
fn records_sorted_by_path() {
    let records = vec![record("c.jpg", b"1"), record("a.jpg", b"2"), record("b.jpg", b"3"), record("a.jpg", b"4")];
    let first_a = records[1].digest.clone();
    let second_a = records[3].digest.clone();
    let sorted = sort_by_path(records);
    let paths: Vec<&str> = sorted.iter().map(|r| r.path.as_str()).collect();
    assert_eq!(paths, vec!["a.jpg", "a.jpg", "b.jpg", "c.jpg"]);
    let mut a_digests = vec![sorted[0].digest.clone(), sorted[1].digest.clone()];
    a_digests.sort();
    let mut expected = vec![first_a, second_a];
    expected.sort();
    assert_eq!(a_digests, expected);
}
