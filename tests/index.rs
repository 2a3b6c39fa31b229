use elodie::{report, report_line, decimal, Classifier, FileRecord, FingerprintIndex, IndexError, StreamHasher};

const ABC_SHA256: &str = "ba7816bf8f01cfea414140de5dae2223b00361a396177a9cb410ff61f20015ad";

fn digest_of(content: &[u8]) -> String {
    let mut h = StreamHasher::new();
    h.absorb(content);
    h.finish()
}

fn record(path: &str, content: &[u8]) -> FileRecord {
    FileRecord { path: String::from(path), digest: digest_of(content), captured_at: None }
}

#[test]
fn distinct_files_get_one_entry_each() {
    let records = vec![record("a", b"1"), record("b", b"2"), record("c", b"3")];
    let out = FingerprintIndex::build(&records);
    assert_eq!(out.index.len(), 3);
    assert!(out.duplicates.is_empty());
    for r in &records {
        assert_eq!(out.index.lookup(&r.digest), Some(r.path.clone()));
    }
}

#[test]
fn identical_content_keeps_first_path() {
    let records = vec![record("first.jpg", b"same"), record("second.jpg", b"same")];
    let out = FingerprintIndex::build(&records);
    assert_eq!(out.index.len(), 1);
    assert_eq!(out.index.lookup(&records[0].digest), Some(String::from("first.jpg")));
    assert_eq!(out.duplicates.len(), 1);
    assert_eq!(out.duplicates[0].path, "second.jpg");
    assert_eq!(out.duplicates[0].first_path, "first.jpg");
    assert_eq!(out.duplicates[0].digest, records[0].digest);
}

#[test]
fn unknown_digest_lookup() {
    let out = FingerprintIndex::build(&vec![record("a", b"1")]);
    assert_eq!(out.index.lookup(&String::from(ABC_SHA256)), None);
    assert_eq!(FingerprintIndex::new().len(), 0);
}

#[test]
fn record_well_formedness() {
    assert!(record("a", b"x").is_well_formed());
    let bad = FileRecord { path: String::from("a"), digest: String::from("ABC"), captured_at: None };
    assert!(!bad.is_well_formed());
}

#[test]
fn json_form_is_object_from_digest_to_path() {
    let out = FingerprintIndex::build(&vec![record("x/abc.jpg", b"abc")]);
    let text = out.index.to_json();
    assert_eq!(text, format!("{{\"{}\":\"x/abc.jpg\"}}", ABC_SHA256));
}

#[test]
fn persist_then_load_round_trip() {
    let records = vec![record("a.jpg", b"1"), record("b.jpg", b"2"), record("c.jpg", b"1")];
    let index = FingerprintIndex::build(&records).index;
    let text = index.to_json();
    let back = FingerprintIndex::from_json(&text).unwrap();
    assert_eq!(back.len(), index.len());
    for r in &records {
        assert_eq!(back.lookup(&r.digest), index.lookup(&r.digest));
    }
    let empty = FingerprintIndex::from_json("{}").unwrap();
    assert_eq!(empty.len(), 0);
}

#[test]
fn corrupt_store_is_rejected() {
    assert_eq!(FingerprintIndex::from_json("not json").err(), Some(IndexError::CorruptIndex));
    assert_eq!(FingerprintIndex::from_json("[1, 2]").err(), Some(IndexError::CorruptIndex));
    assert_eq!(FingerprintIndex::from_json("{\"abc\": \"x\"}").err(), Some(IndexError::CorruptIndex));
    let number_value = format!("{{\"{}\": 3}}", ABC_SHA256);
    assert_eq!(FingerprintIndex::from_json(&number_value).err(), Some(IndexError::CorruptIndex));
}

#[test]
fn duplicate_stored_digest_is_rejected() {
    let d = String::from(ABC_SHA256);
    let entries = vec![(d.clone(), String::from("a")), (d, String::from("b"))];
    assert_eq!(FingerprintIndex::from_entries(entries).err(), Some(IndexError::CorruptIndex));
}

#[test]
fn media_scan_scenario() {
    let files: Vec<(&str, &[u8])> = vec![("photo1.jpg", b"AA"), ("photo2.jpg", b"AA"), ("note.txt", b"hi")];
    let classifier = Classifier { extensions: Some(vec![String::from("jpg"), String::from("png")]) };
    let mut hasher = StreamHasher::new();
    let mut records = Vec::new();
    for (name, content) in files {
        if classifier.accepts(name, true) {
            hasher.absorb(content);
            records.push(FileRecord { path: String::from(name), digest: hasher.finish(), captured_at: None });
        }
    }
    assert_eq!(records.len(), 2);
    assert_eq!(records[0].digest, records[1].digest);
    let out = FingerprintIndex::build(&records);
    assert_eq!(out.index.len(), 1);
    assert_eq!(out.index.lookup(&records[0].digest), Some(String::from("photo1.jpg")));
    let text = out.index.to_json();
    assert_eq!(text, format!("{{\"{}\":\"photo1.jpg\"}}", records[0].digest));
}

#[test]
fn decimal_rendering() {
    assert_eq!(decimal(0), "0");
    assert_eq!(decimal(7), "7");
    assert_eq!(decimal(1234), "1234");
}

#[test]
fn report_rows_without_metadata_show_unknown() {
    let records = vec![record("b.jpg", b"abc"), record("a.jpg", b"x")];
    let rows = report(&records);
    assert_eq!(rows.len(), 2);
    assert_eq!(rows[0], format!("1. b.jpg: {}, unknown", ABC_SHA256));
    assert!(rows[1].starts_with("2. a.jpg: "));
}

#[test]
fn report_row_with_capture_time() {
    let mut r = record("a.jpg", b"abc");
    r.captured_at = Some(String::from("2020:01:02 03:04:05"));
    assert_eq!(report_line(12, &r), format!("12. a.jpg: {}, 2020:01:02 03:04:05", ABC_SHA256));
}

#[test]
fn empty_index_renders_empty_object() {
    assert_eq!(FingerprintIndex::new().to_json(), "{}");
}
