use dowsing::candidate::prefix_fingerprint;
use dowsing::llvm::{counter_coverage, hit_count_bucket, LlvmCoverage};
use dowsing::llvm_coverage::{
    coverage_from_export, coverage_from_files, LlvmCounterCoverage, ReportFile, Segment,
};

fn region(filename: &str, line: u64, column: u64) -> u64 {
    let mut bytes = filename.as_bytes().to_vec();
    bytes.extend(line.to_le_bytes());
    bytes.extend(column.to_le_bytes());
    prefix_fingerprint(&bytes).hash
}

#[test]
fn an_export_gives_the_regions_that_were_run() {
    let export = br#"{"data": [{"files": [
        {"filename": "a.rs", "segments": [
            [1, 5, 3, true, true],
            [2, 5, 0, true, true],
            [3, 5, 3, false, true],
            [4, 5, 3, true, false],
            [5, 5, 3],
            "no segment"
        ]},
        {"segments": [[1, 1, 1, true, true]]},
        {"filename": "b.rs"}
    ]}, {"no": "files"}]}"#;
    let coverage = coverage_from_export(&export.to_vec()).expect("coverage");
    assert_eq!(coverage.len(), 3);
    let mut expected =
        vec![region("a.rs", 1, 5), region("a.rs", 5, 5), region("<unknown>", 1, 1)];
    expected.sort_unstable();
    let found: Vec<u64> = coverage.iter().iter().map(|id| id.raw()).collect();
    assert_eq!(found, expected);
}

#[test]
fn regions_are_told_apart_by_file_line_and_column() {
    let segment =
        Segment { line: 1, column: 2, count: 1, has_count: true, is_region_entry: true };
    let other = Segment { column: 3, ..segment };
    let skipped = Segment { count: 0, line: 9, ..segment };
    let files = vec![
        ReportFile { filename: b"a".to_vec(), segments: vec![segment, other, skipped] },
        ReportFile { filename: b"b".to_vec(), segments: vec![segment] },
    ];
    let coverage = coverage_from_files(&files);
    assert_eq!(coverage.len(), 3);
    let found: Vec<u64> = coverage.iter().iter().map(|id| id.raw()).collect();
    assert!(found.contains(&region("a", 1, 2)));
    assert!(found.contains(&region("a", 1, 3)));
    assert!(found.contains(&region("b", 1, 2)));
}

#[test]
fn what_is_no_export_is_refused() {
    let error = coverage_from_export(&b"{".to_vec()).expect_err("no JSON");
    assert_eq!(
        error,
        "failed to parse llvm-cov export JSON: EOF while parsing an object at line 1 column 1"
    );
    for text in [&b"{}"[..], &b"[]"[..], &br#"{"data": 3}"#[..]] {
        assert_eq!(
            coverage_from_export(&text.to_vec()).expect_err("no data"),
            "llvm-cov export JSON missing data array"
        );
    }
}

#[test]
fn counters_give_features_by_bucket() {
    assert_eq!(hit_count_bucket(1), 0);
    assert_eq!(hit_count_bucket(3), 2);
    assert_eq!(hit_count_bucket(200), 7);
    let bucketed = counter_coverage(&vec![0, 1, 3], 3, true).expect("feedback");
    let plain = counter_coverage(&vec![0, 1, 3], 3, false).expect("feedback");
    assert_eq!(bucketed.features().len(), 2);
    assert_eq!(plain.features().len(), 2);
    assert_ne!(bucketed.features(), plain.features());
    let same = counter_coverage(&vec![0, 7, 9], 3, false).expect("feedback");
    assert_eq!(same.features(), plain.features());
}

#[test]
fn a_process_has_counters_and_keeps_them() {
    assert_eq!(
        LlvmCounterCoverage::new(0).expect_err("no counters"),
        "LLVM coverage runtime reported no counters"
    );
    assert!(LlvmCoverage::new(0).is_err());
    let capture = LlvmCoverage::new(2).expect("capture").with_bucketing(false);
    assert_eq!(capture.read(&vec![1, 0]).expect("feedback").features().len(), 1);
    assert!(capture.read(&vec![1]).is_err());
    let coverage = LlvmCounterCoverage::new(2).expect("coverage");
    let evaluation = coverage.evaluate(&vec![0, 4], Err("broken".to_string())).expect("count");
    assert!(evaluation.is_failure());
    assert_eq!(evaluation.coverage.len(), 1);
    let case = coverage.start_case();
    assert!(case.finish(&vec![1, 1, 1], Ok(())).is_err());
}
