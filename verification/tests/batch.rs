use image_mosaic::batch::BatchReport;

#[test]
fn one_failure_among_three_files() {
    let report = BatchReport::summarize(&vec![true, false, true]);
    assert_eq!(report, BatchReport { attempted: 3, failed: 1 });
}

#[test]
fn empty_batch_reports_nothing() {
    assert_eq!(BatchReport::summarize(&Vec::new()), BatchReport { attempted: 0, failed: 0 });
}

#[test]
fn every_file_is_counted_whatever_failed_before() {
    assert_eq!(
        BatchReport::summarize(&vec![false, false, false, true]),
        BatchReport { attempted: 4, failed: 3 }
    );
    assert_eq!(BatchReport::summarize(&vec![true; 5]), BatchReport { attempted: 5, failed: 0 });
    assert_eq!(BatchReport::summarize(&vec![false; 5]), BatchReport { attempted: 5, failed: 5 });
}
