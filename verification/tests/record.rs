use faster2::{AlignmentRecord, ReadRecord, TextRecord};

#[test]
fn text_record_lends_its_lines_verbatim() {
    let record = TextRecord::new(b"ACGTN", b"II5!#").unwrap();
    assert_eq!(record.sequence(), b"ACGTN");
    assert_eq!(record.quality(), b"II5!#");
}

#[test]
fn text_record_may_be_empty() {
    let record = TextRecord::new(b"", b"").unwrap();
    assert_eq!(record.sequence().len(), 0);
    assert_eq!(record.quality().len(), 0);
}

#[test]
fn text_record_needs_one_quality_byte_per_base() {
    assert!(TextRecord::new(b"ACGT", b"III").is_none());
    assert!(TextRecord::new(b"ACGT", b"").is_none());
    assert!(TextRecord::new(b"", b"I").is_none());
}

#[test]
fn alignment_record_rebases_its_scores() {
    let record = AlignmentRecord::new(b"ACG".to_vec(), &[0, 40, 93]).unwrap();
    assert_eq!(record.sequence(), b"ACG");
    assert_eq!(record.quality(), b"!I~");
}

#[test]
fn alignment_record_needs_one_score_per_base() {
    assert!(AlignmentRecord::new(b"ACG".to_vec(), &[40, 40]).is_none());
    assert!(AlignmentRecord::new(Vec::new(), &[40]).is_none());
}

#[test]
fn alignment_record_refuses_scores_without_a_byte() {
    assert!(AlignmentRecord::new(b"ACG".to_vec(), &[40, 223, 40]).is_none());
    assert!(AlignmentRecord::new(b"A".to_vec(), &[255]).is_none());
    assert!(AlignmentRecord::new(b"A".to_vec(), &[222]).is_some());
}

#[test]
fn both_kinds_of_record_read_alike() {
    let text = TextRecord::new(b"GATTACA", b"IIIIIII").unwrap();
    let alignment = AlignmentRecord::new(b"GATTACA".to_vec(), &[40; 7]).unwrap();
    assert_eq!(text.sequence(), alignment.sequence());
    assert_eq!(text.quality(), alignment.quality());
}
