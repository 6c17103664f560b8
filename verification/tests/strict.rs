use fastq::unfancy_parser::{Reader, Record, StrictError};
use fastq::validation::ValidationError;

fn strict_bytes(s: &str) -> Vec<u8> {
    s.as_bytes().to_vec()
}

#[test]
fn reads_one_record() {
    let mut reader = Reader::new(strict_bytes("@r1 d\nACGT\n+\n!!!!\n"));
    let mut rec = Record::new();
    assert!(reader.read(&mut rec).is_ok());
    assert!(!rec.is_empty());
    assert_eq!(rec.id().unwrap().as_slice(), b"r1");
    assert_eq!(rec.desc().unwrap().as_slice(), b"d");
    assert_eq!(rec.seq().as_slice(), b"ACGT");
    assert_eq!(rec.qual().as_slice(), b"!!!!");
}

#[test]
fn empty_input_reads_empty_record() {
    let mut reader = Reader::new(Vec::new());
    let mut rec = Record::new();
    assert!(reader.read(&mut rec).is_ok());
    assert!(rec.is_empty());
}

#[test]
fn empty_input_iterates_nothing() {
    let mut records = Reader::new(Vec::new()).records();
    assert!(records.next().is_none());
    assert!(records.next().is_none());
}

#[test]
fn single_line_is_incomplete_record() {
    let mut reader = Reader::new(strict_bytes("@r1\n"));
    let mut rec = Record::new();
    assert_eq!(reader.read(&mut rec), Err(StrictError::IncompleteRecord));
}

#[test]
fn wrong_leading_byte_is_fatal() {
    let mut reader = Reader::new(strict_bytes("Xr1\nACGT\n+\n!!!!\n"));
    let mut rec = Record::new();
    assert_eq!(reader.read(&mut rec), Err(StrictError::MissingStartMarker));
}

#[test]
fn separator_content_is_not_checked() {
    let mut reader = Reader::new(strict_bytes("@r1\nACGT\n-\n!!!!\n"));
    let mut rec = Record::new();
    assert!(reader.read(&mut rec).is_ok());
    assert!(rec.check().is_ok());
    assert_eq!(rec.seq().as_slice(), b"ACGT");
    assert_eq!(rec.qual().as_slice(), b"!!!!");
}

#[test]
fn iteration_stops_after_error() {
    let mut records = Reader::new(strict_bytes("Xr1\n@r2\nGG\n+\n##\n")).records();
    assert_eq!(
        records.next(),
        Some(Err(StrictError::MissingStartMarker))
    );
    assert!(records.next().is_none());
}

#[test]
fn iterates_records_in_order() {
    let mut records = Reader::new(strict_bytes("@a\nAC\n+\n!!\n@b x\nGGT\n+\n###\n")).records();
    let first = records.next().unwrap().unwrap();
    assert_eq!(first.id().unwrap().as_slice(), b"a");
    assert!(first.desc().is_none());
    let second = records.next().unwrap().unwrap();
    assert_eq!(second.id().unwrap().as_slice(), b"b");
    assert_eq!(second.desc().unwrap().as_slice(), b"x");
    assert!(records.next().is_none());
    assert!(records.next().is_none());
}

#[test]
fn accessors_trim_trailing_whitespace() {
    let mut reader = Reader::new(strict_bytes("@r1 d \nACGT \n+\n!!!! \n"));
    let mut rec = Record::new();
    assert!(reader.read(&mut rec).is_ok());
    assert_eq!(rec.id().unwrap().as_slice(), b"r1");
    assert_eq!(rec.desc().unwrap().as_slice(), b"d");
    assert_eq!(rec.seq().as_slice(), b"ACGT");
    assert_eq!(rec.qual().as_slice(), b"!!!!");
}

#[test]
fn description_keeps_inner_spaces() {
    let mut reader = Reader::new(strict_bytes("@id a b\nAC\n+\n!!\n"));
    let mut rec = Record::new();
    assert!(reader.read(&mut rec).is_ok());
    assert_eq!(rec.id().unwrap().as_slice(), b"id");
    assert_eq!(rec.desc().unwrap().as_slice(), b"a b");
}

#[test]
fn missing_final_newline_is_tolerated() {
    let mut reader = Reader::new(strict_bytes("@r1\nACGT\n+\n!!!!"));
    let mut rec = Record::new();
    assert!(reader.read(&mut rec).is_ok());
    assert_eq!(rec.seq().as_slice(), b"ACGT");
    assert_eq!(rec.qual().as_slice(), b"!!!!");
}

#[test]
fn empty_id_fails_validation() {
    let mut reader = Reader::new(strict_bytes("@\nAC\n+\n!!\n"));
    let mut rec = Record::new();
    assert!(reader.read(&mut rec).is_ok());
    assert_eq!(rec.check(), Err(ValidationError::MissingId));
}

#[test]
fn non_ascii_sequence_fails_validation() {
    let mut input = strict_bytes("@r1\n");
    input.extend_from_slice(&[65, 200, b'\n']);
    input.extend_from_slice(b"+\n!!\n");
    let mut reader = Reader::new(input);
    let mut rec = Record::new();
    assert!(reader.read(&mut rec).is_ok());
    assert_eq!(rec.check(), Err(ValidationError::NonAsciiSequence));
}

#[test]
fn non_ascii_quality_fails_validation() {
    let mut input = strict_bytes("@r1\nAC\n+\n");
    input.extend_from_slice(&[33, 200, b'\n']);
    let mut reader = Reader::new(input);
    let mut rec = Record::new();
    assert!(reader.read(&mut rec).is_ok());
    assert_eq!(rec.check(), Err(ValidationError::NonAsciiQuality));
}

#[test]
fn unequal_lengths_fail_validation() {
    let mut reader = Reader::new(strict_bytes("@r1\nACGT\n+\n!!\n"));
    let mut rec = Record::new();
    assert!(reader.read(&mut rec).is_ok());
    assert_eq!(rec.check(), Err(ValidationError::LengthMismatch));
}

#[test]
fn strict_check_is_idempotent() {
    let mut reader = Reader::new(strict_bytes("@r1\nAC\n+\n!!\n"));
    let mut rec = Record::new();
    assert!(reader.read(&mut rec).is_ok());
    let copy = rec.clone();
    assert!(rec.check().is_ok());
    assert!(rec.check().is_ok());
    assert!(rec == copy);
}

#[test]
fn clear_resets_strict_record() {
    let mut reader = Reader::new(strict_bytes("@r1\nAC\n+\n!!\n"));
    let mut rec = Record::new();
    assert!(reader.read(&mut rec).is_ok());
    rec.clear();
    assert!(rec.is_empty());
    assert!(rec.id().is_none());
    assert!(rec.check().is_ok());
}

#[test]
fn reader_reuses_one_record() {
    let mut reader = Reader::new(strict_bytes("@a\nAC\n+\n!!\n@b\nGG\n+\n##\n"));
    let mut rec = Record::new();
    assert!(reader.read(&mut rec).is_ok());
    assert_eq!(rec.id().unwrap().as_slice(), b"a");
    assert!(reader.read(&mut rec).is_ok());
    assert_eq!(rec.id().unwrap().as_slice(), b"b");
    assert!(reader.read(&mut rec).is_ok());
    assert!(rec.is_empty());
}
