use fastq::fancy_parser::{FastqReader, ParseError, Record};
use fastq::validation::ValidationError;

fn fancy_bytes(s: &str) -> Vec<u8> {
    s.as_bytes().to_vec()
}

#[test]
fn scenario_a_full_record() {
    let mut reader = FastqReader::new(fancy_bytes("@r1 desc\nACGT\n+\n!!!!\n"));
    let rec = reader.next().unwrap().unwrap();
    assert_eq!(rec.id().as_slice(), b"r1");
    assert_eq!(rec.desc().as_ref().unwrap().as_slice(), b"desc");
    assert_eq!(rec.seq().as_slice(), b"ACGT");
    assert_eq!(rec.qual().as_slice(), b"!!!!");
    assert!(reader.next().is_none());
}

#[test]
fn scenario_b_length_mismatch() {
    let mut reader = FastqReader::new(fancy_bytes("@r1\nACGT\n+\n!!!\n"));
    match reader.next().unwrap() {
        Err(ParseError::LengthMismatch(seq, qual)) => {
            assert_eq!(seq.as_slice(), b"ACGT");
            assert_eq!(qual.as_slice(), b"!!!");
        }
        other => panic!("expected a length mismatch, got {:?}", other),
    }
}

#[test]
fn scenario_c_missing_start_marker() {
    let mut reader = FastqReader::new(fancy_bytes("Xr1\n"));
    match reader.next().unwrap() {
        Err(ParseError::NoAt(byte)) => assert_eq!(byte, b'X'),
        other => panic!("expected a missing start marker, got {:?}", other),
    }
}

#[test]
fn scenario_d_wrong_separator() {
    let mut reader = FastqReader::new(fancy_bytes("@r1\nACGT\n-\n!!!!\n"));
    match reader.next().unwrap() {
        Err(ParseError::NoPlus(prev, byte)) => {
            assert_eq!(prev.as_slice(), b"@r1\nACGT");
            assert_eq!(byte, b'-');
        }
        other => panic!("expected a missing separator, got {:?}", other),
    }
}

#[test]
fn empty_input_yields_no_items() {
    let mut reader = FastqReader::new(Vec::new());
    assert!(reader.next().is_none());
    assert!(reader.next().is_none());
}

#[test]
fn single_line_is_incomplete() {
    let mut reader = FastqReader::new(fancy_bytes("@r1\n"));
    match reader.next().unwrap() {
        Err(ParseError::Incomplete(prev)) => {
            assert_eq!(prev.as_slice(), b"@r1\n<nothing>\n+\n<nothing>");
        }
        other => panic!("expected an incomplete record, got {:?}", other),
    }
}

#[test]
fn empty_header_line_is_incomplete() {
    let mut reader = FastqReader::new(fancy_bytes("@\nAC\n+\n!!\n"));
    match reader.next().unwrap() {
        Err(ParseError::Incomplete(prev)) => {
            assert_eq!(prev.as_slice(), b"@<nothing>");
        }
        other => panic!("expected an incomplete record, got {:?}", other),
    }
}

#[test]
fn truncated_before_separator_is_incomplete() {
    let mut reader = FastqReader::new(fancy_bytes("@r1\nACGT\n"));
    match reader.next().unwrap() {
        Err(ParseError::Incomplete(prev)) => {
            assert_eq!(prev.as_slice(), b"@r1\nACGT");
        }
        other => panic!("expected an incomplete record, got {:?}", other),
    }
}

#[test]
fn truncated_before_quality_is_incomplete() {
    let mut reader = FastqReader::new(fancy_bytes("@r1\nACGT\n+\n"));
    match reader.next().unwrap() {
        Err(ParseError::Incomplete(prev)) => {
            assert_eq!(prev.as_slice(), b"@r1\nACGT\n+\n<nothing>");
        }
        other => panic!("expected an incomplete record, got {:?}", other),
    }
}

#[test]
fn no_whitespace_means_no_description() {
    let mut reader = FastqReader::new(fancy_bytes("@r1\nAC\n+\n!!\n"));
    let rec = reader.next().unwrap().unwrap();
    assert_eq!(rec.id().as_slice(), b"r1");
    assert!(rec.desc().is_none());
}

#[test]
fn parsing_continues_after_error() {
    let mut reader = FastqReader::new(fancy_bytes("X\n@r2\nGG\n+\n##\n"));
    match reader.next().unwrap() {
        Err(ParseError::NoAt(byte)) => assert_eq!(byte, b'X'),
        other => panic!("expected a missing start marker, got {:?}", other),
    }
    match reader.next().unwrap() {
        Err(ParseError::NoAt(byte)) => assert_eq!(byte, b'\n'),
        other => panic!("expected a missing start marker, got {:?}", other),
    }
    let rec = reader.next().unwrap().unwrap();
    assert_eq!(rec.id().as_slice(), b"r2");
    assert!(reader.next().is_none());
}

#[test]
fn two_records_in_order() {
    let mut reader = FastqReader::new(fancy_bytes("@a x\nAC\n+\n!!\n@b\nGGT\n+ extra\n###\n"));
    let first = reader.next().unwrap().unwrap();
    assert_eq!(first.id().as_slice(), b"a");
    assert_eq!(first.desc().as_ref().unwrap().as_slice(), b"x");
    let second = reader.next().unwrap().unwrap();
    assert_eq!(second.id().as_slice(), b"b");
    assert!(second.desc().is_none());
    assert_eq!(second.seq().as_slice(), b"GGT");
    assert_eq!(second.qual().as_slice(), b"###");
    assert!(reader.next().is_none());
}

#[test]
fn round_trip_with_description() {
    let input = fancy_bytes("@r1 desc\nACGT\n+\n!!!!\n");
    let mut reader = FastqReader::new(input.clone());
    let rec = reader.next().unwrap().unwrap();
    let formatted = rec.to_bytes();
    assert_eq!(formatted, input);
    let mut again = FastqReader::new(formatted);
    let rec2 = again.next().unwrap().unwrap();
    assert_eq!(rec.id(), rec2.id());
    assert_eq!(rec.desc(), rec2.desc());
    assert_eq!(rec.seq(), rec2.seq());
    assert_eq!(rec.qual(), rec2.qual());
}

#[test]
fn check_is_idempotent_on_valid_record() {
    let rec = Record::from_strings(
        b"r1".to_vec(),
        Some(b"desc".to_vec()),
        b"ACGT".to_vec(),
        b"!!!!".to_vec(),
    );
    let copy = rec.clone();
    assert!(rec.check().is_ok());
    assert!(rec.check().is_ok());
    assert!(rec == copy);
}

#[test]
fn empty_record_is_valid() {
    let rec = Record::new();
    assert!(rec.check().is_ok());
}

#[test]
fn check_reports_missing_id() {
    let rec = Record::from_strings(Vec::new(), None, b"AC".to_vec(), b"!!".to_vec());
    assert_eq!(rec.check(), Err(ValidationError::MissingId));
}

#[test]
fn check_reports_non_ascii_sequence() {
    let rec = Record::from_strings(b"r1".to_vec(), None, vec![65, 200], b"!!".to_vec());
    assert_eq!(rec.check(), Err(ValidationError::NonAsciiSequence));
}

#[test]
fn check_reports_non_ascii_quality() {
    let rec = Record::from_strings(b"r1".to_vec(), None, b"AC".to_vec(), vec![33, 200]);
    assert_eq!(rec.check(), Err(ValidationError::NonAsciiQuality));
}

#[test]
fn check_reports_length_mismatch() {
    let rec = Record::from_strings(b"r1".to_vec(), None, b"ACG".to_vec(), b"!!".to_vec());
    assert_eq!(rec.check(), Err(ValidationError::LengthMismatch));
}

#[test]
fn cleared_record_is_empty() {
    let mut rec = Record::from_strings(
        b"r1".to_vec(),
        Some(b"d".to_vec()),
        b"AC".to_vec(),
        b"!!".to_vec(),
    );
    assert!(!rec.is_empty());
    rec.clear();
    assert!(rec.is_empty());
    assert!(rec.check().is_ok());
}

#[test]
fn io_error_kind_is_clonable() {
    let err = ParseError::Io(String::from("broken pipe"), String::from("stream closed early"));
    let copy = err.clone();
    assert!(err == copy);
}
