use ihex::Reader;
use ihex::Record;
use ihex::ReaderError;

#[test]
fn test_round_trip_all_record_types() {
    let records = vec![
        Record::Data { offset: 0x0000, value: vec![] },
        Record::Data { offset: 0x0010, value: vec![0x61, 0x64, 0x64, 0x72] },
        Record::EndOfFile,
        Record::ExtendedSegmentAddress(0x55AA),
        Record::StartSegmentAddress { cs: 0x0110, ip: 0x3801 },
        Record::ExtendedLinearAddress(0xFFFF),
        Record::StartLinearAddress(0x11223344),
    ];
    for record in records {
        let text = record.to_string();
        assert_eq!(Record::from_record_string(&text), Ok(record));
    }
}

#[test]
fn test_from_record_string_examples() {
    assert_eq!(Record::from_record_string(":00000001FF"), Ok(Record::EndOfFile));
    assert_eq!(
        Record::from_record_string(":020000021200EA"),
        Ok(Record::ExtendedSegmentAddress(0x1200))
    );
    assert_eq!(
        Record::from_record_string(":0400000300003800C1"),
        Ok(Record::StartSegmentAddress { cs: 0x0000, ip: 0x3800 })
    );
    assert_eq!(
        Record::from_record_string(":02000004FFFFFC"),
        Ok(Record::ExtendedLinearAddress(0xFFFF))
    );
    assert_eq!(
        Record::from_record_string(":04000005000000CD2A"),
        Ok(Record::StartLinearAddress(0x000000CD))
    );
    assert_eq!(
        Record::from_record_string(":0B0010006164647265737320676170A7"),
        Ok(Record::Data {
            offset: 0x0010,
            value: vec![0x61, 0x64, 0x64, 0x72, 0x65, 0x73, 0x73, 0x20, 0x67, 0x61, 0x70],
        })
    );
    // Lowercase digits are accepted on input.
    assert_eq!(
        Record::from_record_string(":0200000255aafd"),
        Ok(Record::ExtendedSegmentAddress(0x55AA))
    );
}

#[test]
fn test_from_record_string_errors() {
    assert_eq!(Record::from_record_string(""), Err(ReaderError::MissingStartCode));
    assert_eq!(Record::from_record_string("00000001FF"), Err(ReaderError::MissingStartCode));
    assert_eq!(Record::from_record_string(":00000001F"), Err(ReaderError::RecordNotEvenLength));
    assert_eq!(Record::from_record_string(":00000001"), Err(ReaderError::RecordTooShort));
    let too_long = String::from(":") + &"0".repeat(522);
    assert_eq!(Record::from_record_string(&too_long), Err(ReaderError::RecordTooLong));
    assert_eq!(
        Record::from_record_string(":00000001FG"),
        Err(ReaderError::ContainsInvalidCharacters)
    );
    assert_eq!(Record::from_record_string(":00000001FE"), Err(ReaderError::ChecksumMismatch));
    assert_eq!(Record::from_record_string(":01000000FF"), Err(ReaderError::PayloadLengthMismatch));
    assert_eq!(
        Record::from_record_string(":00000006FA"),
        Err(ReaderError::UnsupportedRecordType(0x06))
    );
    assert_eq!(
        Record::from_record_string(":0100000100FE"),
        Err(ReaderError::InvalidLengthForType)
    );
}

#[test]
fn test_checksum_sensitivity_per_digit() {
    let digits = ['0', '1', '2', '3', '4', '5', '6', '7', '8', '9', 'A', 'B', 'C', 'D', 'E', 'F'];
    let valid = ":0B0010006164647265737320676170A7";
    assert!(Record::from_record_string(valid).is_ok());
    for i in 1..valid.len() {
        let existing = valid.as_bytes()[i] as char;
        let existing_value = existing.to_digit(16).unwrap();
        for replacement in digits {
            if replacement.to_digit(16).unwrap() == existing_value {
                continue;
            }
            let mut flipped: Vec<char> = valid.chars().collect();
            flipped[i] = replacement;
            let flipped: String = flipped.into_iter().collect();
            assert_eq!(
                Record::from_record_string(&flipped),
                Err(ReaderError::ChecksumMismatch)
            );
        }
    }
}

#[test]
fn test_reader_yields_each_line() {
    let input = ":00000001FF\n:020000021200EA";
    let mut reader = Reader::new(input, false, false);
    assert_eq!(reader.next(), Some(Ok(Record::EndOfFile)));
    assert_eq!(reader.next(), Some(Ok(Record::ExtendedSegmentAddress(0x1200))));
    assert_eq!(reader.next(), None);
    assert_eq!(reader.next(), None);
}

#[test]
fn test_reader_skips_empty_lines() {
    let input = "\n\n:00000001FF\n\n:020000021200EA\n";
    let mut reader = Reader::new(input, false, false);
    assert_eq!(reader.next(), Some(Ok(Record::EndOfFile)));
    assert_eq!(reader.next(), Some(Ok(Record::ExtendedSegmentAddress(0x1200))));
    assert_eq!(reader.next(), None);
}

#[test]
fn test_reader_empty_input() {
    let mut reader = Reader::new("", false, false);
    assert_eq!(reader.next(), None);
}

#[test]
fn test_reader_stop_after_eof() {
    let input = ":00000001FF\n:020000021200EA";
    let mut reader = Reader::new(input, false, true);
    assert_eq!(reader.next(), Some(Ok(Record::EndOfFile)));
    assert_eq!(reader.next(), None);
}

#[test]
fn test_reader_stop_after_first_error() {
    let input = ":bad\n:00000001FF";
    let mut reader = Reader::new(input, true, false);
    assert!(matches!(reader.next(), Some(Err(_))));
    assert_eq!(reader.next(), None);

    let mut reader = Reader::new(input, false, false);
    assert!(matches!(reader.next(), Some(Err(_))));
    assert_eq!(reader.next(), Some(Ok(Record::EndOfFile)));
    assert_eq!(reader.next(), None);
}

#[test]
fn test_checksum_values() {
    assert_eq!(ihex::checksum::checksum(&[]), 0x00);
    assert_eq!(ihex::checksum::checksum(&[0x00, 0x00, 0x00, 0x01]), 0xFF);
    assert_eq!(ihex::checksum::checksum(&[0x02, 0x00, 0x00, 0x02, 0x12, 0x00]), 0xEA);
}

#[test]
fn test_error_descriptions() {
    assert_eq!(
        ReaderError::ChecksumMismatch.description(),
        "The checksum for the record does not match"
    );
    assert_eq!(
        ReaderError::UnsupportedRecordType(0x06).description(),
        "The record specifies an unsupported IHEX record type"
    );
}
