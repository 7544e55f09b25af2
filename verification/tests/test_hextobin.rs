use ihex::convert_to_bytes;
use ihex::get_address_space;
use ihex::Record;

#[test]
fn test_hextobin() {
    let records = [
        Record::ExtendedSegmentAddress(0x00),
        Record::Data { offset: 0x0000, value: vec![0x00, 0x00, 0x00, 0x00] },
        Record::Data { offset: 0x0010, value: vec![0x10, 0x10, 0x10, 0x10] },
        Record::ExtendedSegmentAddress(0x01),
        Record::Data { offset: 0x0020, value: vec![0x20, 0x20, 0x20, 0x20] },
        Record::EndOfFile,
    ];
    let data = convert_to_bytes(&records);
    assert_eq!(data.bytes[0x0000..0x0004], [0x00, 0x00, 0x00, 0x00]);
    assert_eq!(data.bytes[0x0010..0x0014], [0x10, 0x10, 0x10, 0x10]);
    assert_eq!(data.bytes[0x0030..0x0034], [0x20, 0x20, 0x20, 0x20]); // 0x0020 + 0x0010 from ExtendedSegmentAddress(0x01)
}

#[test]
fn test_hextobin_fills_gaps_with_sentinel() {
    let records = [
        Record::Data { offset: 0x0000, value: vec![0x01] },
        Record::Data { offset: 0x0004, value: vec![0x02] },
        Record::EndOfFile,
    ];
    let data = convert_to_bytes(&records);
    assert_eq!(data.start_address, 0);
    assert_eq!(data.bytes, vec![0x01, 0xFF, 0xFF, 0xFF, 0x02]);
}

#[test]
fn test_hextobin_no_data_records() {
    let records = [Record::ExtendedLinearAddress(0x0001), Record::EndOfFile];
    let data = convert_to_bytes(&records);
    assert_eq!(data.start_address, 0);
    assert_eq!(data.bytes.len(), 0);

    let data = convert_to_bytes(&[]);
    assert_eq!(data.start_address, 0);
    assert_eq!(data.bytes.len(), 0);
}

#[test]
fn test_hextobin_stops_at_eof() {
    let records = [Record::EndOfFile, Record::Data { offset: 0x0000, value: vec![0x01] }];
    let data = convert_to_bytes(&records);
    assert_eq!(data.start_address, 0);
    assert_eq!(data.bytes.len(), 0);
}

#[test]
fn test_hextobin_linear_base() {
    let records = [
        Record::ExtendedLinearAddress(0x0001),
        Record::Data { offset: 0x0002, value: vec![0x09] },
        Record::EndOfFile,
    ];
    let data = convert_to_bytes(&records);
    assert_eq!(data.start_address, 0x10002);
    assert_eq!(data.bytes, vec![0x09]);
}

#[test]
fn test_hextobin_bases_accumulate() {
    let records = [
        Record::ExtendedLinearAddress(0x0001),
        Record::ExtendedSegmentAddress(0x0100),
        Record::Data { offset: 0x0003, value: vec![0x07] },
        Record::EndOfFile,
    ];
    let data = convert_to_bytes(&records);
    assert_eq!(data.start_address, 0x10000 + 0x1000 + 0x0003);
    assert_eq!(data.bytes, vec![0x07]);
}

#[test]
fn test_hextobin_overlap_last_write_wins() {
    let records = [
        Record::Data { offset: 0x0000, value: vec![0x01, 0x02, 0x03] },
        Record::Data { offset: 0x0001, value: vec![0x09] },
        Record::EndOfFile,
    ];
    let data = convert_to_bytes(&records);
    assert_eq!(data.bytes, vec![0x01, 0x09, 0x03]);
}

#[test]
fn test_hextobin_start_vectors_ignored() {
    let records = [
        Record::StartSegmentAddress { cs: 0x1234, ip: 0x5678 },
        Record::StartLinearAddress(0xDEADBEEF),
        Record::Data { offset: 0x0010, value: vec![0x01, 0x02] },
        Record::EndOfFile,
    ];
    let data = convert_to_bytes(&records);
    assert_eq!(data.start_address, 0x10);
    assert_eq!(data.bytes, vec![0x01, 0x02]);
}

#[test]
fn test_get_address_space() {
    assert_eq!(get_address_space(&[]), (usize::MAX, 0));

    let records = [
        Record::Data { offset: 0x0010, value: vec![0x01, 0x02] },
        Record::Data { offset: 0x0020, value: vec![0x03] },
        Record::EndOfFile,
    ];
    assert_eq!(get_address_space(&records), (0x10, 0x21));
}
