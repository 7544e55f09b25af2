//! The record data model and its textual encode rule.

use vstd::prelude::*;
use vstd::string::StringExecFns;

use crate::checksum::checksum;
use crate::checksum::checksum_spec;
use crate::hex::hex_char;
use crate::hex::hex_char_str;
use crate::hex::hex_of_bytes;

verus! {

/// Record type code of a Data record.
pub const TYPE_DATA: u8 = 0x00;

/// Record type code of an End Of File record.
pub const TYPE_END_OF_FILE: u8 = 0x01;

/// Record type code of an Extended Segment Address record.
pub const TYPE_EXTENDED_SEGMENT_ADDRESS: u8 = 0x02;

/// Record type code of a Start Segment Address record.
pub const TYPE_START_SEGMENT_ADDRESS: u8 = 0x03;

/// Record type code of an Extended Linear Address record.
pub const TYPE_EXTENDED_LINEAR_ADDRESS: u8 = 0x04;

/// Record type code of a Start Linear Address record.
pub const TYPE_START_LINEAR_ADDRESS: u8 = 0x05;

/// One record of an IHEX object file.
#[derive(PartialEq, Eq, Debug, Clone)]
pub enum Record {
    /// Raw bytes located at `offset` relative to the current address base.
    Data { offset: u16, value: Vec<u8> },
    /// Terminates a valid object file.
    EndOfFile,
    /// Sets the segment address base to the carried value shifted left by 4.
    ExtendedSegmentAddress(u16),
    /// CPU start vector (`CS`/`IP`); does not affect byte layout.
    StartSegmentAddress { cs: u16, ip: u16 },
    /// Sets the linear address base to the carried value shifted left by 16.
    ExtendedLinearAddress(u16),
    /// CPU start vector (`EIP`); does not affect byte layout.
    StartLinearAddress(u32),
}

/// The mathematical shape of a record, with its payload as a byte sequence.
pub enum RecordView {
    Data { offset: u16, value: Seq<u8> },
    EndOfFile,
    ExtendedSegmentAddress(u16),
    StartSegmentAddress { cs: u16, ip: u16 },
    ExtendedLinearAddress(u16),
    StartLinearAddress(u32),
}

impl View for Record {
    type V = RecordView;

    open spec fn view(&self) -> RecordView {
        match self {
            Record::Data { offset, value } => RecordView::Data { offset: *offset, value: value@ },
            Record::EndOfFile => RecordView::EndOfFile,
            Record::ExtendedSegmentAddress(v) => RecordView::ExtendedSegmentAddress(*v),
            Record::StartSegmentAddress { cs, ip } => RecordView::StartSegmentAddress {
                cs: *cs,
                ip: *ip,
            },
            Record::ExtendedLinearAddress(v) => RecordView::ExtendedLinearAddress(*v),
            Record::StartLinearAddress(v) => RecordView::StartLinearAddress(*v),
        }
    }
}

impl RecordView {
    /// A Data payload must fit the one-byte length field; every other
    /// variant is well formed by construction.
    pub open spec fn wf(self) -> bool {
        match self {
            RecordView::Data { value, .. } => value.len() <= 255,
            _ => true,
        }
    }
}

/// The views of a sequence of records.
pub open spec fn record_views(rs: Seq<Record>) -> Seq<RecordView> {
    Seq::new(rs.len(), |i: int| rs[i]@)
}

/// All records of the sequence are well formed.
pub open spec fn records_wf(rs: Seq<RecordView>) -> bool {
    forall|i: int| 0 <= i < rs.len() ==> (#[trigger] rs[i]).wf()
}

/// The header and payload bytes of a record:
/// `[length, address high, address low, type]` followed by the payload.
pub open spec fn record_bytes(r: RecordView) -> Seq<u8> {
    match r {
        RecordView::Data { offset, value } => seq![
            value.len() as u8,
            (offset / 256) as u8,
            (offset % 256) as u8,
            TYPE_DATA,
        ] + value,
        RecordView::EndOfFile => seq![0u8, 0u8, 0u8, TYPE_END_OF_FILE],
        RecordView::ExtendedSegmentAddress(v) => seq![
            2u8,
            0u8,
            0u8,
            TYPE_EXTENDED_SEGMENT_ADDRESS,
            (v / 256) as u8,
            (v % 256) as u8,
        ],
        RecordView::StartSegmentAddress { cs, ip } => seq![
            4u8,
            0u8,
            0u8,
            TYPE_START_SEGMENT_ADDRESS,
            (cs / 256) as u8,
            (cs % 256) as u8,
            (ip / 256) as u8,
            (ip % 256) as u8,
        ],
        RecordView::ExtendedLinearAddress(v) => seq![
            2u8,
            0u8,
            0u8,
            TYPE_EXTENDED_LINEAR_ADDRESS,
            (v / 256) as u8,
            (v % 256) as u8,
        ],
        RecordView::StartLinearAddress(v) => seq![
            4u8,
            0u8,
            0u8,
            TYPE_START_LINEAR_ADDRESS,
            (v / 16777216) as u8,
            ((v / 65536) % 256) as u8,
            ((v / 256) % 256) as u8,
            (v % 256) as u8,
        ],
    }
}

/// The record bytes with the checksum byte appended.
pub open spec fn full_record_bytes(r: RecordView) -> Seq<u8> {
    record_bytes(r).push(checksum_spec(record_bytes(r)))
}

/// The exact textual form of a record: a `:` start code followed by the
/// uppercase two-digit rendering of each byte.
pub open spec fn encode_spec(r: RecordView) -> Seq<char> {
    seq![':'] + hex_of_bytes(full_record_bytes(r))
}

impl Record {
    /// Serializes this record into its exact textual form.
    pub fn to_string(&self) -> (s: String)
        requires
            self@.wf(),
        ensures
            s@ == encode_spec(self@),
    {
        let mut bytes: Vec<u8> = Vec::new();
        match self {
            Record::Data { offset, value } => {
                bytes.push(value.len() as u8);
                bytes.push((*offset / 256) as u8);
                bytes.push((*offset % 256) as u8);
                bytes.push(TYPE_DATA);
                let n = value.len();
                for i in 0..n
                    invariant
                        n == value@.len() <= 255,
                        bytes@ == seq![
                            n as u8,
                            (offset / 256) as u8,
                            (offset % 256) as u8,
                            TYPE_DATA,
                        ] + value@.take(i as int),
                {
                    bytes.push(value[i]);
                    proof {
                        assert(value@.take(i + 1) =~= value@.take(i as int).push(value@[i as int]));
                    }
                }
                proof {
                    assert(value@.take(n as int) =~= value@);
                    assert(bytes@ =~= record_bytes(self@));
                }
            },
            Record::EndOfFile => {
                bytes.push(0);
                bytes.push(0);
                bytes.push(0);
                bytes.push(TYPE_END_OF_FILE);
                proof {
                    assert(bytes@ =~= record_bytes(self@));
                }
            },
            Record::ExtendedSegmentAddress(v) => {
                bytes.push(2);
                bytes.push(0);
                bytes.push(0);
                bytes.push(TYPE_EXTENDED_SEGMENT_ADDRESS);
                bytes.push((*v / 256) as u8);
                bytes.push((*v % 256) as u8);
                proof {
                    assert(bytes@ =~= record_bytes(self@));
                }
            },
            Record::StartSegmentAddress { cs, ip } => {
                bytes.push(4);
                bytes.push(0);
                bytes.push(0);
                bytes.push(TYPE_START_SEGMENT_ADDRESS);
                bytes.push((*cs / 256) as u8);
                bytes.push((*cs % 256) as u8);
                bytes.push((*ip / 256) as u8);
                bytes.push((*ip % 256) as u8);
                proof {
                    assert(bytes@ =~= record_bytes(self@));
                }
            },
            Record::ExtendedLinearAddress(v) => {
                bytes.push(2);
                bytes.push(0);
                bytes.push(0);
                bytes.push(TYPE_EXTENDED_LINEAR_ADDRESS);
                bytes.push((*v / 256) as u8);
                bytes.push((*v % 256) as u8);
                proof {
                    assert(bytes@ =~= record_bytes(self@));
                }
            },
            Record::StartLinearAddress(v) => {
                bytes.push(4);
                bytes.push(0);
                bytes.push(0);
                bytes.push(TYPE_START_LINEAR_ADDRESS);
                bytes.push((*v / 16777216) as u8);
                bytes.push(((*v / 65536) % 256) as u8);
                bytes.push(((*v / 256) % 256) as u8);
                bytes.push((*v % 256) as u8);
                proof {
                    assert(bytes@ =~= record_bytes(self@));
                }
            },
        }
        let c = checksum(bytes.as_slice());
        bytes.push(c);
        proof {
            assert(bytes@ =~= full_record_bytes(self@));
        }
        let mut s = String::from_str(":");
        proof {
            reveal_strlit(":");
            assert(s@ =~= seq![':']);
        }
        let m = bytes.len();
        for i in 0..m
            invariant
                m == bytes@.len(),
                bytes@ == full_record_bytes(self@),
                s@ == seq![':'] + hex_of_bytes(bytes@.take(i as int)),
        {
            let b = bytes[i];
            s.append(hex_char_str(b / 16));
            s.append(hex_char_str(b % 16));
            proof {
                assert(hex_of_bytes(bytes@.take(i + 1)) =~= hex_of_bytes(bytes@.take(i as int))
                    + seq![hex_char(b / 16), hex_char(b % 16)]);
            }
        }
        proof {
            assert(bytes@.take(m as int) =~= bytes@);
            assert(s@ =~= encode_spec(self@));
        }
        s
    }
}

} // verus!
