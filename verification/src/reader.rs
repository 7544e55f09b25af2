//! The line-oriented reader: record decoding and the record stream.

use vstd::prelude::*;
use vstd::slice::slice_index_get;
use vstd::slice::slice_subrange;
use vstd::slice::slice_to_vec;
use vstd::string::StrSliceExecFns;

use crate::checksum::checksum;
use crate::checksum::checksum_spec;
use crate::checksum::lemma_checksum_differs;
use crate::checksum::lemma_sum_bytes_update;
use crate::hex::all_hex;
use crate::hex::bytes_of_hex;
use crate::hex::hex_digit_value;
use crate::hex::hex_val;
use crate::hex::is_hex_digit;
use crate::hex::lemma_bytes_of_hex_of_bytes;
use crate::hex::lemma_bytes_of_hex_update;
use crate::hex::hex_of_bytes;
use crate::hex::lemma_hex_of_bytes_all_hex;
use crate::record::encode_spec;
use crate::record::full_record_bytes;
use crate::record::record_bytes;
use crate::record::Record;
use crate::record::RecordView;
use crate::record::TYPE_DATA;
use crate::record::TYPE_END_OF_FILE;
use crate::record::TYPE_EXTENDED_LINEAR_ADDRESS;
use crate::record::TYPE_EXTENDED_SEGMENT_ADDRESS;
use crate::record::TYPE_START_LINEAR_ADDRESS;
use crate::record::TYPE_START_SEGMENT_ADDRESS;

verus! {

/// Why a record string failed to decode.
#[derive(PartialEq, Eq, Clone, Copy, Debug)]
pub enum ReaderError {
    /// A record string does not begin with a `:`.
    MissingStartCode,
    /// The record provided is shorter than the smallest valid.
    RecordTooShort,
    /// The record provided exceeds the maximum size (255 byte payload).
    RecordTooLong,
    /// The record is not a whole number of byte pairs.
    RecordNotEvenLength,
    /// The record is not all hexadecimal characters.
    ContainsInvalidCharacters,
    /// The checksum did not match.
    ChecksumMismatch,
    /// The record is not the length it claims.
    PayloadLengthMismatch,
    /// The record type is not supported.
    UnsupportedRecordType(u8),
    /// The payload length does not match the record type.
    InvalidLengthForType,
}

impl ReaderError {
    /// A short description of the failure.
    pub fn description(&self) -> (r: &'static str)
        ensures
            r@ == match *self {
                ReaderError::MissingStartCode => "Record does not being with a Start Code (':')"@,
                ReaderError::RecordTooShort => "Record string is shorter than the smallest valid record"@,
                ReaderError::RecordTooLong => "Record string is longer than the longest valid record"@,
                ReaderError::RecordNotEvenLength => "Record does not contain a whole number of bytes"@,
                ReaderError::ContainsInvalidCharacters => "Record contains invalid characters"@,
                ReaderError::ChecksumMismatch => "The checksum for the record does not match"@,
                ReaderError::PayloadLengthMismatch => "The length of the payload does not match the length field"@,
                ReaderError::UnsupportedRecordType(_) => "The record specifies an unsupported IHEX record type"@,
                ReaderError::InvalidLengthForType => "The payload length is invalid for the IHEX record type"@,
            },
    {
        match self {
            ReaderError::MissingStartCode => "Record does not being with a Start Code (':')",
            ReaderError::RecordTooShort => "Record string is shorter than the smallest valid record",
            ReaderError::RecordTooLong => "Record string is longer than the longest valid record",
            ReaderError::RecordNotEvenLength => "Record does not contain a whole number of bytes",
            ReaderError::ContainsInvalidCharacters => "Record contains invalid characters",
            ReaderError::ChecksumMismatch => "The checksum for the record does not match",
            ReaderError::PayloadLengthMismatch => "The length of the payload does not match the length field",
            ReaderError::UnsupportedRecordType(_) => "The record specifies an unsupported IHEX record type",
            ReaderError::InvalidLengthForType => "The payload length is invalid for the IHEX record type",
        }
    }
}

/// The smallest record (excluding the start code) is
/// length + address + type + checksum, two characters each.
pub const SMALLEST_RECORD_CHAR_COUNT: usize = 5 * 2;

/// The smallest record plus a 255 byte payload region.
pub const LARGEST_RECORD_CHAR_COUNT: usize = 5 * 2 + 255 * 2;

/// The 16-bit big-endian value of a two-byte sequence.
pub open spec fn be16(b: Seq<u8>) -> u16
    recommends
        b.len() == 2,
{
    (b[0] * 256 + b[1]) as u16
}

/// The 32-bit big-endian value of a four-byte sequence.
pub open spec fn be32(b: Seq<u8>) -> u32
    recommends
        b.len() == 4,
{
    (b[0] * 16777216 + b[1] * 65536 + b[2] * 256 + b[3]) as u32
}

/// Interpretation of the decoded bytes of a record:
/// `[length, address, type, payload, checksum]`, checked in that order.
pub open spec fn parse_bytes_spec(b: Seq<u8>) -> Result<RecordView, ReaderError>
    recommends
        b.len() >= 5,
{
    let body = b.drop_last();
    if b.last() != checksum_spec(body) {
        Err(ReaderError::ChecksumMismatch)
    } else {
        let length = body[0];
        let address = (body[1] * 256 + body[2]) as u16;
        let rtype = body[3];
        let payload = body.subrange(4, body.len() as int);
        if payload.len() != length {
            Err(ReaderError::PayloadLengthMismatch)
        } else if rtype == TYPE_DATA {
            Ok(RecordView::Data { offset: address, value: payload })
        } else if rtype == TYPE_END_OF_FILE {
            if payload.len() == 0 {
                Ok(RecordView::EndOfFile)
            } else {
                Err(ReaderError::InvalidLengthForType)
            }
        } else if rtype == TYPE_EXTENDED_SEGMENT_ADDRESS {
            if payload.len() == 2 {
                Ok(RecordView::ExtendedSegmentAddress(be16(payload)))
            } else {
                Err(ReaderError::InvalidLengthForType)
            }
        } else if rtype == TYPE_START_SEGMENT_ADDRESS {
            if payload.len() == 4 {
                Ok(
                    RecordView::StartSegmentAddress {
                        cs: be16(payload.subrange(0, 2)),
                        ip: be16(payload.subrange(2, 4)),
                    },
                )
            } else {
                Err(ReaderError::InvalidLengthForType)
            }
        } else if rtype == TYPE_EXTENDED_LINEAR_ADDRESS {
            if payload.len() == 2 {
                Ok(RecordView::ExtendedLinearAddress(be16(payload)))
            } else {
                Err(ReaderError::InvalidLengthForType)
            }
        } else if rtype == TYPE_START_LINEAR_ADDRESS {
            if payload.len() == 4 {
                Ok(RecordView::StartLinearAddress(be32(payload)))
            } else {
                Err(ReaderError::InvalidLengthForType)
            }
        } else {
            Err(ReaderError::UnsupportedRecordType(rtype))
        }
    }
}

/// The decode rule for one textual record line: start code, even character
/// count, size bounds, hexadecimal characters, then byte-level checks.
pub open spec fn parse_spec(s: Seq<char>) -> Result<RecordView, ReaderError> {
    if s.len() == 0 || s[0] != ':' {
        Err(ReaderError::MissingStartCode)
    } else {
        let d = s.subrange(1, s.len() as int);
        if d.len() % 2 != 0 {
            Err(ReaderError::RecordNotEvenLength)
        } else if d.len() < SMALLEST_RECORD_CHAR_COUNT {
            Err(ReaderError::RecordTooShort)
        } else if d.len() > LARGEST_RECORD_CHAR_COUNT {
            Err(ReaderError::RecordTooLong)
        } else if !all_hex(d) {
            Err(ReaderError::ContainsInvalidCharacters)
        } else {
            parse_bytes_spec(bytes_of_hex(d))
        }
    }
}

/// A decode result with the record replaced by its view.
pub open spec fn parse_result_view(r: Result<Record, ReaderError>) -> Result<
    RecordView,
    ReaderError,
> {
    match r {
        Ok(rec) => Ok(rec@),
        Err(e) => Err(e),
    }
}

/// Decodes one record line given as a character slice.
fn parse_record_chars(cs: &[char]) -> (r: Result<Record, ReaderError>)
    ensures
        parse_result_view(r) == parse_spec(cs@),
{
    let n = cs.len();
    if n == 0 {
        return Err(ReaderError::MissingStartCode);
    }
    if *slice_index_get(cs, 0) != ':' {
        return Err(ReaderError::MissingStartCode);
    }
    let ghost d = cs@.subrange(1, n as int);
    let m = n - 1;
    if m % 2 != 0 {
        return Err(ReaderError::RecordNotEvenLength);
    }
    if m < SMALLEST_RECORD_CHAR_COUNT {
        return Err(ReaderError::RecordTooShort);
    }
    if m > LARGEST_RECORD_CHAR_COUNT {
        return Err(ReaderError::RecordTooLong);
    }
    let half = m / 2;
    let mut bytes: Vec<u8> = Vec::new();
    for k in 0..half
        invariant
            n == cs@.len(),
            n > 0,
            cs@[0] == ':',
            m == n - 1,
            m % 2 == 0,
            SMALLEST_RECORD_CHAR_COUNT <= m <= LARGEST_RECORD_CHAR_COUNT,
            half == m / 2,
            d == cs@.subrange(1, n as int),
            forall|j: int| 0 <= j < 2 * k ==> is_hex_digit(#[trigger] d[j]),
            bytes@ == bytes_of_hex(d.take(2 * k)),
    {
        let c1 = *slice_index_get(cs, 1 + 2 * k);
        let c2 = *slice_index_get(cs, 2 + 2 * k);
        let v1 = match hex_digit_value(c1) {
            Some(v) => v,
            None => {
                proof {
                    assert(!is_hex_digit(d[2 * k as int]));
                }
                return Err(ReaderError::ContainsInvalidCharacters);
            },
        };
        let v2 = match hex_digit_value(c2) {
            Some(v) => v,
            None => {
                proof {
                    assert(!is_hex_digit(d[2 * k + 1]));
                }
                return Err(ReaderError::ContainsInvalidCharacters);
            },
        };
        bytes.push(v1 * 16 + v2);
        proof {
            assert(bytes_of_hex(d.take(2 * (k + 1))) =~= bytes_of_hex(d.take(2 * k as int)).push(
                (16 * v1 + v2) as u8,
            ));
        }
    }
    proof {
        assert(d.take(2 * half as int) =~= d);
        assert(all_hex(d));
    }
    parse_record_bytes(bytes.as_slice())
}

/// Applies the byte-level checks and type dispatch to decoded record bytes.
fn parse_record_bytes(bytes: &[u8]) -> (r: Result<Record, ReaderError>)
    requires
        bytes@.len() >= 5,
    ensures
        parse_result_view(r) == parse_bytes_spec(bytes@),
{
    let blen = bytes.len();
    let body = slice_subrange(bytes, 0, blen - 1);
    let expected = *slice_index_get(bytes, blen - 1);
    proof {
        assert(body@ =~= bytes@.drop_last());
    }
    if checksum(body) != expected {
        return Err(ReaderError::ChecksumMismatch);
    }
    let length = *slice_index_get(bytes, 0);
    let address = (*slice_index_get(bytes, 1) as u16) * 256 + (*slice_index_get(bytes, 2) as u16);
    let rtype = *slice_index_get(bytes, 3);
    let payload = slice_subrange(bytes, 4, blen - 1);
    proof {
        assert(payload@ =~= bytes@.drop_last().subrange(4, bytes@.drop_last().len() as int));
    }
    if payload.len() != length as usize {
        return Err(ReaderError::PayloadLengthMismatch);
    }
    if rtype == TYPE_DATA {
        Ok(Record::Data { offset: address, value: slice_to_vec(payload) })
    } else if rtype == TYPE_END_OF_FILE {
        if payload.len() == 0 {
            Ok(Record::EndOfFile)
        } else {
            Err(ReaderError::InvalidLengthForType)
        }
    } else if rtype == TYPE_EXTENDED_SEGMENT_ADDRESS {
        if payload.len() == 2 {
            let v = (*slice_index_get(payload, 0) as u16) * 256 + (*slice_index_get(
                payload,
                1,
            ) as u16);
            Ok(Record::ExtendedSegmentAddress(v))
        } else {
            Err(ReaderError::InvalidLengthForType)
        }
    } else if rtype == TYPE_START_SEGMENT_ADDRESS {
        if payload.len() == 4 {
            let cs_v = (*slice_index_get(payload, 0) as u16) * 256 + (*slice_index_get(
                payload,
                1,
            ) as u16);
            let ip_v = (*slice_index_get(payload, 2) as u16) * 256 + (*slice_index_get(
                payload,
                3,
            ) as u16);
            proof {
                assert(payload@.subrange(0, 2) =~= seq![payload@[0], payload@[1]]);
                assert(payload@.subrange(2, 4) =~= seq![payload@[2], payload@[3]]);
            }
            Ok(Record::StartSegmentAddress { cs: cs_v, ip: ip_v })
        } else {
            Err(ReaderError::InvalidLengthForType)
        }
    } else if rtype == TYPE_EXTENDED_LINEAR_ADDRESS {
        if payload.len() == 2 {
            let v = (*slice_index_get(payload, 0) as u16) * 256 + (*slice_index_get(
                payload,
                1,
            ) as u16);
            Ok(Record::ExtendedLinearAddress(v))
        } else {
            Err(ReaderError::InvalidLengthForType)
        }
    } else if rtype == TYPE_START_LINEAR_ADDRESS {
        if payload.len() == 4 {
            let v = (*slice_index_get(payload, 0) as u32) * 16777216 + (*slice_index_get(
                payload,
                1,
            ) as u32) * 65536 + (*slice_index_get(payload, 2) as u32) * 256 + (*slice_index_get(
                payload,
                3,
            ) as u32);
            Ok(Record::StartLinearAddress(v))
        } else {
            Err(ReaderError::InvalidLengthForType)
        }
    } else {
        Err(ReaderError::UnsupportedRecordType(rtype))
    }
}

impl Record {
    /// Parses the textual representation of one record.
    pub fn from_record_string(string: &str) -> (r: Result<Record, ReaderError>)
        ensures
            parse_result_view(r) == parse_spec(string@),
    {
        let n = string.unicode_len();
        if n == 0 {
            return Err(ReaderError::MissingStartCode);
        }
        if string.get_char(0) != ':' {
            return Err(ReaderError::MissingStartCode);
        }
        let m = n - 1;
        if m % 2 != 0 {
            return Err(ReaderError::RecordNotEvenLength);
        }
        if m < SMALLEST_RECORD_CHAR_COUNT {
            return Err(ReaderError::RecordTooShort);
        }
        if m > LARGEST_RECORD_CHAR_COUNT {
            return Err(ReaderError::RecordTooLong);
        }
        let mut cv: Vec<char> = Vec::new();
        for i in 0..n
            invariant
                n == string@.len(),
                cv@ == string@.take(i as int),
        {
            cv.push(string.get_char(i));
        }
        proof {
            assert(cv@ =~= string@);
        }
        parse_record_chars(cv.as_slice())
    }
}

/// Framing: the textual form of a well-formed record passes the start
/// code, size and character checks, and decodes to its exact bytes.
#[verifier::rlimit(100)]
proof fn lemma_round_trip_frame(r: RecordView)
    requires
        r.wf(),
    ensures
        parse_spec(encode_spec(r)) == parse_bytes_spec(full_record_bytes(r)),
{
    let rb = record_bytes(r);
    let fb = full_record_bytes(r);
    let s = encode_spec(r);
    assert(4 <= rb.len() <= 259);
    assert(s[0] == ':');
    let d = s.subrange(1, s.len() as int);
    assert(d =~= hex_of_bytes(fb));
    lemma_hex_of_bytes_all_hex(fb);
    lemma_bytes_of_hex_of_bytes(fb);
}

/// The decoded bytes of a well-formed record pass the checksum and length
/// checks and dispatch back to the record itself.
proof fn lemma_parse_record_bytes(r: RecordView)
    requires
        r.wf(),
    ensures
        parse_bytes_spec(full_record_bytes(r)) == Ok::<RecordView, ReaderError>(r),
{
    let rb = record_bytes(r);
    let fb = full_record_bytes(r);
    assert(fb.drop_last() =~= rb);
    let payload = rb.subrange(4, rb.len() as int);
    match r {
        RecordView::Data { offset, value } => {
            assert(payload =~= value);
        },
        RecordView::EndOfFile => {
            assert(payload =~= Seq::<u8>::empty());
        },
        RecordView::ExtendedSegmentAddress(v) => {
            assert(payload =~= seq![(v / 256) as u8, (v % 256) as u8]);
            assert(be16(payload) == v);
        },
        RecordView::StartSegmentAddress { cs, ip } => {
            assert(payload =~= seq![
                (cs / 256) as u8,
                (cs % 256) as u8,
                (ip / 256) as u8,
                (ip % 256) as u8,
            ]);
            assert(payload.subrange(0, 2) =~= seq![(cs / 256) as u8, (cs % 256) as u8]);
            assert(payload.subrange(2, 4) =~= seq![(ip / 256) as u8, (ip % 256) as u8]);
            assert(be16(payload.subrange(0, 2)) == cs);
            assert(be16(payload.subrange(2, 4)) == ip);
        },
        RecordView::ExtendedLinearAddress(v) => {
            assert(payload =~= seq![(v / 256) as u8, (v % 256) as u8]);
            assert(be16(payload) == v);
        },
        RecordView::StartLinearAddress(v) => {
            assert(payload =~= seq![
                (v / 16777216) as u8,
                ((v / 65536) % 256) as u8,
                ((v / 256) % 256) as u8,
                (v % 256) as u8,
            ]);
            assert(be32(payload) == v) by {
                lemma_u32_digits(v);
            }
        },
    }
}

/// Round trip: decoding the textual form of a well-formed record yields
/// exactly the record it encodes.
pub proof fn lemma_round_trip(r: RecordView)
    requires
        r.wf(),
    ensures
        parse_spec(encode_spec(r)) == Ok::<RecordView, ReaderError>(r),
{
    lemma_round_trip_frame(r);
    lemma_parse_record_bytes(r);
}

/// A 32-bit value is recovered from its four big-endian base-256 digits.
proof fn lemma_u32_digits(v: u32)
    ensures
        (v / 16777216) * 16777216 + ((v / 65536) % 256) * 65536 + ((v / 256) % 256) * 256 + v % 256
            == v,
{
    vstd::arithmetic::div_mod::lemma_fundamental_div_mod(v as int, 256);
    vstd::arithmetic::div_mod::lemma_fundamental_div_mod(v as int / 256, 256);
    vstd::arithmetic::div_mod::lemma_fundamental_div_mod(v as int / 65536, 256);
    assert((v as int / 256) / 256 == v as int / 65536) by {
        vstd::arithmetic::div_mod::lemma_div_denominator(v as int, 256, 256);
    }
    assert((v as int / 65536) / 256 == v as int / 16777216) by {
        vstd::arithmetic::div_mod::lemma_div_denominator(v as int, 65536, 256);
    }
}

/// Checksum sensitivity: replacing any one digit of a record string that
/// decodes successfully by a digit of a different value — anywhere after
/// the start code, the checksum field included — makes decoding fail with
/// a checksum mismatch.
#[verifier::rlimit(60)]
pub proof fn lemma_checksum_sensitivity(s: Seq<char>, i: int, c: char)
    requires
        parse_spec(s) is Ok,
        1 <= i < s.len(),
        is_hex_digit(c),
        hex_val(c) != hex_val(s[i]),
    ensures
        parse_spec(s.update(i, c)) == Err::<RecordView, ReaderError>(ReaderError::ChecksumMismatch),
{
    let s2 = s.update(i, c);
    let d = s.subrange(1, s.len() as int);
    let d2 = s2.subrange(1, s2.len() as int);
    assert(d2 =~= d.update(i - 1, c));
    assert(all_hex(d2)) by {
        assert(forall|j: int|
            0 <= j < d2.len() ==> #[trigger] d2[j] == (if j == i - 1 {
                c
            } else {
                d[j]
            }));
    }
    let b = bytes_of_hex(d);
    let j = i - 1;
    let k = j / 2;
    lemma_bytes_of_hex_update(d, j, c);
    let nb = if j % 2 == 0 {
        (16 * hex_val(c) + hex_val(d[2 * k + 1])) as u8
    } else {
        (16 * hex_val(d[2 * k]) + hex_val(c)) as u8
    };
    let b2 = bytes_of_hex(d2);
    assert(b2 == b.update(k, nb));
    assert(nb != b[k]) by {
        assert(is_hex_digit(d[2 * k]) && is_hex_digit(d[2 * k + 1]));
    }
    assert(b.last() == checksum_spec(b.drop_last()));
    if k < b.len() - 1 {
        assert(b2.last() == b.last());
        assert(b2.drop_last() =~= b.drop_last().update(k, nb));
        lemma_sum_bytes_update(b.drop_last(), k, nb);
        lemma_checksum_differs(b2.drop_last(), b.drop_last());
    } else {
        assert(b2.drop_last() =~= b.drop_last());
        assert(b2.last() == nb);
    }
    assert(parse_bytes_spec(b2) == Err::<RecordView, ReaderError>(ReaderError::ChecksumMismatch));
}

/// Length-field enforcement: a record string sound through its checksum
/// whose declared length byte disagrees with the actual payload length
/// always fails with a payload length mismatch.
pub proof fn lemma_length_field_enforced(s: Seq<char>)
    requires
        s.len() > 0,
        s[0] == ':',
        ({
            let d = s.subrange(1, s.len() as int);
            &&& d.len() % 2 == 0
            &&& SMALLEST_RECORD_CHAR_COUNT <= d.len() <= LARGEST_RECORD_CHAR_COUNT
            &&& all_hex(d)
            &&& bytes_of_hex(d).last() == checksum_spec(bytes_of_hex(d).drop_last())
            &&& bytes_of_hex(d)[0] != bytes_of_hex(d).len() - 5
        }),
    ensures
        parse_spec(s) == Err::<RecordView, ReaderError>(ReaderError::PayloadLengthMismatch),
{
    let d = s.subrange(1, s.len() as int);
    let b = bytes_of_hex(d);
    let body = b.drop_last();
    assert(body.subrange(4, body.len() as int).len() == b.len() - 5);
    assert(body[0] == b[0]);
}

/// The end of the line starting at `p`: the first position at or after `p`
/// holding a newline, or else the end of the text.
pub open spec fn line_end(s: Seq<char>, p: int) -> int
    recommends
        0 <= p <= s.len(),
    decreases s.len() - p,
{
    if p < 0 || p >= s.len() || s[p] == '\n' {
        p
    } else {
        line_end(s, p + 1)
    }
}

/// The start and end of the first non-empty line at or after position `p`,
/// or `None` when only empty lines remain.
pub open spec fn next_line(s: Seq<char>, p: int) -> Option<(int, int)>
    decreases s.len() - p,
{
    if p < 0 || p >= s.len() {
        None
    } else if s[p] == '\n' {
        next_line(s, p + 1)
    } else {
        Some((p, line_end(s, p)))
    }
}

/// A scan that stopped at the end of the text or at a newline, having
/// passed none, stopped exactly at the line end.
proof fn lemma_line_end_eq(s: Seq<char>, p: int, e: int)
    requires
        0 <= p <= e <= s.len(),
        forall|j: int| p <= j < e ==> s[j] != '\n',
        e == s.len() || s[e] == '\n',
    ensures
        line_end(s, p) == e,
    decreases e - p,
{
    if p < e {
        lemma_line_end_eq(s, p + 1, e);
    }
}

/// Streams the parse results of the non-empty lines of an object-file text.
pub struct Reader {
    /// The input text.
    chars: Vec<char>,
    /// Scanning resumes from this position.
    pos: usize,
    /// Iteration may complete before the text is exhausted.
    finished: bool,
    /// Stop after the first line that fails to parse.
    stop_after_first_error: bool,
    /// Stop after the first End Of File record encountered.
    stop_after_eof: bool,
}

impl Reader {
    /// The full input text.
    pub closed spec fn text(&self) -> Seq<char> {
        self.chars@
    }

    /// The position scanning resumes from.
    pub closed spec fn position(&self) -> int {
        self.pos as int
    }

    /// The stream has permanently ended.
    pub closed spec fn is_finished(&self) -> bool {
        self.finished
    }

    /// Whether the stream ends at the first line that fails to parse.
    pub closed spec fn stops_after_first_error(&self) -> bool {
        self.stop_after_first_error
    }

    /// Whether the stream ends at the first End Of File record.
    pub closed spec fn stops_after_eof(&self) -> bool {
        self.stop_after_eof
    }

    /// Builds a reader over an object-file text with the two termination
    /// policies.
    pub fn new(string: &str, stop_after_first_error: bool, stop_after_eof: bool) -> (r: Self)
        ensures
            r.text() == string@,
            r.position() == 0,
            !r.is_finished(),
            r.stops_after_first_error() == stop_after_first_error,
            r.stops_after_eof() == stop_after_eof,
    {
        let n = string.unicode_len();
        let mut cv: Vec<char> = Vec::new();
        for i in 0..n
            invariant
                n == string@.len(),
                cv@ == string@.take(i as int),
        {
            cv.push(string.get_char(i));
        }
        proof {
            assert(cv@ =~= string@);
        }
        Reader { chars: cv, pos: 0, finished: false, stop_after_first_error, stop_after_eof }
    }

    /// Yields the parse result of the next non-empty line, or `None` when
    /// the stream has ended.
    ///
    /// Once finished — by exhausting the input, by an error under
    /// `stop_after_first_error`, or by an End Of File record under
    /// `stop_after_eof` — the stream stays finished and yields nothing more.
    pub fn next(&mut self) -> (r: Option<Result<Record, ReaderError>>)
        ensures
            final(self).text() == old(self).text(),
            final(self).stops_after_first_error() == old(self).stops_after_first_error(),
            final(self).stops_after_eof() == old(self).stops_after_eof(),
            old(self).is_finished() ==> r is None && *final(self) == *old(self),
            !old(self).is_finished() ==> match next_line(old(self).text(), old(self).position()) {
                None => r is None && final(self).is_finished(),
                Some(se) => match r {
                    Some(pr) => {
                        &&& parse_result_view(pr) == parse_spec(
                            old(self).text().subrange(se.0, se.1),
                        )
                        &&& final(self).position() == (if se.1 < old(self).text().len() {
                            se.1 + 1
                        } else {
                            se.1
                        })
                        &&& final(self).is_finished() == ((old(self).stops_after_first_error()
                            && pr is Err) || (old(self).stops_after_eof() && pr matches Ok(
                            Record::EndOfFile,
                        )))
                    },
                    None => false,
                },
            },
    {
        if self.finished {
            return None;
        }
        loop
            invariant
                !self.finished,
                !old(self).is_finished(),
                self.chars@ == old(self).chars@,
                self.stop_after_first_error == old(self).stop_after_first_error,
                self.stop_after_eof == old(self).stop_after_eof,
                next_line(self.chars@, old(self).pos as int) == next_line(
                    self.chars@,
                    self.pos as int,
                ),
            decreases self.chars@.len() - self.pos,
        {
            let len = self.chars.len();
            if self.pos >= len {
                self.finished = true;
                return None;
            }
            if self.chars[self.pos] == '\n' {
                self.pos = self.pos + 1;
                continue ;
            }
            let mut e = self.pos;
            while e < len && self.chars[e] != '\n'
                invariant
                    len == self.chars@.len(),
                    self.pos <= e <= len,
                    forall|j: int| self.pos <= j < e ==> self.chars@[j] != '\n',
                decreases len - e,
            {
                e = e + 1;
            }
            proof {
                lemma_line_end_eq(self.chars@, self.pos as int, e as int);
            }
            let line = slice_subrange(self.chars.as_slice(), self.pos, e);
            let res = parse_record_chars(line);
            let mut fin = false;
            match &res {
                Err(_) => {
                    if self.stop_after_first_error {
                        fin = true;
                    }
                },
                Ok(Record::EndOfFile) => {
                    if self.stop_after_eof {
                        fin = true;
                    }
                },
                _ => {},
            }
            self.finished = fin;
            self.pos = if e < len {
                e + 1
            } else {
                e
            };
            return Some(res);
        }
    }
}

} // verus!
