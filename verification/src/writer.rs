//! Object-file assembly: serializing a record sequence as one text.

use vstd::prelude::*;
use vstd::slice::slice_index_get;
use vstd::string::StringExecFns;

use crate::record::encode_spec;
use crate::record::record_views;
use crate::record::records_wf;
use crate::record::Record;
use crate::record::RecordView;

verus! {

/// A record sequence that can form a valid object file: non-empty, with
/// exactly one End Of File record, standing last.
pub open spec fn well_terminated(rs: Seq<RecordView>) -> bool {
    &&& rs.len() > 0
    &&& rs.last() is EndOfFile
    &&& forall|i: int| 0 <= i < rs.len() - 1 ==> !((#[trigger] rs[i]) is EndOfFile)
}

/// The textual object file: the encoded records joined with newlines, with
/// no trailing newline.
pub open spec fn object_file_text(rs: Seq<RecordView>) -> Seq<char>
    decreases rs.len(),
{
    if rs.len() == 0 {
        Seq::empty()
    } else if rs.len() == 1 {
        encode_spec(rs[0])
    } else {
        object_file_text(rs.drop_last()) + seq!['\n'] + encode_spec(rs.last())
    }
}

/// Serializes a record sequence as an object file, or yields nothing when
/// the sequence is empty, lacks a final End Of File record, or holds one
/// anywhere else.
pub fn create_object_file_representation(records: &[Record]) -> (result: Option<String>)
    requires
        well_terminated(record_views(records@)) ==> records_wf(record_views(records@)),
    ensures
        result is Some <==> well_terminated(record_views(records@)),
        result matches Some(s) ==> s@ == object_file_text(record_views(records@)),
{
    let ghost rs = record_views(records@);
    let n = records.len();
    if n == 0 {
        return None;
    }
    match slice_index_get(records, n - 1) {
        Record::EndOfFile => {},
        _ => {
            return None;
        },
    }
    for i in 0..n - 1
        invariant
            n == records@.len(),
            n > 0,
            rs == record_views(records@),
            rs.last() is EndOfFile,
            forall|j: int| 0 <= j < i ==> !((#[trigger] rs[j]) is EndOfFile),
    {
        match slice_index_get(records, i) {
            Record::EndOfFile => {
                proof {
                    assert(rs[i as int] is EndOfFile);
                }
                return None;
            },
            _ => {
                proof {
                    assert(!(rs[i as int] is EndOfFile));
                }
            },
        }
    }
    assert(well_terminated(rs));
    let mut s = String::new();
    for i in 0..n
        invariant
            n == records@.len(),
            rs == record_views(records@),
            well_terminated(rs),
            records_wf(rs),
            s@ == object_file_text(rs.take(i as int)),
    {
        if i > 0 {
            s.append("\n");
            proof {
                reveal_strlit("\n");
            }
        }
        proof {
            assert(rs[i as int].wf());
        }
        let line = slice_index_get(records, i).to_string();
        s.append(line.as_str());
        proof {
            assert(rs.take(i + 1).drop_last() =~= rs.take(i as int));
            assert(rs.take(i + 1).last() == rs[i as int]);
            if i == 0 {
                assert(s@ =~= object_file_text(rs.take(i + 1)));
            } else {
                assert("\n"@ =~= seq!['\n']);
                assert(s@ =~= object_file_text(rs.take(i + 1)));
            }
        }
    }
    proof {
        assert(rs.take(n as int) =~= rs);
    }
    Some(s)
}

} // verus!
