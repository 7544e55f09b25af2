//! Flattening a record stream into a contiguous binary image.

use vstd::prelude::*;
use vstd::slice::slice_index_get;

use crate::record::record_views;
use crate::record::Record;
use crate::record::RecordView;

verus! {

/// The fill byte for regions of the span no Data record covers.
pub const FILL_BYTE: u8 = 0xFF;

/// A flat byte buffer together with its absolute start address.
#[derive(PartialEq, Eq, Default, Debug, Clone, Hash)]
pub struct BinaryData {
    pub bytes: Vec<u8>,
    pub start_address: usize,
}

/// One Data payload at its absolute address.
pub struct AbsWrite {
    pub start: int,
    pub data: Seq<u8>,
}

/// The Data payloads of a record stream at their absolute addresses.
/// A segment or linear address record replaces its base term, both bases
/// contribute additively, and an End Of File record halts interpretation.
pub open spec fn writes_from(rs: Seq<RecordView>, seg: int, lin: int) -> Seq<AbsWrite>
    decreases rs.len(),
{
    if rs.len() == 0 {
        Seq::empty()
    } else {
        match rs[0] {
            RecordView::Data { offset, value } => seq![
                AbsWrite { start: seg + lin + offset, data: value },
            ] + writes_from(rs.drop_first(), seg, lin),
            RecordView::EndOfFile => Seq::empty(),
            RecordView::ExtendedSegmentAddress(v) => writes_from(rs.drop_first(), 16 * v, lin),
            RecordView::ExtendedLinearAddress(v) => writes_from(rs.drop_first(), seg, 65536 * v),
            _ => writes_from(rs.drop_first(), seg, lin),
        }
    }
}

/// The absolute writes of a record stream, both bases starting at zero.
pub open spec fn writes(rs: Seq<RecordView>) -> Seq<AbsWrite> {
    writes_from(rs, 0, 0)
}

/// The smallest start address among the writes.
pub open spec fn min_start(ws: Seq<AbsWrite>) -> int
    recommends
        ws.len() > 0,
    decreases ws.len(),
{
    if ws.len() <= 1 {
        ws[0].start
    } else if ws.last().start < min_start(ws.drop_last()) {
        ws.last().start
    } else {
        min_start(ws.drop_last())
    }
}

/// The largest end address among the writes.
pub open spec fn max_end(ws: Seq<AbsWrite>) -> int
    recommends
        ws.len() > 0,
    decreases ws.len(),
{
    if ws.len() <= 1 {
        ws[0].start + ws[0].data.len()
    } else if ws.last().start + ws.last().data.len() > max_end(ws.drop_last()) {
        ws.last().start + ws.last().data.len()
    } else {
        max_end(ws.drop_last())
    }
}

/// The byte the writes leave at address `a`: the value of the last write
/// covering `a` — later writes prevail — or nothing.
pub open spec fn value_at(ws: Seq<AbsWrite>, a: int) -> Option<u8>
    decreases ws.len(),
{
    if ws.len() == 0 {
        None
    } else if ws.last().start <= a < ws.last().start + ws.last().data.len() {
        Some(ws.last().data[a - ws.last().start])
    } else {
        value_at(ws.drop_last(), a)
    }
}

/// The byte of the image at address `a`: the last write covering it, or the
/// fill byte.
pub open spec fn image_byte(ws: Seq<AbsWrite>, a: int) -> u8 {
    match value_at(ws, a) {
        Some(v) => v,
        None => FILL_BYTE,
    }
}

/// Every write of the sequence lies within the machine's address range.
pub open spec fn writes_fit(ws: Seq<AbsWrite>) -> bool {
    forall|k: int|
        0 <= k < ws.len() ==> (#[trigger] ws[k]).start >= 0 && ws[k].start + ws[k].data.len()
            <= usize::MAX
}

/// The span is never empty in the wrong direction.
pub proof fn lemma_min_le_max(ws: Seq<AbsWrite>)
    requires
        ws.len() > 0,
    ensures
        min_start(ws) <= max_end(ws),
    decreases ws.len(),
{
    if ws.len() > 1 {
        lemma_min_le_max(ws.drop_last());
    }
}

/// Every write lies inside the computed span.
pub proof fn lemma_write_in_span(ws: Seq<AbsWrite>, k: int)
    requires
        0 <= k < ws.len(),
    ensures
        min_start(ws) <= ws[k].start,
        ws[k].start + ws[k].data.len() <= max_end(ws),
    decreases ws.len(),
{
    if k < ws.len() - 1 {
        lemma_write_in_span(ws.drop_last(), k);
        assert(ws.drop_last()[k] == ws[k]);
    }
}

/// Computes the address span needed for a record stream: the smallest
/// absolute start and the largest absolute end of any Data record, or the
/// sentinel pair of extremes when there is none.
pub fn get_address_space(records: &[Record]) -> (r: (usize, usize))
    requires
        writes_fit(writes(record_views(records@))),
    ensures
        ({
            let ws = writes(record_views(records@));
            &&& ws.len() == 0 ==> r.0 == usize::MAX && r.1 == 0
            &&& ws.len() > 0 ==> r.0 == min_start(ws) && r.1 == max_end(ws)
        }),
{
    let ghost rs = record_views(records@);
    let ghost ws_all = writes(rs);
    let n = records.len();
    let mut i: usize = 0;
    let mut halted = false;
    let mut seg: usize = 0;
    let mut lin: usize = 0;
    let mut min_addr: usize = usize::MAX;
    let mut max_addr: usize = 0;
    let ghost mut ws_done: Seq<AbsWrite> = Seq::empty();
    proof {
        assert(rs.skip(0) =~= rs);
        assert(Seq::<AbsWrite>::empty() + writes_from(rs, 0, 0) =~= writes_from(rs, 0, 0));
    }
    while i < n && !halted
        invariant
            n == records@.len(),
            i <= n,
            rs == record_views(records@),
            ws_all == writes(rs),
            writes_fit(ws_all),
            ws_all == ws_done + (if halted {
                Seq::<AbsWrite>::empty()
            } else {
                writes_from(rs.skip(i as int), seg as int, lin as int)
            }),
            ws_done.len() == 0 ==> min_addr == usize::MAX && max_addr == 0,
            ws_done.len() > 0 ==> min_addr == min_start(ws_done) && max_addr == max_end(ws_done),
        decreases n - i,
    {
        proof {
            assert(rs.skip(i as int)[0] == rs[i as int]);
            assert(rs.skip(i as int).drop_first() =~= rs.skip(i + 1));
        }
        match slice_index_get(records, i) {
            Record::Data { offset, value } => {
                proof {
                    let w = AbsWrite {
                        start: seg + lin + (*offset as int),
                        data: value@,
                    };
                    assert(ws_all[ws_done.len() as int] == w);
                }
                let start = seg + lin + (*offset as usize);
                let end = start + value.len();
                proof {
                    let w = AbsWrite { start: start as int, data: value@ };
                    assert(ws_done.push(w).drop_last() =~= ws_done);
                    if ws_done.len() > 0 {
                        lemma_min_le_max(ws_done);
                    }
                    ws_done = ws_done.push(w);
                }
                if start < min_addr {
                    min_addr = start;
                }
                if end > max_addr {
                    max_addr = end;
                }
            },
            Record::EndOfFile => {
                halted = true;
            },
            Record::ExtendedSegmentAddress(v) => {
                seg = (*v as usize) * 16;
            },
            Record::ExtendedLinearAddress(v) => {
                lin = (*v as usize) * 65536;
            },
            _ => {},
        }
        i = i + 1;
    }
    proof {
        if !halted {
            assert(rs.skip(n as int) =~= Seq::<RecordView>::empty());
        }
        assert(ws_all == ws_done);
        if ws_done.len() > 0 {
            lemma_min_le_max(ws_done);
        }
    }
    (min_addr, max_addr)
}

/// Converts a record stream into its flat binary image. Bases accumulate
/// across segment and linear address records, interpretation halts at the
/// first End Of File record, bytes of the span no Data record covers hold
/// the fill byte, and overlapping Data records resolve last-write-wins.
/// A stream without Data records yields an empty image at address zero.
pub fn convert_to_bytes(records: &[Record]) -> (result: BinaryData)
    requires
        writes_fit(writes(record_views(records@))),
    ensures
        ({
            let ws = writes(record_views(records@));
            &&& ws.len() == 0 ==> result.bytes@.len() == 0 && result.start_address == 0
            &&& ws.len() > 0 ==> {
                &&& result.start_address == min_start(ws)
                &&& result.bytes@.len() == max_end(ws) - min_start(ws)
                &&& forall|k: int|
                    0 <= k < result.bytes@.len() ==> result.bytes@[k] == image_byte(
                        ws,
                        min_start(ws) + k,
                    )
            }
        }),
{
    let ghost rs = record_views(records@);
    let ghost ws_all = writes(rs);
    let (space_start, space_end) = get_address_space(records);
    if space_start == usize::MAX && space_end == 0 {
        proof {
            if ws_all.len() > 0 {
                lemma_min_le_max(ws_all);
            }
        }
        return BinaryData { bytes: Vec::new(), start_address: 0 };
    }
    assert(ws_all.len() > 0);
    let size = space_end - space_start;
    let mut buf: Vec<u8> = Vec::new();
    for k in 0..size
        invariant
            buf@.len() == k,
            forall|j: int| 0 <= j < k ==> buf@[j] == FILL_BYTE,
    {
        buf.push(FILL_BYTE);
    }
    let n = records.len();
    let mut i: usize = 0;
    let mut halted = false;
    let mut seg: usize = 0;
    let mut lin: usize = 0;
    let ghost mut ws_done: Seq<AbsWrite> = Seq::empty();
    proof {
        assert(rs.skip(0) =~= rs);
        assert(Seq::<AbsWrite>::empty() + writes_from(rs, 0, 0) =~= writes_from(rs, 0, 0));
    }
    while i < n && !halted
        invariant
            n == records@.len(),
            i <= n,
            rs == record_views(records@),
            ws_all == writes(rs),
            writes_fit(ws_all),
            ws_all.len() > 0,
            space_start == min_start(ws_all),
            space_end == max_end(ws_all),
            size == space_end - space_start,
            ws_all == ws_done + (if halted {
                Seq::<AbsWrite>::empty()
            } else {
                writes_from(rs.skip(i as int), seg as int, lin as int)
            }),
            buf@.len() == size,
            forall|k: int| 0 <= k < size ==> buf@[k] == image_byte(ws_done, space_start + k),
        decreases n - i,
    {
        proof {
            assert(rs.skip(i as int)[0] == rs[i as int]);
            assert(rs.skip(i as int).drop_first() =~= rs.skip(i + 1));
        }
        match slice_index_get(records, i) {
            Record::Data { offset, value } => {
                proof {
                    let w = AbsWrite {
                        start: seg + lin + (*offset as int),
                        data: value@,
                    };
                    assert(ws_all[ws_done.len() as int] == w);
                    lemma_write_in_span(ws_all, ws_done.len() as int);
                }
                let start = seg + lin + (*offset as usize);
                let bstart = start - space_start;
                let vlen = value.len();
                for j in 0..vlen
                    invariant
                        vlen == value@.len(),
                        buf@.len() == size,
                        bstart + vlen <= size,
                        forall|k: int|
                            0 <= k < size ==> buf@[k] == (if bstart <= k < bstart + j {
                                value@[k - bstart]
                            } else {
                                image_byte(ws_done, space_start + k)
                            }),
                {
                    buf[bstart + j] = value[j];
                }
                proof {
                    let w = AbsWrite { start: start as int, data: value@ };
                    assert(ws_done.push(w).drop_last() =~= ws_done);
                    ws_done = ws_done.push(w);
                    assert forall|k: int| 0 <= k < size implies buf@[k] == image_byte(
                        ws_done,
                        space_start + k,
                    ) by {
                        let a = space_start + k;
                        if w.start <= a < w.start + w.data.len() {
                            assert(buf@[k] == value@[a - w.start]);
                        }
                    }
                }
            },
            Record::EndOfFile => {
                halted = true;
            },
            Record::ExtendedSegmentAddress(v) => {
                seg = (*v as usize) * 16;
            },
            Record::ExtendedLinearAddress(v) => {
                lin = (*v as usize) * 65536;
            },
            _ => {},
        }
        i = i + 1;
    }
    proof {
        if !halted {
            assert(rs.skip(n as int) =~= Seq::<RecordView>::empty());
        }
        assert(ws_all == ws_done);
    }
    BinaryData { bytes: buf, start_address: space_start }
}

} // verus!
