//! The text of the exported results.

use vstd::prelude::*;
use crate::model;
use crate::model::{WinRecord, WinRecordView};
use crate::text;
use crate::text::push_joined;

verus! {

/// One line of the results: the prize, a colon, and its winners joined by commas.
pub open spec fn result_line(r: WinRecordView) -> Seq<char> {
    r.prize_name + ": "@ + text::join(r.winners, ", "@) + "\n"@
}

/// The lines of all records, in order.
pub open spec fn result_lines(records: Seq<WinRecordView>) -> Seq<char>
    decreases records.len(),
{
    if records.len() == 0 {
        seq![]
    } else {
        result_lines(records.drop_last()) + result_line(records.last())
    }
}

/// The exported text: a title line, an empty line, then one line per record.
pub open spec fn results_document(records: Seq<WinRecordView>) -> Seq<char> {
    "=== 抽奖结果 ===\n"@ + "\n"@ + result_lines(records)
}

/// The text that the export writes for `records`.
pub fn results_text(records: &Vec<WinRecord>) -> (s: String)
    ensures
        s@ == results_document(model::records_view(records@)),
{
    let ghost rs = model::records_view(records@);
    let mut s = String::from_str("=== 抽奖结果 ===\n");
    s.append("\n");
    let ghost head = s@;
    let mut i: usize = 0;
    assert(rs.take(0) =~= Seq::<WinRecordView>::empty());
    assert(s@ =~= head + result_lines(rs.take(0)));
    while i < records.len()
        invariant
            i <= records@.len(),
            rs == model::records_view(records@),
            head == "=== 抽奖结果 ===\n"@ + "\n"@,
            s@ == head + result_lines(rs.take(i as int)),
        decreases records@.len() - i,
    {
        let r = &records[i];
        assert(rs.take(i + 1).drop_last() =~= rs.take(i as int));
        assert(rs.take(i + 1).last() == r@);
        let ghost before = s@;
        s.append(r.prize_name.as_str());
        s.append(": ");
        push_joined(&mut s, &r.winners, ", ");
        s.append("\n");
        assert(s@ =~= before + result_line(r@));
        i = i + 1;
    }
    assert(rs.take(records@.len() as int) =~= rs);
    s
}

} // verus!
