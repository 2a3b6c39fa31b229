use crate::hex::{digit, hex_digits};
use crate::index::FileRecord;
use vstd::prelude::*;

verus! {

/// Decimal rendering of a natural number, most significant digit first.
pub open spec fn decimal_of(n: nat) -> Seq<char>
    decreases n,
{
    if n < 10 {
        seq![hex_digits()[n as int]]
    } else {
        decimal_of(n / 10) + seq![hex_digits()[(n % 10) as int]]
    }
}

/// The capture time as shown in a report; `unknown` where there is none.
pub open spec fn shown_time(t: Option<Seq<char>>) -> Seq<char> {
    match t {
        Some(s) => s,
        None => "unknown"@,
    }
}

/// One report row: `<position>. <path>: <digest>, <capture time>`.
pub open spec fn report_line_of(position: nat, path: Seq<char>, digest: Seq<char>, time: Option<Seq<char>>) -> Seq<char> {
    decimal_of(position) + ". "@ + path + ": "@ + digest + ", "@ + shown_time(time)
}

pub open spec fn record_time(r: FileRecord) -> Option<Seq<char>> {
    match r.captured_at {
        Some(s) => Some(s@),
        None => None,
    }
}

pub fn decimal(n: usize) -> (r: String)
    ensures
        r@ == decimal_of(n as nat),
    decreases n,
{
    if n < 10 {
        let mut s = String::new();
        s.append(digit(n as u8));
        assert(s@ =~= decimal_of(n as nat));
        s
    } else {
        let mut s = decimal(n / 10);
        s.append(digit((n % 10) as u8));
        s
    }
}

/// The row for the record at a 1-based position.
pub fn report_line(position: usize, rec: &FileRecord) -> (r: String)
    ensures
        r@ == report_line_of(position as nat, rec.path@, rec.digest@, record_time(*rec)),
{
    let mut s = decimal(position);
    s.append(". ");
    s.append(rec.path.as_str());
    s.append(": ");
    s.append(rec.digest.as_str());
    s.append(", ");
    match &rec.captured_at {
        Some(t) => s.append(t.as_str()),
        None => s.append("unknown"),
    }
    s
}

/// The import report: one row per record, numbered from 1 in list order.
pub fn report(records: &Vec<FileRecord>) -> (r: Vec<String>)
    requires
        records.len() < usize::MAX,
    ensures
        r@.len() == records@.len(),
        forall|i: int| 0 <= i < r@.len() ==> (#[trigger] r@[i])@ == report_line_of(
            (i + 1) as nat,
            records@[i].path@,
            records@[i].digest@,
            record_time(records@[i]),
        ),
{
    let mut r: Vec<String> = Vec::new();
    let mut i: usize = 0;
    while i < records.len()
        invariant
            i <= records.len(),
            records.len() < usize::MAX,
            r@.len() == i,
            forall|k: int| 0 <= k < i ==> (#[trigger] r@[k])@ == report_line_of(
                (k + 1) as nat,
                records@[k].path@,
                records@[k].digest@,
                record_time(records@[k]),
            ),
        decreases records.len() - i,
    {
        let line = report_line(i + 1, &records[i]);
        r.push(line);
        i = i + 1;
    }
    r
}

} // verus!
