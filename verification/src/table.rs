//! Record extraction: delimited tabular text (comma separated, first row the
//! header) goes in, the ordered list of surviving [`Record`]s comes out.
//!
//! Rows that cannot be read as a row of the table at all, and rows without a
//! parseable birthday, are dropped silently; the relative order of the
//! surviving rows is kept, and nothing is deduplicated or merged.

use vstd::prelude::*;

use crate::record::{record_of_row, row_record, wf_records, Record, RecordData};

verus! {

/// The header row the `csv` reader finds in the given bytes; the result
/// depends on the bytes alone.
pub uninterp spec fn csv_header_of(data: Seq<u8>) -> Seq<Seq<char>>;

/// The data rows the `csv` reader finds in the given bytes, in their input
/// order and without the rows it rejects; the result depends on the bytes
/// alone.
pub uninterp spec fn csv_rows_of(data: Seq<u8>) -> Seq<Seq<Seq<char>>>;

/// Relies on `csv::Reader` (`from_reader`, `headers`, `records` with the
/// default configuration): it splits the bytes into a header row and data
/// rows, dropping every row it rejects (wrong field count, bad encoding, and
/// the like). Parsing is deterministic in the input bytes.
#[verifier::external_body]
pub(crate) fn parse_table(data: &[u8]) -> (r: (Vec<String>, Vec<Vec<String>>))
    ensures
        r.0.deep_view() == csv_header_of(data@),
        r.1.deep_view() == csv_rows_of(data@),
{
    let mut rdr = csv::Reader::from_reader(data);
    let headers: Vec<String> = match rdr.headers() {
        Ok(h) => h.iter().map(|f| f.to_owned()).collect(),
        Err(_) => return (Vec::new(), Vec::new()),
    };
    let rows: Vec<Vec<String>> = rdr
        .records()
        .filter_map(|res| res.ok())
        .map(|rec| rec.iter().map(|f| f.to_owned()).collect())
        .collect();
    (headers, rows)
}

/// The records the surviving rows yield, in row order: exactly the rows with
/// a parseable birthday, each mapped by [`row_record`].
pub open spec fn records_of_rows(
    header: Seq<Seq<char>>,
    rows: Seq<Seq<Seq<char>>>,
) -> Seq<RecordData>
    decreases rows.len(),
{
    if rows.len() == 0 {
        Seq::empty()
    } else {
        records_of_rows(header, rows.drop_last()) + match row_record(header, rows.last()) {
            Some(r) => seq![r],
            None => Seq::empty(),
        }
    }
}

/// Every record the extraction stage yields carries a real calendar date:
/// rows are dropped, never defaulted, so the collection's invariant holds of
/// whatever survives.
pub proof fn lemma_records_wf(header: Seq<Seq<char>>, rows: Seq<Seq<Seq<char>>>)
    ensures
        wf_records(records_of_rows(header, rows)),
    decreases rows.len(),
{
    if rows.len() > 0 {
        lemma_records_wf(header, rows.drop_last());
        let prev = records_of_rows(header, rows.drop_last());
        let cur = records_of_rows(header, rows);
        let ro = row_record(header, rows.last());
        if ro is Some {
            let r = ro.unwrap();
            assert(r.birthday.wf());
            assert(cur =~= prev.push(r));
            assert forall|i: int| 0 <= i < cur.len() implies (#[trigger] cur[i]).birthday.wf() by {
                if i < prev.len() {
                    assert(prev[i].birthday.wf());
                }
            }
        } else {
            assert(cur =~= prev);
        }
    }
}

/// Law: one more input row either appends exactly its own record or leaves
/// the output untouched — a row without a usable birthday is absent from the
/// output, and never disturbs the records of the other rows.
pub proof fn lemma_row_independence(
    header: Seq<Seq<char>>,
    rows: Seq<Seq<Seq<char>>>,
    row: Seq<Seq<char>>,
)
    ensures
        row_record(header, row) is Some ==> records_of_rows(header, rows.push(row))
            == records_of_rows(header, rows).push(row_record(header, row).unwrap()),
        row_record(header, row) is None ==> records_of_rows(header, rows.push(row))
            == records_of_rows(header, rows),
{
    assert(rows.push(row).drop_last() =~= rows);
    assert(rows.push(row).last() == row);
    let prev = records_of_rows(header, rows);
    if row_record(header, row) is Some {
        assert(prev + seq![row_record(header, row).unwrap()] =~= prev.push(
            row_record(header, row).unwrap(),
        ));
    } else {
        assert(prev + Seq::<RecordData>::empty() =~= prev);
    }
}

/// Maps every row against the header, keeping exactly the rows that yield a
/// record and their relative order.
pub fn extract_records(header: &Vec<String>, rows: &Vec<Vec<String>>) -> (out: Vec<Record>)
    ensures
        out.deep_view() == records_of_rows(header.deep_view(), rows.deep_view()),
{
    let ghost h = header.deep_view();
    let ghost all = rows.deep_view();
    let mut out: Vec<Record> = Vec::new();
    let mut i: usize = 0;
    while i < rows.len()
        invariant
            i <= rows@.len(),
            h == header.deep_view(),
            all == rows.deep_view(),
            out.deep_view() == records_of_rows(h, all.subrange(0, i as int)),
        decreases rows@.len() - i,
    {
        let ghost before = out.deep_view();
        let rec = record_of_row(header, &rows[i]);
        proof {
            assert(rows.deep_view()[i as int] == rows@[i as int].deep_view());
        }
        match rec {
            Some(r) => {
                out.push(r);
                proof {
                    assert(out.deep_view() =~= before.push(r.deep_view()));
                }
            },
            None => {},
        }
        proof {
            let prefix = all.subrange(0, i + 1);
            assert(prefix.drop_last() =~= all.subrange(0, i as int));
            assert(prefix.last() == all[i as int]);
            assert(out.deep_view() =~= records_of_rows(h, prefix));
        }
        i = i + 1;
    }
    proof {
        assert(all.subrange(0, rows@.len() as int) =~= all);
    }
    out
}

/// The whole extraction stage: the tabular bytes go in, the ordered record
/// list comes out, rows without a usable birthday silently dropped.
pub fn records_from_csv(data: &[u8]) -> (out: Vec<Record>)
    ensures
        out.deep_view() == records_of_rows(csv_header_of(data@), csv_rows_of(data@)),
{
    let (header, rows) = parse_table(data);
    extract_records(&header, &rows)
}

} // verus!
