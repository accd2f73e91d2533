//! Converts tabular contact records (names and birthdays) into an iCalendar
//! document with one yearly-recurring, alarm-bearing event per valid record.
//!
//! The pipeline has two stages: record extraction ([`table`]) turns delimited
//! tabular text into an ordered list of [`record::Record`] values, silently
//! dropping rows without a usable birthday; calendar emission ([`calendar`])
//! renders those records as iCalendar 2.0 text.

use vstd::prelude::*;

pub mod calendar;
pub mod date;
pub mod record;
pub mod table;
pub mod text;

use crate::calendar::{calendar_text, make_calendar, wf_uid};
use crate::table::{csv_header_of, csv_rows_of, lemma_records_wf, records_from_csv, records_of_rows};

verus! {

/// One whole run over one input: extract the records from the tabular bytes,
/// then render the calendar document for them under fresh random event
/// identifiers. Rows without a usable birthday are dropped silently; an
/// input with no surviving rows still yields the (empty) document.
pub fn document_from_csv(data: &[u8]) -> (out: String)
    ensures
        exists|uids: Seq<Seq<char>>|
            {
                &&& uids.len() == records_of_rows(csv_header_of(data@), csv_rows_of(data@)).len()
                &&& (forall|i: int| 0 <= i < uids.len() ==> wf_uid(#[trigger] uids[i]))
                &&& out@ == calendar_text(
                    records_of_rows(csv_header_of(data@), csv_rows_of(data@)),
                    uids,
                )
            },
{
    let records = records_from_csv(data);
    proof {
        lemma_records_wf(csv_header_of(data@), csv_rows_of(data@));
    }
    make_calendar(&records)
}

} // verus!
