//! The validated in-memory representation of one person, and the rule that
//! turns one tabular row into such a record (or drops it).
//!
//! A row is read against its header: the `First Name` and `Last Name` columns
//! are optional and default to empty text, the `Birthday` column is
//! mandatory. A row whose birthday is missing or unparseable yields no
//! record. Column names are matched exactly; when a name occurs twice, the
//! rightmost column wins, as it does when the columns are collected into a
//! name-keyed mapping.

use vstd::prelude::*;

use crate::date::{
    chrono_date_of, date_from_parts, date_of_parts, iso_ymd, parse_ymd, valid_ymd, Date,
};
use crate::text::{normalize_birthday, normalize_spec, trim, trim_spec};

verus! {

/// One person: a display name and a birthday.
///
/// The name is `trim(first + " " + last)`; it may be empty when both name
/// fields are absent. The birthday is always a real calendar date.
#[derive(Debug)]
pub struct Record {
    pub name: String,
    pub birthday: Date,
}

/// The mathematical image of a [`Record`].
pub struct RecordData {
    pub name: Seq<char>,
    pub birthday: Date,
}

impl View for Record {
    type V = RecordData;

    open spec fn view(&self) -> RecordData {
        RecordData { name: self.name@, birthday: self.birthday }
    }
}

impl DeepView for Record {
    type V = RecordData;

    open spec fn deep_view(&self) -> RecordData {
        self.view()
    }
}

/// Validity of a record collection: every birthday is a real calendar date.
pub open spec fn wf_records(rs: Seq<RecordData>) -> bool {
    forall|i: int| 0 <= i < rs.len() ==> (#[trigger] rs[i]).birthday.wf()
}

pub open spec fn first_name_label() -> Seq<char> {
    "First Name"@
}

pub open spec fn last_name_label() -> Seq<char> {
    "Last Name"@
}

pub open spec fn birthday_label() -> Seq<char> {
    "Birthday"@
}

/// The index of the rightmost column whose name equals `name`, or `-1` when
/// no column has that name.
pub open spec fn find_last(header: Seq<Seq<char>>, name: Seq<char>) -> int
    decreases header.len(),
{
    if header.len() == 0 {
        -1
    } else if header.last() == name {
        header.len() - 1
    } else {
        find_last(header.drop_last(), name)
    }
}

/// The cell of `row` under the column named `label`, or empty text when the
/// header has no such column.
pub open spec fn field_or_empty(
    header: Seq<Seq<char>>,
    row: Seq<Seq<char>>,
    label: Seq<char>,
) -> Seq<char> {
    let i = find_last(header, label);
    if 0 <= i < row.len() {
        row[i]
    } else {
        Seq::empty()
    }
}

/// The date a raw birthday cell denotes: the year-placeholder substitution
/// followed by the date parse, kept only when the 4-digit-year range fits.
pub open spec fn birthday_of(raw: Seq<char>) -> Option<Date> {
    match chrono_date_of(normalize_spec(raw)) {
        Some(t) => date_of_parts(t.0, t.1, t.2),
        None => None,
    }
}

/// The display name built from the two name cells: the separator is inserted
/// unconditionally and the trim absorbs it when either side is empty.
pub open spec fn full_name(first: Seq<char>, last: Seq<char>) -> Seq<char> {
    trim_spec(first + seq![' '] + last)
}

/// What one row yields: a record exactly when the header names a `Birthday`
/// column that the row covers and its cell parses to a date.
pub open spec fn row_record(header: Seq<Seq<char>>, row: Seq<Seq<char>>) -> Option<RecordData> {
    let bi = find_last(header, birthday_label());
    if 0 <= bi < row.len() {
        match birthday_of(row[bi]) {
            Some(date) => Some(
                RecordData {
                    name: full_name(
                        field_or_empty(header, row, first_name_label()),
                        field_or_empty(header, row, last_name_label()),
                    ),
                    birthday: date,
                },
            ),
            None => None,
        }
    } else {
        None
    }
}

fn find_last_exec(header: &Vec<String>, name: &String) -> (r: Option<usize>)
    ensures
        r matches Some(i) ==> i < header@.len() && find_last(header.deep_view(), name@) == i as int,
        r is None ==> find_last(header.deep_view(), name@) == -1,
{
    let ghost full = header.deep_view();
    let mut k: usize = header.len();
    proof {
        assert(full.subrange(0, k as int) =~= full);
    }
    while k > 0
        invariant
            k <= header@.len(),
            full == header.deep_view(),
            find_last(full, name@) == find_last(full.subrange(0, k as int), name@),
        decreases k,
    {
        let ghost prefix = full.subrange(0, k as int);
        if header[k - 1] == *name {
            proof {
                assert(prefix.last() == full[k - 1]);
                assert(full[k - 1] == header@[k - 1]@);
            }
            return Some(k - 1);
        }
        proof {
            assert(prefix.last() == full[k - 1]);
            assert(full[k - 1] == header@[k - 1]@);
            assert(prefix.drop_last() =~= full.subrange(0, k - 1));
        }
        k = k - 1;
    }
    proof {
        assert(full.subrange(0, 0) =~= Seq::<Seq<char>>::empty());
    }
    None
}

fn field_or_empty_exec(header: &Vec<String>, row: &Vec<String>, label: &String) -> (r: String)
    ensures
        r@ == field_or_empty(header.deep_view(), row.deep_view(), label@),
{
    match find_last_exec(header, label) {
        Some(i) => {
            if i < row.len() {
                proof {
                    assert(row.deep_view()[i as int] == row@[i as int]@);
                }
                row[i].clone()
            } else {
                String::new()
            }
        },
        None => String::new(),
    }
}

/// Reads one row against the header: a record comes back exactly when the
/// row has a parseable birthday; the other rows are dropped, never defaulted.
///
/// On top of the exact result, the contract states the owed success on its
/// own: a row whose (normalized) birthday cell is a strict `YYYY-MM-DD`
/// spelling of a real date always yields a record carrying exactly that date.
pub fn record_of_row(header: &Vec<String>, row: &Vec<String>) -> (r: Option<Record>)
    ensures
        r.deep_view() == row_record(header.deep_view(), row.deep_view()),
        r matches Some(rec) ==> rec.birthday.wf(),
        ({
            let h = header.deep_view();
            let rw = row.deep_view();
            let bi = find_last(h, birthday_label());
            0 <= bi < rw.len() ==> (iso_ymd(normalize_spec(rw[bi])) matches Some(t) ==> (valid_ymd(
                t.0,
                t.1,
                t.2,
            ) ==> r is Some && r.unwrap().birthday == (Date {
                year: t.0 as u16,
                month: t.1 as u8,
                day: t.2 as u8,
            })))
        }),
{
    let blabel = String::from_str("Birthday");
    let bio = find_last_exec(header, &blabel);
    let bi = match bio {
        Some(bi) => bi,
        None => {
            return None;
        },
    };
    if bi >= row.len() {
        return None;
    }
    proof {
        assert(row.deep_view()[bi as int] == row@[bi as int]@);
    }
    let normalized = normalize_birthday(row[bi].as_str());
    let parsed = parse_ymd(normalized.as_str());
    let (y, m, d) = match parsed {
        Some(t) => t,
        None => {
            return None;
        },
    };
    let date = match date_from_parts(y, m, d) {
        Some(date) => date,
        None => {
            return None;
        },
    };
    let flabel = String::from_str("First Name");
    let llabel = String::from_str("Last Name");
    let first = field_or_empty_exec(header, row, &flabel);
    let last = field_or_empty_exec(header, row, &llabel);
    proof {
        reveal_strlit(" ");
    }
    let mut joined = first;
    joined.append(" ");
    joined.append(last.as_str());
    let name = trim(joined.as_str());
    proof {
        assert(joined@ =~= field_or_empty(header.deep_view(), row.deep_view(), first_name_label())
            + seq![' '] + field_or_empty(header.deep_view(), row.deep_view(), last_name_label()));
    }
    Some(Record { name, birthday: date })
}

} // verus!
