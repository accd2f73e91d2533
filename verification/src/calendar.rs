//! Calendar emission: one yearly-recurring, alarm-bearing event per record,
//! rendered as iCalendar 2.0 text.
//!
//! The document is a sequence of content lines, each closed by CRLF:
//! a `BEGIN:VCALENDAR` / `VERSION:2.0` / `PRODID:ics-rs` frame, one
//! `BEGIN:VEVENT` … `END:VEVENT` block per record (`UID`, `DTSTART` as the
//! 8-digit date, `SUMMARY`, `RRULE:FREQ=YEARLY`, and one `BEGIN:VALARM` …
//! `END:VALARM` block with `ACTION:AUDIO` and `TRIGGER;RELATED=END:PT8H`),
//! and a closing `END:VCALENDAR`.

use vstd::prelude::*;

use crate::date::{is_digit, stamp_spec, Date};
use crate::record::{wf_records, Record, RecordData};

verus! {

pub open spec fn is_uid_char(c: char) -> bool {
    c == '-' || ('0' <= c && c <= '9') || ('a' <= c && c <= 'f')
}

/// The shape of a generated event identifier: 36 characters of lowercase hex
/// and hyphens.
pub open spec fn wf_uid(s: Seq<char>) -> bool {
    s.len() == 36 && (forall|i: int| 0 <= i < s.len() ==> is_uid_char(#[trigger] s[i]))
}

/// Relies on `uuid::Uuid::new_v4` and the `Display` impl of `Uuid`: a fresh
/// random identifier in the 36-character lowercase hyphenated spelling.
/// Nothing is promised about which value comes back: the identifier is
/// random, and two calls may return anything of that shape.
#[verifier::external_body]
pub(crate) fn fresh_uid() -> (r: String)
    ensures
        wf_uid(r@),
{
    uuid::Uuid::new_v4().to_string()
}

pub open spec fn crlf() -> Seq<char> {
    seq!['\r', '\n']
}

/// The text of a sequence of content lines: each line followed by CRLF.
pub open spec fn flat_lines(ls: Seq<Seq<char>>) -> Seq<char>
    decreases ls.len(),
{
    if ls.len() == 0 {
        Seq::empty()
    } else {
        flat_lines(ls.drop_last()) + ls.last() + crlf()
    }
}

pub open spec fn uid_line(uid: Seq<char>) -> Seq<char> {
    "UID:"@ + uid
}

pub open spec fn dtstart_line(d: Date) -> Seq<char> {
    "DTSTART:"@ + stamp_spec(d)
}

pub open spec fn summary_line(name: Seq<char>) -> Seq<char> {
    "SUMMARY:Geburtstag "@ + name
}

/// The ten content lines of one event: the record's birthday as the start
/// date, the templated summary, the yearly recurrence, and the end-anchored
/// audio alarm firing 8 hours after the event's end.
pub open spec fn event_lines(r: RecordData, uid: Seq<char>) -> Seq<Seq<char>> {
    seq![
        "BEGIN:VEVENT"@,
        uid_line(uid),
        dtstart_line(r.birthday),
        summary_line(r.name),
        "RRULE:FREQ=YEARLY"@,
        "BEGIN:VALARM"@,
        "ACTION:AUDIO"@,
        "TRIGGER;RELATED=END:PT8H"@,
        "END:VALARM"@,
        "END:VEVENT"@,
    ]
}

/// The event blocks of all records, in record order.
pub open spec fn events_lines(rs: Seq<RecordData>, uids: Seq<Seq<char>>) -> Seq<Seq<char>>
    decreases rs.len(),
{
    if rs.len() == 0 {
        Seq::empty()
    } else {
        events_lines(rs.drop_last(), uids.drop_last()) + event_lines(rs.last(), uids.last())
    }
}

pub open spec fn calendar_head() -> Seq<Seq<char>> {
    seq!["BEGIN:VCALENDAR"@, "VERSION:2.0"@, "PRODID:ics-rs"@]
}

/// All content lines of the document.
pub open spec fn calendar_lines(rs: Seq<RecordData>, uids: Seq<Seq<char>>) -> Seq<Seq<char>> {
    calendar_head() + events_lines(rs, uids) + seq!["END:VCALENDAR"@]
}

/// The full document text.
pub open spec fn calendar_text(rs: Seq<RecordData>, uids: Seq<Seq<char>>) -> Seq<char> {
    flat_lines(calendar_lines(rs, uids))
}

fn append_line(out: &mut String, line: &str)
    ensures
        final(out)@ == old(out)@ + line@ + crlf(),
{
    out.append(line);
    out.append("\r\n");
    proof {
        reveal_strlit("\r\n");
        assert(out@ =~= old(out)@ + line@ + crlf());
    }
}

proof fn lemma_flat_push_text(base: Seq<char>, prev: Seq<Seq<char>>, x: Seq<char>)
    ensures
        base + flat_lines(prev.push(x)) == (base + flat_lines(prev)) + x + crlf(),
{
    assert(prev.push(x).drop_last() =~= prev);
    assert(base + (flat_lines(prev) + x + crlf()) =~= (base + flat_lines(prev)) + x + crlf());
}

fn render_event(out: &mut String, rec: &Record, uid: &String)
    requires
        rec.birthday.wf(),
    ensures
        final(out)@ == old(out)@ + flat_lines(event_lines(rec@, uid@)),
{
    let ghost base = out@;
    let ghost mut done: Seq<Seq<char>> = Seq::empty();
    proof {
        assert(base + flat_lines(done) =~= base);
    }
    append_line(out, "BEGIN:VEVENT");
    proof {
        lemma_flat_push_text(base, done, "BEGIN:VEVENT"@);
        done = done.push("BEGIN:VEVENT"@);
    }
    let mut uline = String::from_str("UID:");
    uline.append(uid.as_str());
    append_line(out, uline.as_str());
    proof {
        lemma_flat_push_text(base, done, uid_line(uid@));
        done = done.push(uid_line(uid@));
    }
    let mut dline = String::from_str("DTSTART:");
    let stamp = rec.birthday.stamp();
    dline.append(stamp.as_str());
    append_line(out, dline.as_str());
    proof {
        lemma_flat_push_text(base, done, dtstart_line(rec.birthday));
        done = done.push(dtstart_line(rec.birthday));
    }
    let mut sline = String::from_str("SUMMARY:Geburtstag ");
    sline.append(rec.name.as_str());
    append_line(out, sline.as_str());
    proof {
        lemma_flat_push_text(base, done, summary_line(rec.name@));
        done = done.push(summary_line(rec.name@));
    }
    append_line(out, "RRULE:FREQ=YEARLY");
    proof {
        lemma_flat_push_text(base, done, "RRULE:FREQ=YEARLY"@);
        done = done.push("RRULE:FREQ=YEARLY"@);
    }
    append_line(out, "BEGIN:VALARM");
    proof {
        lemma_flat_push_text(base, done, "BEGIN:VALARM"@);
        done = done.push("BEGIN:VALARM"@);
    }
    append_line(out, "ACTION:AUDIO");
    proof {
        lemma_flat_push_text(base, done, "ACTION:AUDIO"@);
        done = done.push("ACTION:AUDIO"@);
    }
    append_line(out, "TRIGGER;RELATED=END:PT8H");
    proof {
        lemma_flat_push_text(base, done, "TRIGGER;RELATED=END:PT8H"@);
        done = done.push("TRIGGER;RELATED=END:PT8H"@);
    }
    append_line(out, "END:VALARM");
    proof {
        lemma_flat_push_text(base, done, "END:VALARM"@);
        done = done.push("END:VALARM"@);
    }
    append_line(out, "END:VEVENT");
    proof {
        lemma_flat_push_text(base, done, "END:VEVENT"@);
        done = done.push("END:VEVENT"@);
        assert(out@ == base + flat_lines(done));
        assert(done =~= event_lines(rec@, uid@));
    }
}

/// Renders the whole document for the given records under the given event
/// identifiers, one event per record, in record order.
pub fn render_calendar(records: &Vec<Record>, uids: &Vec<String>) -> (out: String)
    requires
        uids@.len() == records@.len(),
        wf_records(records.deep_view()),
    ensures
        out@ == calendar_text(records.deep_view(), uids.deep_view()),
{
    let ghost rs = records.deep_view();
    let ghost us = uids.deep_view();
    let mut out = String::new();
    let ghost base = out@;
    let ghost mut done: Seq<Seq<char>> = Seq::empty();
    proof {
        assert(base + flat_lines(done) =~= base);
    }
    append_line(&mut out, "BEGIN:VCALENDAR");
    proof {
        lemma_flat_push_text(base, done, "BEGIN:VCALENDAR"@);
        done = done.push("BEGIN:VCALENDAR"@);
    }
    append_line(&mut out, "VERSION:2.0");
    proof {
        lemma_flat_push_text(base, done, "VERSION:2.0"@);
        done = done.push("VERSION:2.0"@);
    }
    append_line(&mut out, "PRODID:ics-rs");
    proof {
        lemma_flat_push_text(base, done, "PRODID:ics-rs"@);
        done = done.push("PRODID:ics-rs"@);
        assert(done =~= calendar_head());
        assert(events_lines(rs.subrange(0, 0), us.subrange(0, 0)) =~= Seq::<Seq<char>>::empty());
        assert(calendar_head() + events_lines(rs.subrange(0, 0), us.subrange(0, 0))
            =~= calendar_head());
    }
    let mut i: usize = 0;
    while i < records.len()
        invariant
            i <= records@.len(),
            uids@.len() == records@.len(),
            rs == records.deep_view(),
            us == uids.deep_view(),
            wf_records(rs),
            base.len() == 0,
            out@ == base + flat_lines(
                calendar_head() + events_lines(rs.subrange(0, i as int), us.subrange(0, i as int)),
            ),
        decreases records@.len() - i,
    {
        proof {
            assert(rs[i as int] == records@[i as int]@);
            assert(us[i as int] == uids@[i as int]@);
        }
        render_event(&mut out, &records[i], &uids[i]);
        proof {
            let rp = rs.subrange(0, i + 1);
            let up = us.subrange(0, i + 1);
            assert(rp.drop_last() =~= rs.subrange(0, i as int));
            assert(up.drop_last() =~= us.subrange(0, i as int));
            let prev_lines = calendar_head() + events_lines(
                rs.subrange(0, i as int),
                us.subrange(0, i as int),
            );
            let block = event_lines(rs[i as int], us[i as int]);
            lemma_flat_lines_concat(prev_lines, block);
            assert(calendar_head() + events_lines(rp, up) =~= prev_lines + block);
            assert(base + (flat_lines(prev_lines) + flat_lines(block)) =~= (base + flat_lines(
                prev_lines,
            )) + flat_lines(block));
        }
        i = i + 1;
    }
    proof {
        assert(rs.subrange(0, records@.len() as int) =~= rs);
        assert(us.subrange(0, records@.len() as int) =~= us);
    }
    append_line(&mut out, "END:VCALENDAR");
    proof {
        let body = calendar_head() + events_lines(rs, us);
        lemma_flat_push_text(base, body, "END:VCALENDAR"@);
        assert(body.push("END:VCALENDAR"@) =~= calendar_lines(rs, us));
        assert(out@ =~= calendar_text(rs, us));
    }
    out
}

/// Builds the whole calendar document: one event per record, in record
/// order, each under a fresh random identifier.
pub fn make_calendar(records: &Vec<Record>) -> (out: String)
    requires
        wf_records(records.deep_view()),
    ensures
        exists|uids: Seq<Seq<char>>|
            {
                &&& uids.len() == records@.len()
                &&& (forall|i: int| 0 <= i < uids.len() ==> wf_uid(#[trigger] uids[i]))
                &&& out@ == calendar_text(records.deep_view(), uids)
            },
{
    let mut uids: Vec<String> = Vec::new();
    let mut i: usize = 0;
    while i < records.len()
        invariant
            uids@.len() == i <= records@.len(),
            forall|j: int| 0 <= j < i ==> wf_uid(#[trigger] uids.deep_view()[j]),
        decreases records@.len() - i,
    {
        let ghost before = uids.deep_view();
        let uid = fresh_uid();
        uids.push(uid);
        proof {
            assert(uids.deep_view() =~= before.push(uid@));
        }
        i = i + 1;
    }
    let out = render_calendar(records, &uids);
    proof {
        let witness = uids.deep_view();
        assert(witness.len() == records@.len());
        assert(out@ == calendar_text(records.deep_view(), witness));
    }
    out
}

/// Counts the content lines equal to the given line.
pub open spec fn count_lines_eq(ls: Seq<Seq<char>>, t: Seq<char>) -> nat
    decreases ls.len(),
{
    if ls.len() == 0 {
        0
    } else {
        count_lines_eq(ls.drop_last(), t) + (if ls.last() == t {
            1nat
        } else {
            0nat
        })
    }
}

proof fn lemma_flat_lines_concat(a: Seq<Seq<char>>, b: Seq<Seq<char>>)
    ensures
        flat_lines(a + b) == flat_lines(a) + flat_lines(b),
    decreases b.len(),
{
    if b.len() == 0 {
        assert(a + b =~= a);
        assert(flat_lines(a) + flat_lines(b) =~= flat_lines(a));
    } else {
        lemma_flat_lines_concat(a, b.drop_last());
        assert((a + b).drop_last() =~= a + b.drop_last());
        assert((a + b).last() == b.last());
        assert(flat_lines(a) + (flat_lines(b.drop_last()) + b.last() + crlf()) =~= (flat_lines(a)
            + flat_lines(b.drop_last())) + b.last() + crlf());
    }
}

proof fn lemma_count_lines_concat(a: Seq<Seq<char>>, b: Seq<Seq<char>>, t: Seq<char>)
    ensures
        count_lines_eq(a + b, t) == count_lines_eq(a, t) + count_lines_eq(b, t),
    decreases b.len(),
{
    if b.len() == 0 {
        assert(a + b =~= a);
    } else {
        lemma_count_lines_concat(a, b.drop_last(), t);
        assert((a + b).drop_last() =~= a + b.drop_last());
        assert((a + b).last() == b.last());
    }
}

proof fn lemma_event_lines_count(r: RecordData, uid: Seq<char>)
    ensures
        count_lines_eq(event_lines(r, uid), "BEGIN:VEVENT"@) == 1,
        count_lines_eq(event_lines(r, uid), "BEGIN:VALARM"@) == 1,
{
    reveal_strlit("BEGIN:VEVENT");
    reveal_strlit("UID:");
    reveal_strlit("DTSTART:");
    reveal_strlit("SUMMARY:Geburtstag ");
    reveal_strlit("RRULE:FREQ=YEARLY");
    reveal_strlit("BEGIN:VALARM");
    reveal_strlit("ACTION:AUDIO");
    reveal_strlit("TRIGGER;RELATED=END:PT8H");
    reveal_strlit("END:VALARM");
    reveal_strlit("END:VEVENT");
    let ev = "BEGIN:VEVENT"@;
    let al = "BEGIN:VALARM"@;
    assert(ev.len() == 12 && al.len() == 12 && ev[7] == 'E' && al[7] == 'A');
    assert(ev != al);
    assert(uid_line(uid)[0] == 'U' && ev[0] == 'B' && al[0] == 'B');
    assert(dtstart_line(r.birthday)[0] == 'D');
    assert(summary_line(r.name)[0] == 'S');
    assert(uid_line(uid) != ev && uid_line(uid) != al);
    assert(dtstart_line(r.birthday) != ev && dtstart_line(r.birthday) != al);
    assert(summary_line(r.name) != ev && summary_line(r.name) != al);
    assert("RRULE:FREQ=YEARLY"@.len() == 17);
    assert("RRULE:FREQ=YEARLY"@ != ev && "RRULE:FREQ=YEARLY"@ != al);
    assert("ACTION:AUDIO"@[0] == 'A');
    assert("ACTION:AUDIO"@ != ev && "ACTION:AUDIO"@ != al);
    assert("TRIGGER;RELATED=END:PT8H"@.len() == 24);
    assert("TRIGGER;RELATED=END:PT8H"@ != ev && "TRIGGER;RELATED=END:PT8H"@ != al);
    assert("END:VALARM"@.len() == 10);
    assert("END:VALARM"@ != ev && "END:VALARM"@ != al);
    assert("END:VEVENT"@.len() == 10);
    assert("END:VEVENT"@ != ev && "END:VEVENT"@ != al);
    let l0 = Seq::<Seq<char>>::empty();
    let l1 = l0.push(ev);
    let l2 = l1.push(uid_line(uid));
    let l3 = l2.push(dtstart_line(r.birthday));
    let l4 = l3.push(summary_line(r.name));
    let l5 = l4.push("RRULE:FREQ=YEARLY"@);
    let l6 = l5.push(al);
    let l7 = l6.push("ACTION:AUDIO"@);
    let l8 = l7.push("TRIGGER;RELATED=END:PT8H"@);
    let l9 = l8.push("END:VALARM"@);
    let l10 = l9.push("END:VEVENT"@);
    assert(l1.drop_last() =~= l0);
    assert(l2.drop_last() =~= l1);
    assert(l3.drop_last() =~= l2);
    assert(l4.drop_last() =~= l3);
    assert(l5.drop_last() =~= l4);
    assert(l6.drop_last() =~= l5);
    assert(l7.drop_last() =~= l6);
    assert(l8.drop_last() =~= l7);
    assert(l9.drop_last() =~= l8);
    assert(l10.drop_last() =~= l9);
    assert(count_lines_eq(l0, ev) == 0 && count_lines_eq(l0, al) == 0);
    assert(count_lines_eq(l1, ev) == 1 && count_lines_eq(l1, al) == 0);
    assert(count_lines_eq(l2, ev) == 1 && count_lines_eq(l2, al) == 0);
    assert(count_lines_eq(l3, ev) == 1 && count_lines_eq(l3, al) == 0);
    assert(count_lines_eq(l4, ev) == 1 && count_lines_eq(l4, al) == 0);
    assert(count_lines_eq(l5, ev) == 1 && count_lines_eq(l5, al) == 0);
    assert(count_lines_eq(l6, ev) == 1 && count_lines_eq(l6, al) == 1);
    assert(count_lines_eq(l7, ev) == 1 && count_lines_eq(l7, al) == 1);
    assert(count_lines_eq(l8, ev) == 1 && count_lines_eq(l8, al) == 1);
    assert(count_lines_eq(l9, ev) == 1 && count_lines_eq(l9, al) == 1);
    assert(count_lines_eq(l10, ev) == 1 && count_lines_eq(l10, al) == 1);
    assert(event_lines(r, uid) =~= l10);
}

proof fn lemma_events_lines_count(rs: Seq<RecordData>, uids: Seq<Seq<char>>)
    requires
        uids.len() == rs.len(),
    ensures
        count_lines_eq(events_lines(rs, uids), "BEGIN:VEVENT"@) == rs.len(),
        count_lines_eq(events_lines(rs, uids), "BEGIN:VALARM"@) == rs.len(),
    decreases rs.len(),
{
    if rs.len() > 0 {
        lemma_events_lines_count(rs.drop_last(), uids.drop_last());
        lemma_event_lines_count(rs.last(), uids.last());
        lemma_count_lines_concat(
            events_lines(rs.drop_last(), uids.drop_last()),
            event_lines(rs.last(), uids.last()),
            "BEGIN:VEVENT"@,
        );
        lemma_count_lines_concat(
            events_lines(rs.drop_last(), uids.drop_last()),
            event_lines(rs.last(), uids.last()),
            "BEGIN:VALARM"@,
        );
    }
}

/// Law: the document holds exactly one `BEGIN:VEVENT` content line and
/// exactly one `BEGIN:VALARM` content line per record, whatever the records
/// and identifiers are — reading the text back line by line finds as many
/// event blocks as surviving records, each opening its one alarm block.
pub proof fn lemma_calendar_block_count(rs: Seq<RecordData>, uids: Seq<Seq<char>>)
    requires
        uids.len() == rs.len(),
    ensures
        count_lines_eq(calendar_lines(rs, uids), "BEGIN:VEVENT"@) == rs.len(),
        count_lines_eq(calendar_lines(rs, uids), "BEGIN:VALARM"@) == rs.len(),
{
    reveal_strlit("BEGIN:VCALENDAR");
    reveal_strlit("VERSION:2.0");
    reveal_strlit("PRODID:ics-rs");
    reveal_strlit("END:VCALENDAR");
    reveal_strlit("BEGIN:VEVENT");
    reveal_strlit("BEGIN:VALARM");
    let ev = "BEGIN:VEVENT"@;
    let al = "BEGIN:VALARM"@;
    lemma_events_lines_count(rs, uids);
    assert(ev.len() == 12 && al.len() == 12);
    assert("BEGIN:VCALENDAR"@.len() == 15);
    assert("BEGIN:VCALENDAR"@ != ev && "BEGIN:VCALENDAR"@ != al);
    assert("VERSION:2.0"@.len() == 11);
    assert("VERSION:2.0"@ != ev && "VERSION:2.0"@ != al);
    assert("PRODID:ics-rs"@.len() == 13);
    assert("PRODID:ics-rs"@ != ev && "PRODID:ics-rs"@ != al);
    assert("END:VCALENDAR"@.len() == 13);
    assert("END:VCALENDAR"@ != ev && "END:VCALENDAR"@ != al);
    let h0 = Seq::<Seq<char>>::empty();
    let h1 = h0.push("BEGIN:VCALENDAR"@);
    let h2 = h1.push("VERSION:2.0"@);
    let h3 = h2.push("PRODID:ics-rs"@);
    assert(h1.drop_last() =~= h0);
    assert(h2.drop_last() =~= h1);
    assert(h3.drop_last() =~= h2);
    assert(count_lines_eq(h0, ev) == 0 && count_lines_eq(h0, al) == 0);
    assert(count_lines_eq(h1, ev) == 0 && count_lines_eq(h1, al) == 0);
    assert(count_lines_eq(h2, ev) == 0 && count_lines_eq(h2, al) == 0);
    assert(count_lines_eq(h3, ev) == 0 && count_lines_eq(h3, al) == 0);
    assert(calendar_head() =~= h3);
    lemma_count_lines_concat(calendar_head(), events_lines(rs, uids), ev);
    lemma_count_lines_concat(calendar_head(), events_lines(rs, uids), al);
    let e0 = Seq::<Seq<char>>::empty();
    let e1 = e0.push("END:VCALENDAR"@);
    assert(e1.drop_last() =~= e0);
    assert(count_lines_eq(e1, ev) == 0 && count_lines_eq(e1, al) == 0);
    assert(seq!["END:VCALENDAR"@] =~= e1);
    lemma_count_lines_concat(calendar_head() + events_lines(rs, uids), e1, ev);
    lemma_count_lines_concat(calendar_head() + events_lines(rs, uids), e1, al);
    assert(calendar_lines(rs, uids) == calendar_head() + events_lines(rs, uids) + e1);
}

/// No carriage return or line feed anywhere in the line.
pub open spec fn crlf_free(l: Seq<char>) -> bool {
    forall|j: int| 0 <= j < l.len() ==> l[j] != '\r' && l[j] != '\n'
}

/// The CRLF-separated pieces of a text, in order: the text split at every
/// CRLF, with the piece after the last CRLF included (empty when the text
/// ends in CRLF, as every rendered document does).
pub open spec fn split_crlf(s: Seq<char>) -> Seq<Seq<char>>
    decreases s.len(),
{
    if s.len() >= 2 && s[0] == '\r' && s[1] == '\n' {
        seq![Seq::<char>::empty()] + split_crlf(s.subrange(2, s.len() as int))
    } else if s.len() == 0 {
        seq![Seq::<char>::empty()]
    } else {
        let rest = split_crlf(s.drop_first());
        seq![seq![s[0]] + rest.first()] + rest.drop_first()
    }
}

/// The text's first piece extended at its front, ahead of the other pieces.
pub open spec fn prepend_first(c: Seq<char>, ls: Seq<Seq<char>>) -> Seq<Seq<char>> {
    seq![c + ls.first()] + ls.drop_first()
}

proof fn lemma_split_crlf_nonempty(s: Seq<char>)
    ensures
        split_crlf(s).len() >= 1,
{
}

/// Reads a document back as its CRLF-separated pieces.
pub fn split_document_lines(doc: &str) -> (out: Vec<String>)
    ensures
        out.deep_view() == split_crlf(doc@),
{
    let n: usize = doc.unicode_len();
    let mut out: Vec<String> = Vec::new();
    let mut start: usize = 0;
    let mut i: usize = 0;
    proof {
        assert(doc@.subrange(0, n as int) =~= doc@);
        assert(doc@.subrange(0, 0) =~= Seq::<char>::empty());
        lemma_split_crlf_nonempty(doc@);
        assert(Seq::<char>::empty() + split_crlf(doc@).first() =~= split_crlf(doc@).first());
        assert(prepend_first(Seq::<char>::empty(), split_crlf(doc@)) =~= split_crlf(doc@));
        assert(out.deep_view() =~= Seq::<Seq<char>>::empty());
        assert(out.deep_view() + prepend_first(
            doc@.subrange(0, 0),
            split_crlf(doc@.subrange(0, n as int)),
        ) =~= split_crlf(doc@));
    }
    while i < n
        invariant
            start <= i <= n,
            n == doc@.len(),
            split_crlf(doc@) == out.deep_view() + prepend_first(
                doc@.subrange(start as int, i as int),
                split_crlf(doc@.subrange(i as int, n as int)),
            ),
        decreases n - i,
    {
        let c = doc.get_char(i);
        if c == '\r' && i + 1 < n && doc.get_char(i + 1) == '\n' {
            let line = doc.substring_char(start, i).to_owned();
            let ghost outdv = out.deep_view();
            out.push(line);
            proof {
                let rem = doc@.subrange(i as int, n as int);
                let rem2 = doc@.subrange(i + 2, n as int);
                let cur = doc@.subrange(start as int, i as int);
                assert(rem[0] == '\r' && rem[1] == '\n');
                assert(rem.subrange(2, rem.len() as int) =~= rem2);
                lemma_split_crlf_nonempty(rem2);
                assert(cur + (seq![Seq::<char>::empty()] + split_crlf(rem2)).first() =~= cur);
                assert((seq![Seq::<char>::empty()] + split_crlf(rem2)).drop_first() =~= split_crlf(
                    rem2,
                ));
                assert(prepend_first(cur, split_crlf(rem)) =~= seq![cur] + split_crlf(rem2));
                assert(Seq::<char>::empty() + split_crlf(rem2).first() =~= split_crlf(
                    rem2,
                ).first());
                assert(prepend_first(Seq::<char>::empty(), split_crlf(rem2)) =~= split_crlf(rem2));
                assert(outdv + (seq![cur] + split_crlf(rem2)) =~= (outdv + seq![cur]) + split_crlf(
                    rem2,
                ));
                assert(out.deep_view() =~= outdv + seq![cur]);
                assert(doc@.subrange(i + 2, i + 2) =~= Seq::<char>::empty());
            }
            start = i + 2;
            i = i + 2;
        } else {
            proof {
                let rem = doc@.subrange(i as int, n as int);
                let rem2 = doc@.subrange(i + 1, n as int);
                let cur = doc@.subrange(start as int, i as int);
                let cur2 = doc@.subrange(start as int, i + 1);
                assert(rem[0] == c);
                if rem.len() >= 2 {
                    assert(rem[1] == doc@[i + 1]);
                }
                assert(!(rem.len() >= 2 && rem[0] == '\r' && rem[1] == '\n'));
                assert(rem.drop_first() =~= rem2);
                let t = split_crlf(rem2);
                assert(cur + (seq![rem[0]] + t.first()) =~= cur2 + t.first());
                assert(split_crlf(rem).drop_first() =~= t.drop_first());
                assert(split_crlf(rem).first() == seq![rem[0]] + t.first());
                assert(prepend_first(cur, split_crlf(rem)) =~= prepend_first(cur2, t));
            }
            i = i + 1;
        }
    }
    let line = doc.substring_char(start, n).to_owned();
    let ghost outdv = out.deep_view();
    out.push(line);
    proof {
        let rem = doc@.subrange(n as int, n as int);
        let cur = doc@.subrange(start as int, n as int);
        assert(rem =~= Seq::<char>::empty());
        assert(split_crlf(Seq::<char>::empty()) =~= seq![Seq::<char>::empty()]);
        assert(cur + seq![Seq::<char>::empty()].first() =~= cur);
        assert(seq![Seq::<char>::empty()].drop_first() =~= Seq::<Seq<char>>::empty());
        assert(prepend_first(cur, split_crlf(rem)) =~= seq![cur]);
        assert(out.deep_view() =~= outdv + seq![cur]);
    }
    out
}

/// Counts the pieces equal to the given line.
pub fn count_equal_lines(lines: &Vec<String>, target: &String) -> (n: usize)
    ensures
        n == count_lines_eq(lines.deep_view(), target@),
{
    let ghost all = lines.deep_view();
    let mut n: usize = 0;
    let mut i: usize = 0;
    proof {
        assert(all.subrange(0, 0) =~= Seq::<Seq<char>>::empty());
    }
    while i < lines.len()
        invariant
            i <= lines@.len(),
            all == lines.deep_view(),
            n <= i,
            n == count_lines_eq(all.subrange(0, i as int), target@),
        decreases lines@.len() - i,
    {
        proof {
            let prefix = all.subrange(0, i + 1);
            assert(prefix.drop_last() =~= all.subrange(0, i as int));
            assert(prefix.last() == all[i as int]);
            assert(all[i as int] == lines@[i as int]@);
        }
        if lines[i] == *target {
            n = n + 1;
        }
        i = i + 1;
    }
    proof {
        assert(all.subrange(0, lines@.len() as int) =~= all);
    }
    n
}

proof fn lemma_flat_lines_first(ls: Seq<Seq<char>>)
    requires
        ls.len() > 0,
    ensures
        flat_lines(ls) == ls.first() + crlf() + flat_lines(ls.drop_first()),
{
    assert(ls =~= seq![ls.first()] + ls.drop_first());
    lemma_flat_lines_concat(seq![ls.first()], ls.drop_first());
    assert(seq![ls.first()].drop_last() =~= Seq::<Seq<char>>::empty());
    assert(flat_lines(Seq::<Seq<char>>::empty()) =~= Seq::<char>::empty());
    assert(flat_lines(seq![ls.first()]) =~= ls.first() + crlf());
}

proof fn lemma_split_scan(l: Seq<char>, rest: Seq<char>)
    requires
        crlf_free(l),
    ensures
        split_crlf(l + crlf() + rest) == seq![l] + split_crlf(rest),
    decreases l.len(),
{
    let s = l + crlf() + rest;
    if l.len() == 0 {
        assert(s[0] == '\r' && s[1] == '\n');
        assert(s.subrange(2, s.len() as int) =~= rest);
        assert(l =~= Seq::<char>::empty());
    } else {
        assert(s[0] == l[0]);
        assert(l[0] != '\r');
        lemma_split_scan(l.drop_first(), rest);
        assert(s.drop_first() =~= l.drop_first() + crlf() + rest);
        let tail = split_crlf(s.drop_first());
        assert(tail.first() == l.drop_first());
        assert(tail.drop_first() =~= split_crlf(rest));
        assert(seq![s[0]] + tail.first() =~= l);
        assert(split_crlf(s) =~= seq![l] + split_crlf(rest));
    }
}

proof fn lemma_split_flat(ls: Seq<Seq<char>>)
    requires
        forall|i: int| 0 <= i < ls.len() ==> crlf_free(#[trigger] ls[i]),
    ensures
        split_crlf(flat_lines(ls)) == ls.push(Seq::<char>::empty()),
    decreases ls.len(),
{
    if ls.len() == 0 {
        assert(flat_lines(ls) =~= Seq::<char>::empty());
        assert(split_crlf(Seq::<char>::empty()) =~= seq![Seq::<char>::empty()]);
        assert(ls.push(Seq::<char>::empty()) =~= seq![Seq::<char>::empty()]);
    } else {
        lemma_flat_lines_first(ls);
        assert(crlf_free(ls.first()));
        lemma_split_scan(ls.first(), flat_lines(ls.drop_first()));
        assert forall|i: int| 0 <= i < ls.drop_first().len() implies crlf_free(
            #[trigger] ls.drop_first()[i],
        ) by {
            assert(ls.drop_first()[i] == ls[i + 1]);
        }
        lemma_split_flat(ls.drop_first());
        assert(seq![ls.first()] + ls.drop_first().push(Seq::<char>::empty()) =~= ls.push(
            Seq::<char>::empty(),
        ));
    }
}

proof fn lemma_crlf_free_concat(a: Seq<char>, b: Seq<char>)
    requires
        crlf_free(a),
        crlf_free(b),
    ensures
        crlf_free(a + b),
{
    assert forall|j: int| 0 <= j < (a + b).len() implies (a + b)[j] != '\r' && (a + b)[j] != '\n' by {
        if j < a.len() {
            assert((a + b)[j] == a[j]);
        } else {
            assert((a + b)[j] == b[j - a.len()]);
        }
    }
}

proof fn lemma_stamp_crlf_free(d: Date)
    ensures
        crlf_free(stamp_spec(d)),
{
    assert forall|j: int| 0 <= j < stamp_spec(d).len() implies stamp_spec(d)[j] != '\r'
        && stamp_spec(d)[j] != '\n' by {
        assert(is_digit(stamp_spec(d)[j]));
    }
}

proof fn lemma_event_lines_crlf_free(r: RecordData, uid: Seq<char>)
    requires
        crlf_free(r.name),
        crlf_free(uid),
    ensures
        forall|i: int|
            0 <= i < event_lines(r, uid).len() ==> crlf_free(#[trigger] event_lines(r, uid)[i]),
{
    reveal_strlit("BEGIN:VEVENT");
    reveal_strlit("UID:");
    reveal_strlit("DTSTART:");
    reveal_strlit("SUMMARY:Geburtstag ");
    reveal_strlit("RRULE:FREQ=YEARLY");
    reveal_strlit("BEGIN:VALARM");
    reveal_strlit("ACTION:AUDIO");
    reveal_strlit("TRIGGER;RELATED=END:PT8H");
    reveal_strlit("END:VALARM");
    reveal_strlit("END:VEVENT");
    let e = event_lines(r, uid);
    assert(crlf_free("UID:"@));
    lemma_crlf_free_concat("UID:"@, uid);
    assert(crlf_free("DTSTART:"@));
    lemma_stamp_crlf_free(r.birthday);
    lemma_crlf_free_concat("DTSTART:"@, stamp_spec(r.birthday));
    assert(crlf_free("SUMMARY:Geburtstag "@));
    lemma_crlf_free_concat("SUMMARY:Geburtstag "@, r.name);
    assert forall|i: int| 0 <= i < e.len() implies crlf_free(#[trigger] e[i]) by {
        if i == 0 {
            assert(crlf_free(e[0]));
        } else if i == 1 {
            assert(crlf_free(e[1]));
        } else if i == 2 {
            assert(crlf_free(e[2]));
        } else if i == 3 {
            assert(crlf_free(e[3]));
        } else if i == 4 {
            assert(crlf_free(e[4]));
        } else if i == 5 {
            assert(crlf_free(e[5]));
        } else if i == 6 {
            assert(crlf_free(e[6]));
        } else if i == 7 {
            assert(crlf_free(e[7]));
        } else if i == 8 {
            assert(crlf_free(e[8]));
        } else {
            assert(crlf_free(e[9]));
        }
    }
}

proof fn lemma_events_lines_crlf_free(rs: Seq<RecordData>, uids: Seq<Seq<char>>)
    requires
        uids.len() == rs.len(),
        forall|i: int| 0 <= i < rs.len() ==> crlf_free((#[trigger] rs[i]).name),
        forall|i: int| 0 <= i < uids.len() ==> crlf_free(#[trigger] uids[i]),
    ensures
        forall|i: int|
            0 <= i < events_lines(rs, uids).len() ==> crlf_free(
                #[trigger] events_lines(rs, uids)[i],
            ),
    decreases rs.len(),
{
    if rs.len() > 0 {
        assert forall|i: int| 0 <= i < rs.drop_last().len() implies crlf_free(
            (#[trigger] rs.drop_last()[i]).name,
        ) by {
            assert(rs.drop_last()[i] == rs[i]);
        }
        assert forall|i: int| 0 <= i < uids.drop_last().len() implies crlf_free(
            #[trigger] uids.drop_last()[i],
        ) by {
            assert(uids.drop_last()[i] == uids[i]);
        }
        lemma_events_lines_crlf_free(rs.drop_last(), uids.drop_last());
        assert(crlf_free(rs[rs.len() - 1].name));
        assert(crlf_free(uids[rs.len() - 1]));
        lemma_event_lines_crlf_free(rs.last(), uids.last());
        let a = events_lines(rs.drop_last(), uids.drop_last());
        let b = event_lines(rs.last(), uids.last());
        assert forall|i: int| 0 <= i < (a + b).len() implies crlf_free(#[trigger] (a + b)[i]) by {
            if i < a.len() {
                assert((a + b)[i] == a[i]);
                assert(crlf_free(a[i]));
            } else {
                assert((a + b)[i] == b[i - a.len()]);
                assert(crlf_free(b[i - a.len()]));
            }
        }
    }
}

/// Law: the rendered text reads back as its content lines — splitting the
/// document at every CRLF recovers exactly the document's lines, plus the
/// empty trailing piece after the final CRLF, and therefore finds exactly
/// one `BEGIN:VEVENT` and one `BEGIN:VALARM` line per record. It holds
/// whenever no name and no identifier itself contains a CR or LF; a name
/// with an embedded line break breaks the format's line structure, and
/// nothing can be recovered from such a document.
pub proof fn lemma_document_round_trip(rs: Seq<RecordData>, uids: Seq<Seq<char>>)
    requires
        uids.len() == rs.len(),
        forall|i: int| 0 <= i < rs.len() ==> crlf_free((#[trigger] rs[i]).name),
        forall|i: int| 0 <= i < uids.len() ==> crlf_free(#[trigger] uids[i]),
    ensures
        split_crlf(calendar_text(rs, uids)) == calendar_lines(rs, uids).push(Seq::<char>::empty()),
        count_lines_eq(split_crlf(calendar_text(rs, uids)), "BEGIN:VEVENT"@) == rs.len(),
        count_lines_eq(split_crlf(calendar_text(rs, uids)), "BEGIN:VALARM"@) == rs.len(),
{
    reveal_strlit("BEGIN:VCALENDAR");
    reveal_strlit("VERSION:2.0");
    reveal_strlit("PRODID:ics-rs");
    reveal_strlit("END:VCALENDAR");
    reveal_strlit("BEGIN:VEVENT");
    reveal_strlit("BEGIN:VALARM");
    lemma_events_lines_crlf_free(rs, uids);
    let ls = calendar_lines(rs, uids);
    let body = events_lines(rs, uids);
    assert(crlf_free("BEGIN:VCALENDAR"@));
    assert(crlf_free("VERSION:2.0"@));
    assert(crlf_free("PRODID:ics-rs"@));
    assert(crlf_free("END:VCALENDAR"@));
    assert forall|i: int| 0 <= i < ls.len() implies crlf_free(#[trigger] ls[i]) by {
        if i < 3 {
            assert(ls[i] == calendar_head()[i]);
            if i == 0 {
                assert(crlf_free(calendar_head()[0]));
            } else if i == 1 {
                assert(crlf_free(calendar_head()[1]));
            } else {
                assert(crlf_free(calendar_head()[2]));
            }
        } else if i < 3 + body.len() {
            assert(ls[i] == body[i - 3]);
            assert(crlf_free(body[i - 3]));
        } else {
            assert(ls[i] == "END:VCALENDAR"@);
        }
    }
    lemma_split_flat(ls);
    let ev = "BEGIN:VEVENT"@;
    let al = "BEGIN:VALARM"@;
    lemma_calendar_block_count(rs, uids);
    assert(ls.push(Seq::<char>::empty()).drop_last() =~= ls);
    assert(ev.len() == 12 && al.len() == 12);
    assert(Seq::<char>::empty() != ev && Seq::<char>::empty() != al);
}

proof fn lemma_events_lines_len(rs: Seq<RecordData>, uids: Seq<Seq<char>>)
    requires
        uids.len() == rs.len(),
    ensures
        events_lines(rs, uids).len() == 10 * rs.len(),
    decreases rs.len(),
{
    if rs.len() > 0 {
        lemma_events_lines_len(rs.drop_last(), uids.drop_last());
    }
}

proof fn lemma_events_lines_index(rs: Seq<RecordData>, uids: Seq<Seq<char>>, k: int, j: int)
    requires
        uids.len() == rs.len(),
        0 <= k < rs.len(),
        0 <= j < 10,
    ensures
        events_lines(rs, uids)[10 * k + j] == event_lines(rs[k], uids[k])[j],
    decreases rs.len(),
{
    lemma_events_lines_len(rs.drop_last(), uids.drop_last());
    if k == rs.len() - 1 {
        assert(rs.last() == rs[k]);
        assert(uids.last() == uids[k]);
    } else {
        lemma_events_lines_index(rs.drop_last(), uids.drop_last(), k, j);
        assert(rs.drop_last()[k] == rs[k]);
        assert(uids.drop_last()[k] == uids[k]);
    }
}

/// Law: the document is block-structured — content line `3 + 10k + j` of the
/// document is line `j` of the `k`-th record's event block. In particular
/// each record's identifier stands in its own block's `UID` line, its own
/// birthday in that block's `DTSTART` line.
pub proof fn lemma_event_block_positions(
    rs: Seq<RecordData>,
    uids: Seq<Seq<char>>,
    k: int,
    j: int,
)
    requires
        uids.len() == rs.len(),
        0 <= k < rs.len(),
        0 <= j < 10,
    ensures
        calendar_lines(rs, uids)[3 + 10 * k + j] == event_lines(rs[k], uids[k])[j],
{
    lemma_events_lines_index(rs, uids, k, j);
    lemma_events_lines_len(rs, uids);
}

/// Law: the renderer never collapses identifiers — two `UID` lines are equal
/// only when the drawn identifiers were equal. Distinctness of the rendered
/// lines therefore rests exactly on the distinctness of the random draws.
pub proof fn lemma_uid_line_injective(a: Seq<char>, b: Seq<char>)
    requires
        a != b,
    ensures
        uid_line(a) != uid_line(b),
{
    reveal_strlit("UID:");
    if uid_line(a) == uid_line(b) {
        assert(uid_line(a).len() == 4 + a.len());
        assert(uid_line(b).len() == 4 + b.len());
        assert(a.len() == b.len());
        assert forall|i: int| 0 <= i < a.len() implies a[i] == b[i] by {
            assert(uid_line(a)[4 + i] == a[i]);
            assert(uid_line(b)[4 + i] == b[i]);
        }
        assert(a =~= b);
    }
}

/// Law: an event always starts on its record's birthday, spelled as the
/// 8-digit stamp, and always repeats yearly with no end — whatever the
/// record and the identifier are.
pub proof fn lemma_event_start_and_recurrence(r: RecordData, uid: Seq<char>)
    ensures
        event_lines(r, uid)[2] == dtstart_line(r.birthday),
        event_lines(r, uid)[4] == "RRULE:FREQ=YEARLY"@,
{
}

/// Law: with no surviving records the document is still produced, and it is
/// exactly the bare frame with zero event blocks in it.
pub proof fn lemma_empty_calendar(uids: Seq<Seq<char>>)
    requires
        uids.len() == 0,
    ensures
        calendar_lines(Seq::<RecordData>::empty(), uids) =~= calendar_head().push(
            "END:VCALENDAR"@,
        ),
        count_lines_eq(calendar_lines(Seq::<RecordData>::empty(), uids), "BEGIN:VEVENT"@) == 0,
{
    lemma_calendar_block_count(Seq::<RecordData>::empty(), uids);
    assert(events_lines(Seq::<RecordData>::empty(), uids) =~= Seq::<Seq<char>>::empty());
    assert(calendar_lines(Seq::<RecordData>::empty(), uids) =~= calendar_head().push(
        "END:VCALENDAR"@,
    ));
}

} // verus!
