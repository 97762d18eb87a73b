//! Delimited text: records of fields, one record to a line, the fields
//! parted by commas.
//!
//! A field may stand in double quotes; inside them a comma or a line break
//! is part of the field, and two double quotes stand for one. A carriage
//! return outside quotes is passed over, and so is a line without a character.

use vstd::prelude::*;
use crate::text::chars_of;

verus! {

/// Where the reader stands between two characters.
#[derive(Clone, Copy, Debug, PartialEq, Eq, Structural)]
pub enum Mode {
    /// Before the first character of a record.
    RecordStart,
    /// Behind a comma, before the first character of a field.
    FieldStart,
    /// Inside a field without quotes.
    Unquoted,
    /// Inside a field in quotes.
    Quoted,
    /// Behind a double quote inside a field in quotes: the field has ended,
    /// unless another double quote follows.
    QuoteSeen,
    /// Behind a character that may not stand where it does.
    Failed,
}

/// What the reader has made of the characters so far.
#[verifier::ext_equal]
pub struct ReaderState {
    pub mode: Mode,
    /// The records that have ended.
    pub records: Seq<Seq<Seq<char>>>,
    /// The fields of the current record that have ended.
    pub record: Seq<Seq<char>>,
    /// The characters of the current field.
    pub field: Seq<char>,
}

/// The reader before the first character.
pub open spec fn reader_start() -> ReaderState {
    ReaderState {
        mode: Mode::RecordStart,
        records: Seq::empty(),
        record: Seq::empty(),
        field: Seq::empty(),
    }
}

/// The reader after the current field has ended at a comma.
pub open spec fn field_ended(s: ReaderState) -> ReaderState {
    ReaderState {
        mode: Mode::FieldStart,
        records: s.records,
        record: s.record.push(s.field),
        field: Seq::empty(),
    }
}

/// The reader after the current record has ended with its current field.
pub open spec fn record_ended(s: ReaderState) -> ReaderState {
    ReaderState {
        mode: Mode::RecordStart,
        records: s.records.push(s.record.push(s.field)),
        record: Seq::empty(),
        field: Seq::empty(),
    }
}

/// The reader in mode `mode` with `c` added to the current field.
pub open spec fn field_grown(s: ReaderState, mode: Mode, c: char) -> ReaderState {
    ReaderState { mode, records: s.records, record: s.record, field: s.field.push(c) }
}

/// The reader in mode `mode`, with nothing else changed.
pub open spec fn in_mode(s: ReaderState, mode: Mode) -> ReaderState {
    ReaderState { mode, records: s.records, record: s.record, field: s.field }
}

/// The reader after the character `c`.
pub open spec fn reader_step(s: ReaderState, c: char) -> ReaderState {
    match s.mode {
        Mode::RecordStart => if c == '\n' || c == '\r' {
            s
        } else if c == ',' {
            field_ended(s)
        } else if c == '"' {
            in_mode(s, Mode::Quoted)
        } else {
            field_grown(s, Mode::Unquoted, c)
        },
        Mode::FieldStart => if c == '\r' {
            s
        } else if c == '\n' {
            record_ended(s)
        } else if c == ',' {
            field_ended(s)
        } else if c == '"' {
            in_mode(s, Mode::Quoted)
        } else {
            field_grown(s, Mode::Unquoted, c)
        },
        Mode::Unquoted => if c == '\r' {
            s
        } else if c == '\n' {
            record_ended(s)
        } else if c == ',' {
            field_ended(s)
        } else if c == '"' {
            in_mode(s, Mode::Failed)
        } else {
            field_grown(s, Mode::Unquoted, c)
        },
        Mode::Quoted => if c == '"' {
            in_mode(s, Mode::QuoteSeen)
        } else {
            field_grown(s, Mode::Quoted, c)
        },
        Mode::QuoteSeen => if c == '\r' {
            s
        } else if c == '\n' {
            record_ended(s)
        } else if c == ',' {
            field_ended(s)
        } else if c == '"' {
            field_grown(s, Mode::Quoted, c)
        } else {
            in_mode(s, Mode::Failed)
        },
        Mode::Failed => s,
    }
}

/// The reader after the characters of `text`, one after the other.
pub open spec fn reader_run(s: ReaderState, text: Seq<char>) -> ReaderState
    decreases text.len(),
{
    if text.len() == 0 {
        s
    } else {
        reader_step(reader_run(s, text.drop_last()), text.last())
    }
}

/// The records that the reader holds at the end of the text: a last record
/// needs no line break behind it. `None` where the text ends inside quotes
/// or a character stood where it may not.
pub open spec fn reader_result(s: ReaderState) -> Option<Seq<Seq<Seq<char>>>> {
    match s.mode {
        Mode::RecordStart => Some(s.records),
        Mode::FieldStart | Mode::Unquoted | Mode::QuoteSeen => Some(record_ended(s).records),
        Mode::Quoted | Mode::Failed => None,
    }
}

/// The records of the delimited text `text`, or `None` where it is malformed.
pub open spec fn records_of_text(text: Seq<char>) -> Option<Seq<Seq<Seq<char>>>> {
    reader_result(reader_run(reader_start(), text))
}

/// Reads delimited text into its records, each a list of fields.
pub fn parse_csv(text: &str) -> (r: Option<Vec<Vec<String>>>)
    ensures
        r is Some <==> records_of_text(text@) is Some,
        r matches Some(records) ==> records_of_text(text@) == Some(records.deep_view()),
{
    let chars = chars_of(text);
    let mut mode = Mode::RecordStart;
    let mut records: Vec<Vec<String>> = Vec::new();
    let mut record: Vec<String> = Vec::new();
    let mut field = String::new();
    let mut i: usize = 0;
    while i < chars.len()
        invariant
            0 <= i <= chars.len(),
            reader_run(reader_start(), chars@.take(i as int)) == (ReaderState {
                mode,
                records: records.deep_view(),
                record: record.deep_view(),
                field: field@,
            }),
        decreases chars.len() - i,
    {
        let c = chars[i];
        let ghost before = reader_run(reader_start(), chars@.take(i as int));
        proof {
            let next = chars@.take(i + 1);
            assert(next.drop_last() =~= chars@.take(i as int));
        }
        let ends_field = c == ',' && (mode == Mode::RecordStart || mode == Mode::FieldStart || mode
            == Mode::Unquoted || mode == Mode::QuoteSeen);
        let ends_record = c == '\n' && (mode == Mode::FieldStart || mode == Mode::Unquoted || mode
            == Mode::QuoteSeen);
        if ends_field || ends_record {
            let done = field;
            field = String::new();
            record.push(done);
            assert(record.deep_view() =~= before.record.push(before.field));
            if ends_record {
                let whole = record;
                record = Vec::new();
                records.push(whole);
                mode = Mode::RecordStart;
            } else {
                mode = Mode::FieldStart;
            }
        } else if mode == Mode::Quoted {
            if c == '"' {
                mode = Mode::QuoteSeen;
            } else {
                field.push(c);
            }
        } else if mode == Mode::Failed || c == '\r' || c == '\n' {
        } else if c == '"' {
            if mode == Mode::Unquoted {
                mode = Mode::Failed;
            } else if mode == Mode::QuoteSeen {
                field.push(c);
                mode = Mode::Quoted;
            } else {
                mode = Mode::Quoted;
            }
        } else if mode == Mode::QuoteSeen {
            mode = Mode::Failed;
        } else {
            field.push(c);
            mode = Mode::Unquoted;
        }
        i = i + 1;
    }
    assert(chars@.take(i as int) =~= chars@);
    let ghost last = reader_run(reader_start(), chars@);
    match mode {
        Mode::RecordStart => Some(records),
        Mode::FieldStart | Mode::Unquoted | Mode::QuoteSeen => {
            record.push(field);
            assert(record.deep_view() =~= last.record.push(last.field));
            records.push(record);
            Some(records)
        },
        Mode::Quoted | Mode::Failed => None,
    }
}

/// Whether `c` may not stand in a field without quotes.
pub open spec fn is_special(c: char) -> bool {
    c == ',' || c == '"' || c == '\n' || c == '\r'
}

/// Whether a field has to stand in quotes.
pub open spec fn needs_quotes(field: Seq<char>) -> bool {
    exists|i: int| 0 <= i < field.len() && is_special(#[trigger] field[i])
}

/// The field with each double quote written twice.
pub open spec fn escaped(field: Seq<char>) -> Seq<char>
    decreases field.len(),
{
    if field.len() == 0 {
        Seq::empty()
    } else if field.last() == '"' {
        escaped(field.drop_last()) + seq!['"', '"']
    } else {
        escaped(field.drop_last()).push(field.last())
    }
}

/// The text of one field: the field itself, or in quotes where it must be.
pub open spec fn field_text(field: Seq<char>) -> Seq<char> {
    if needs_quotes(field) {
        seq!['"'] + escaped(field) + seq!['"']
    } else {
        field
    }
}

/// The texts of the fields of `record`, with a comma between each two.
pub open spec fn joined_fields(record: Seq<Seq<char>>) -> Seq<char>
    decreases record.len(),
{
    if record.len() == 0 {
        Seq::empty()
    } else if record.len() == 1 {
        field_text(record[0])
    } else {
        joined_fields(record.drop_last()) + seq![','] + field_text(record.last())
    }
}

/// The line of one record.
pub open spec fn record_text(record: Seq<Seq<char>>) -> Seq<char> {
    joined_fields(record) + seq!['\n']
}

/// The delimited text of `records`, one line for each.
pub open spec fn text_of_records(records: Seq<Seq<Seq<char>>>) -> Seq<char>
    decreases records.len(),
{
    if records.len() == 0 {
        Seq::empty()
    } else {
        text_of_records(records.drop_last()) + record_text(records.last())
    }
}

/// Whether a record can be read back from its line: it has a field, and
/// more than an empty one.
pub open spec fn is_readable_record(record: Seq<Seq<char>>) -> bool {
    record.len() >= 2 || (record.len() == 1 && record[0].len() > 0)
}

/// Reading a text in two parts is reading the second part from where the
/// first has left the reader.
pub proof fn lemma_run_in_parts(s: ReaderState, first: Seq<char>, second: Seq<char>)
    ensures
        reader_run(s, first + second) == reader_run(reader_run(s, first), second),
    decreases second.len(),
{
    if second.len() > 0 {
        let whole = first + second;
        assert(whole.drop_last() =~= first + second.drop_last());
        lemma_run_in_parts(s, first, second.drop_last());
    }
}

/// The reader after one character.
pub proof fn lemma_run_one(s: ReaderState, c: char)
    ensures
        reader_run(s, seq![c]) == reader_step(s, c),
{
    let text = seq![c];
    assert(reader_run(s, text.drop_last()) == s);
}

/// Inside quotes the escaped text of a field adds the field to the current one.
proof fn lemma_run_escaped(s: ReaderState, field: Seq<char>)
    requires
        s.mode == Mode::Quoted,
    ensures
        reader_run(s, escaped(field)) == (ReaderState {
            mode: Mode::Quoted,
            records: s.records,
            record: s.record,
            field: s.field + field,
        }),
    decreases field.len(),
{
    if field.len() > 0 {
        let front = field.drop_last();
        lemma_run_escaped(s, front);
        let mid = reader_run(s, escaped(front));
        if field.last() == '"' {
            lemma_run_in_parts(s, escaped(front), seq!['"', '"']);
            let two = seq!['"', '"'];
            assert(two.drop_last() =~= seq!['"']);
            lemma_run_one(mid, '"');
        } else {
            let text = escaped(field);
            assert(text.drop_last() =~= escaped(front));
        }
    }
}

/// Outside quotes a text without special characters adds itself to the
/// current field.
proof fn lemma_run_plain(s: ReaderState, field: Seq<char>)
    requires
        s.mode == Mode::RecordStart || s.mode == Mode::FieldStart || s.mode == Mode::Unquoted,
        !needs_quotes(field),
        field.len() > 0,
    ensures
        reader_run(s, field) == (ReaderState {
            mode: Mode::Unquoted,
            records: s.records,
            record: s.record,
            field: s.field + field,
        }),
    decreases field.len(),
{
    let front = field.drop_last();
    if front.len() == 0 {
        assert(reader_run(s, front) == s);
    } else {
        assert(!needs_quotes(front));
        lemma_run_plain(s, front);
    }
}

/// At the start of a field, the text of a field and a comma behind it add
/// the field to the current record.
proof fn lemma_run_field_and_comma(s: ReaderState, field: Seq<char>)
    requires
        s.mode == Mode::RecordStart || s.mode == Mode::FieldStart,
        s.field.len() == 0,
    ensures
        reader_run(s, field_text(field) + seq![',']) == (ReaderState {
            mode: Mode::FieldStart,
            records: s.records,
            record: s.record.push(field),
            field: Seq::empty(),
        }),
{
    let mid = lemma_run_field(s, field);
    lemma_run_in_parts(s, field_text(field), seq![',']);
    lemma_run_one(mid, ',');
}

/// At the start of a field, the text of a field and a line break behind it
/// end the current record with the field.
proof fn lemma_run_field_and_break(s: ReaderState, field: Seq<char>)
    requires
        s.mode == Mode::RecordStart || s.mode == Mode::FieldStart,
        s.field.len() == 0,
        s.mode == Mode::FieldStart || field.len() > 0,
    ensures
        reader_run(s, field_text(field) + seq!['\n']) == (ReaderState {
            mode: Mode::RecordStart,
            records: s.records.push(s.record.push(field)),
            record: Seq::empty(),
            field: Seq::empty(),
        }),
{
    let mid = lemma_run_field(s, field);
    lemma_run_in_parts(s, field_text(field), seq!['\n']);
    lemma_run_one(mid, '\n');
}

/// At the start of a field, the text of a field leaves the reader holding
/// the field, in a mode in which a comma or a line break ends it.
proof fn lemma_run_field(s: ReaderState, field: Seq<char>) -> (mid: ReaderState)
    requires
        s.mode == Mode::RecordStart || s.mode == Mode::FieldStart,
        s.field.len() == 0,
    ensures
        mid == reader_run(s, field_text(field)),
        mid.records == s.records,
        mid.record == s.record,
        mid.field == field,
        field.len() == 0 ==> mid.mode == s.mode,
        field.len() > 0 ==> mid.mode == Mode::Unquoted || mid.mode == Mode::QuoteSeen,
{
    let mid = reader_run(s, field_text(field));
    if needs_quotes(field) {
        let opened = in_mode(s, Mode::Quoted);
        lemma_run_one(s, '"');
        lemma_run_in_parts(s, seq!['"'], escaped(field));
        lemma_run_escaped(opened, field);
        lemma_run_in_parts(s, seq!['"'] + escaped(field), seq!['"']);
        lemma_run_one(reader_run(s, seq!['"'] + escaped(field)), '"');
    } else if field.len() > 0 {
        lemma_run_plain(s, field);
    }
    mid
}

/// The fields of a record but the last, each with a comma behind it, leave
/// the reader at the start of the last field.
proof fn lemma_run_leading_fields(s: ReaderState, record: Seq<Seq<char>>, count: int)
    requires
        s.mode == Mode::RecordStart,
        s.record.len() == 0,
        s.field.len() == 0,
        1 <= count <= record.len(),
    ensures
        reader_run(s, joined_fields(record.take(count)) + seq![',']) == (ReaderState {
            mode: Mode::FieldStart,
            records: s.records,
            record: record.take(count),
            field: Seq::empty(),
        }),
    decreases count,
{
    let part = record.take(count);
    if count == 1 {
        lemma_run_field_and_comma(s, record[0]);
    } else {
        lemma_run_leading_fields(s, record, count - 1);
        let front = record.take(count - 1);
        assert(part.drop_last() =~= front);
        let mid = reader_run(s, joined_fields(front) + seq![',']);
        lemma_run_field_and_comma(mid, record[count - 1]);
        assert(joined_fields(part) + seq![','] =~= (joined_fields(front) + seq![',']) + (field_text(
            record[count - 1],
        ) + seq![',']));
        lemma_run_in_parts(
            s,
            joined_fields(front) + seq![','],
            field_text(record[count - 1]) + seq![','],
        );
    }
}

/// At the start of a record, the line of a record adds the record to those
/// that have ended.
proof fn lemma_run_record(s: ReaderState, record: Seq<Seq<char>>)
    requires
        s.mode == Mode::RecordStart,
        s.record.len() == 0,
        s.field.len() == 0,
        is_readable_record(record),
    ensures
        reader_run(s, record_text(record)) == (ReaderState {
            mode: Mode::RecordStart,
            records: s.records.push(record),
            record: Seq::empty(),
            field: Seq::empty(),
        }),
{
    if record.len() == 1 {
        lemma_run_field_and_break(s, record[0]);
        assert(s.record.push(record[0]) =~= record);
    } else {
        let count = record.len() - 1;
        let front = record.take(count);
        lemma_run_leading_fields(s, record, count);
        let mid = reader_run(s, joined_fields(front) + seq![',']);
        lemma_run_field_and_break(mid, record.last());
        assert(record_text(record) =~= (joined_fields(front) + seq![',']) + (field_text(
            record.last(),
        ) + seq!['\n']));
        lemma_run_in_parts(
            s,
            joined_fields(front) + seq![','],
            field_text(record.last()) + seq!['\n'],
        );
        assert(front.push(record.last()) =~= record);
    }
}

/// The reader makes of the text of `records` these records again, and stands
/// at the start of a record behind them.
proof fn lemma_run_records(records: Seq<Seq<Seq<char>>>)
    requires
        forall|k: int| 0 <= k < records.len() ==> is_readable_record(#[trigger] records[k]),
    ensures
        reader_run(reader_start(), text_of_records(records)) == (ReaderState {
            mode: Mode::RecordStart,
            records,
            record: Seq::empty(),
            field: Seq::empty(),
        }),
    decreases records.len(),
{
    if records.len() > 0 {
        let front = records.drop_last();
        lemma_run_records(front);
        let mid = reader_run(reader_start(), text_of_records(front));
        lemma_run_record(mid, records.last());
        lemma_run_in_parts(reader_start(), text_of_records(front), record_text(records.last()));
    }
}

/// Records that are written and read again are the same records, as long as
/// each has a field and more than an empty one.
pub proof fn lemma_records_read_back(records: Seq<Seq<Seq<char>>>)
    requires
        forall|k: int| 0 <= k < records.len() ==> is_readable_record(#[trigger] records[k]),
    ensures
        records_of_text(text_of_records(records)) == Some(records),
{
    lemma_run_records(records);
}

/// Appends the text of one field to `out`.
pub fn push_field(out: &mut String, field: &str)
    ensures
        final(out)@ == old(out)@ + field_text(field@),
{
    let chars = chars_of(field);
    let mut quoted = false;
    let mut i: usize = 0;
    while i < chars.len()
        invariant
            0 <= i <= chars.len(),
            quoted == exists|k: int| 0 <= k < i && is_special(#[trigger] chars[k]),
        decreases chars.len() - i,
    {
        let c = chars[i];
        if c == ',' || c == '"' || c == '\n' || c == '\r' {
            quoted = true;
        }
        i = i + 1;
    }
    if !quoted {
        out.append(field);
        return ;
    }
    out.push('"');
    let ghost opened = out@;
    let mut j: usize = 0;
    while j < chars.len()
        invariant
            0 <= j <= chars.len(),
            out@ == opened + escaped(chars@.take(j as int)),
        decreases chars.len() - j,
    {
        let c = chars[j];
        proof {
            let next = chars@.take(j + 1);
            assert(next.drop_last() =~= chars@.take(j as int));
        }
        if c == '"' {
            out.push('"');
            out.push('"');
        } else {
            out.push(c);
        }
        j = j + 1;
    }
    assert(chars@.take(j as int) =~= chars@);
    out.push('"');
}

/// Appends the line of one record to `out`.
pub fn push_record(out: &mut String, record: &Vec<String>)
    ensures
        final(out)@ == old(out)@ + record_text(record.deep_view()),
{
    let ghost fields = record.deep_view();
    let mut k: usize = 0;
    while k < record.len()
        invariant
            0 <= k <= record.len(),
            fields == record.deep_view(),
            out@ == old(out)@ + joined_fields(fields.take(k as int)),
        decreases record.len() - k,
    {
        proof {
            let next = fields.take(k + 1);
            assert(next.drop_last() =~= fields.take(k as int));
        }
        if k > 0 {
            out.push(',');
        }
        push_field(out, record[k].as_str());
        k = k + 1;
    }
    assert(fields.take(k as int) =~= fields);
    out.push('\n');
}

/// Writes records as delimited text, one line for each.
pub fn write_records(records: &Vec<Vec<String>>) -> (text: String)
    ensures
        text@ == text_of_records(records.deep_view()),
{
    let mut text = String::new();
    let ghost all = records.deep_view();
    let mut k: usize = 0;
    while k < records.len()
        invariant
            0 <= k <= records.len(),
            all == records.deep_view(),
            text@ == text_of_records(all.take(k as int)),
        decreases records.len() - k,
    {
        proof {
            let next = all.take(k + 1);
            assert(next.drop_last() =~= all.take(k as int));
        }
        push_record(&mut text, &records[k]);
        k = k + 1;
    }
    assert(all.take(k as int) =~= all);
    text
}

} // verus!
