//! What an export appends to each of its output files.
//!
//! The JSON file holds one array: `[` when it is opened, then each record
//! pretty-printed, separated by commas, then `\n]` when the export is done.
//! The JSON Lines file holds each record as compact JSON, rendered here from
//! its fields, one per line. The CSV file
//! holds a header row with the field names of the first record, then one row
//! per record, every field quoted, written by a `csv` writer that the sink
//! keeps for the whole export and hands out whole when the export ends. A record whose row has another number of
//! fields than the header stops the export's writing; the CSV file then ends
//! with what the writer had written of that row.

use crate::export::strings_view;
use crate::json::{json_quoted, json_string, json_string_value, lemma_json_quoted_reads_back};
use crate::text::{escape_controls, escape_controls_text, push_char};
use crate::types::{record_entries, record_get_index, record_len, ExportFormat, FieldValue, Record};
use vstd::prelude::*;
use vstd::utf8::encode_utf8;

verus! {

/// A record to export, with the pretty-printed JSON that `serde_json`
/// gives of it.
#[derive(Debug)]
pub struct ExportRecord {
    /// The record's fields
    pub fields: Record,
    /// The record as pretty-printed JSON
    pub pretty_json: String,
}

/// A field value as compact JSON: `null`, `true` or `false`, a number by its
/// JSON text, a string as a JSON string literal, arrays and objects by
/// their compact JSON text.
pub open spec fn value_json(v: FieldValue) -> Seq<char> {
    match v {
        FieldValue::Null => "null"@,
        FieldValue::Bool(b) => if b {
            "true"@
        } else {
            "false"@
        },
        FieldValue::Number(s) => s@,
        FieldValue::String(s) => json_quoted(s@),
        FieldValue::Array(t) => t@,
        FieldValue::Object(t) => t@,
    }
}

/// One member of a record's JSON object: the quoted field name, a colon,
/// the value's JSON.
pub open spec fn record_member(p: (Seq<char>, FieldValue)) -> Seq<char> {
    json_quoted(p.0) + seq![':'] + value_json(p.1)
}

/// The members of a record's JSON object, separated by commas.
pub open spec fn record_members(e: Seq<(Seq<char>, FieldValue)>) -> Seq<char>
    decreases e.len(),
{
    if e.len() == 0 {
        seq![]
    } else if e.len() == 1 {
        record_member(e[0])
    } else {
        record_members(e.drop_last()) + seq![','] + record_member(e.last())
    }
}

/// A record as compact JSON, as `serde_json` writes a map: its entries in
/// order, between braces.
pub open spec fn record_object(e: Seq<(Seq<char>, FieldValue)>) -> Seq<char> {
    seq!['{'] + record_members(e) + seq!['}']
}

/// Each field value's JSON text stands for that value: `true` for true and
/// `false` for false, `null` for null, a JSON string literal that reads
/// back to the string for a string, and the JSON text it carries for a
/// number, an array or an object.
pub proof fn lemma_value_json_denotes(v: FieldValue)
    ensures
        v matches FieldValue::Bool(b) ==> (value_json(v) == seq!['t', 'r', 'u', 'e'] <==> b),
        v matches FieldValue::Bool(b) ==> (value_json(v) == seq!['f', 'a', 'l', 's', 'e'] <==> !b),
        v is Null ==> value_json(v) == seq!['n', 'u', 'l', 'l'],
        v matches FieldValue::String(s) ==> json_string_value(value_json(v)) == Some(s@),
        v matches FieldValue::Number(t) ==> value_json(v) == t@,
        v matches FieldValue::Array(t) ==> value_json(v) == t@,
        v matches FieldValue::Object(t) ==> value_json(v) == t@,
{
    reveal_strlit("true");
    reveal_strlit("false");
    reveal_strlit("null");
    assert("true"@ =~= seq!['t', 'r', 'u', 'e']);
    assert("false"@ =~= seq!['f', 'a', 'l', 's', 'e']);
    assert("null"@ =~= seq!['n', 'u', 'l', 'l']);
    assert(seq!['t', 'r', 'u', 'e'] != seq!['f', 'a', 'l', 's', 'e']) by {
        assert(seq!['t', 'r', 'u', 'e'].len() != seq!['f', 'a', 'l', 's', 'e'].len());
    }
    if let FieldValue::String(s) = v {
        lemma_json_quoted_reads_back(s@);
    }
}

/// The members of a record's JSON object are separated by exactly one
/// comma, however many there are, and each is its field name's JSON string
/// literal, a colon and the value's JSON text.
pub proof fn lemma_record_members_push(e: Seq<(Seq<char>, FieldValue)>, p: (Seq<char>, FieldValue))
    ensures
        e.len() > 0 ==> record_members(e.push(p)) == record_members(e) + seq![','] + record_member(
            p,
        ),
        e.len() == 0 ==> record_members(e.push(p)) == record_member(p),
        json_string_value(record_member(p).take(json_quoted(p.0).len() as int)) == Some(p.0),
        record_member(p)[json_quoted(p.0).len() as int] == ':',
        record_member(p).skip(json_quoted(p.0).len() as int + 1) == value_json(p.1),
        record_object(Seq::<(Seq<char>, FieldValue)>::empty()) == seq!['{', '}'],
{
    assert(e.push(p).drop_last() =~= e);
    assert(e.push(p).last() == p);
    if e.len() == 0 {
        assert(e.push(p)[0] == p);
    }
    lemma_json_quoted_reads_back(p.0);
    let m = record_member(p);
    let k = json_quoted(p.0);
    assert(m.take(k.len() as int) =~= k);
    assert(m.skip(k.len() as int + 1) =~= value_json(p.1));
    assert(record_object(Seq::<(Seq<char>, FieldValue)>::empty()) =~= seq!['{', '}']);
}

/// The JSON text of a field value.
fn value_json_text(v: &FieldValue) -> (s: String)
    ensures
        s@ == value_json(*v),
{
    match v {
        FieldValue::Null => "null".to_owned(),
        FieldValue::Bool(b) => if *b {
            "true".to_owned()
        } else {
            "false".to_owned()
        },
        FieldValue::Number(s) => s.clone(),
        FieldValue::String(s) => match json_string(s.as_str()) {
            Ok(t) => t,
            Err(_) => String::new(),
        },
        FieldValue::Array(t) => t.clone(),
        FieldValue::Object(t) => t.clone(),
    }
}

/// A record as compact JSON.
pub fn record_json(r: &Record) -> (s: String)
    ensures
        s@ == record_object(record_entries(*r)),
{
    let ghost e = record_entries(*r);
    let n = record_len(r);
    let mut out = String::new();
    push_char(&mut out, '{');
    let mut i: usize = 0;
    while i < n
        invariant
            n == e.len(),
            e == record_entries(*r),
            i <= n,
            out@ == seq!['{'] + record_members(e.take(i as int)),
        decreases n - i,
    {
        match record_get_index(r, i) {
            Some((k, v)) => {
                let kq = match json_string(k.as_str()) {
                    Ok(t) => t,
                    Err(_) => String::new(),
                };
                let vq = value_json_text(v);
                if i > 0 {
                    push_char(&mut out, ',');
                }
                out.append(kq.as_str());
                push_char(&mut out, ':');
                out.append(vq.as_str());
                proof {
                    assert(e.take(i + 1).drop_last() =~= e.take(i as int));
                    assert(e.take(i + 1).last() == e[i as int]);
                    if i == 0 {
                        assert(e.take(1)[0] == e[0]);
                    }
                }
                assert(out@ =~= seq!['{'] + record_members(e.take(i + 1)));
            },
            None => {},
        }
        i = i + 1;
    }
    push_char(&mut out, '}');
    assert(e.take(n as int) =~= e);
    out
}

/// What to append to the JSON Lines and JSON files for one record.
#[derive(Debug)]
pub struct RecordOutput {
    /// What to append to the JSON Lines file, when one is written
    pub json_lines: Option<String>,
    /// What to append to the JSON file, when one is written
    pub json: Option<String>,
    /// The number of records written so far, when it is a multiple of 10000
    pub progress: Option<u64>,
    /// Whether writing stops here, because the record's CSV row does not fit the header
    pub stopped: bool,
}

/// The text of a field value in a CSV cell: strings with line breaks and
/// tabs escaped, numbers by their JSON rendering, `true` or `false`, arrays
/// and objects as compact JSON, and nothing for `null`.
pub open spec fn cell_value(v: FieldValue) -> Seq<char> {
    match v {
        FieldValue::Null => seq![],
        FieldValue::Bool(b) => if b {
            "true"@
        } else {
            "false"@
        },
        FieldValue::Number(s) => s@,
        FieldValue::String(s) => escape_controls(s@),
        FieldValue::Array(t) => t@,
        FieldValue::Object(t) => t@,
    }
}

/// The field names of a record's entries.
pub open spec fn entry_keys(e: Seq<(Seq<char>, FieldValue)>) -> Seq<Seq<char>> {
    e.map_values(|p: (Seq<char>, FieldValue)| p.0)
}

/// The CSV cells of a record's entries.
pub open spec fn entry_cells(e: Seq<(Seq<char>, FieldValue)>) -> Seq<Seq<char>> {
    e.map_values(|p: (Seq<char>, FieldValue)| cell_value(p.1))
}

/// What the JSON file gets for the record written as number `n` (from 0):
/// a separating comma after the first, then the pretty JSON and a line break.
pub open spec fn json_piece(n: nat, pretty: Seq<char>) -> Seq<char> {
    (if n == 0 {
        seq![]
    } else {
        seq![',', '\n']
    }) + pretty + seq!['\n']
}

/// How a CSV writer quotes its fields; the variants of `csv::QuoteStyle`.
#[derive(Debug, Clone, Copy, PartialEq, Eq, Structural)]
pub enum CsvQuoting {
    /// Every field is quoted
    Always,
    /// A field is quoted only where it needs to be
    Necessary,
    /// Every field that is not a number is quoted
    NonNumeric,
    /// No field is quoted
    Never,
}

/// What ends a CSV record; the variants of `csv::Terminator`.
#[derive(Debug, Clone, Copy, PartialEq, Eq, Structural)]
pub enum CsvTerminator {
    /// `\r\n`
    CRLF,
    /// The given byte
    Any(u8),
}

/// The settings a CSV writer is built with.
#[derive(Debug, Clone, Copy, PartialEq, Eq, Structural)]
pub struct CsvSettings {
    /// The quote byte
    pub quote: u8,
    /// The escape byte
    pub escape: u8,
    /// Which fields are quoted
    pub quoting: CsvQuoting,
    /// What ends each record
    pub terminator: CsvTerminator,
}

/// The settings of the export's CSV file: `"` quotes around every field,
/// `\\` as the escape byte, and CRLF line ends.
pub open spec fn export_csv_settings() -> CsvSettings {
    CsvSettings { quote: 34u8, escape: 92u8, quoting: CsvQuoting::Always, terminator: CsvTerminator::CRLF }
}

/// A `csv::Writer` over a `Vec<u8>`, seen only through the names and
/// wrappers below: the writer type's parameter is bound by
/// `std::io::Write`, so it is held in a field rather than declared.
#[verifier::external_body]
pub struct CsvWriter {
    inner: csv::Writer<Vec<u8>>,
}

#[verifier::external_type_specification]
#[verifier::external_body]
pub struct ExCsvError(csv::Error);

/// The bytes a CSV writer over a `Vec<u8>` holds: what it wrote to the
/// vector and what it still buffers, which `into_inner` hands out together.
pub uninterp spec fn csv_contents(w: CsvWriter) -> Seq<u8>;

/// The field count of the first record a CSV writer wrote, which every
/// later record must match; `None` before its first record.
pub uninterp spec fn csv_first_width(w: CsvWriter) -> Option<nat>;

/// The settings a CSV writer was built with.
pub uninterp spec fn csv_settings_of(w: CsvWriter) -> CsvSettings;

/// Whether a CSV writer stands between two records: it has written no field
/// of a record that it has not ended.
pub uninterp spec fn csv_between(w: CsvWriter) -> bool;

/// The bytes of `f` with every quote byte `q` doubled.
pub open spec fn doubled_quotes(f: Seq<u8>, q: u8) -> Seq<u8>
    decreases f.len(),
{
    if f.len() == 0 {
        seq![]
    } else {
        doubled_quotes(f.drop_last(), q) + if f.last() == q {
            seq![q, q]
        } else {
            seq![f.last()]
        }
    }
}

/// A field in quotes: its UTF-8 bytes, quote bytes doubled, between quote
/// bytes `q`.
pub open spec fn quoted_field(f: Seq<char>, q: u8) -> Seq<u8> {
    seq![q] + doubled_quotes(encode_utf8(f), q) + seq![q]
}

/// The quoted fields `fs`, separated by commas.
pub open spec fn quoted_fields(fs: Seq<Seq<char>>, q: u8) -> Seq<u8>
    decreases fs.len(),
{
    if fs.len() == 0 {
        seq![]
    } else if fs.len() == 1 {
        quoted_field(fs[0], q)
    } else {
        quoted_fields(fs.drop_last(), q) + seq![44u8] + quoted_field(fs.last(), q)
    }
}

/// The bytes of a record terminator.
pub open spec fn terminator_bytes(t: CsvTerminator) -> Seq<u8> {
    match t {
        CsvTerminator::CRLF => seq![13u8, 10u8],
        CsvTerminator::Any(b) => seq![b],
    }
}

/// What a CSV writer that quotes every field appends for a record with
/// fields `fs`, with quote byte `q` and terminator `t`. A record that fits
/// is its quoted fields separated by commas (a pair of quotes for a record
/// with no field), then the terminator. A record that does not fit stops
/// before the closing quote of its last field; one with no field adds
/// nothing.
pub open spec fn quoted_record(fs: Seq<Seq<char>>, q: u8, t: CsvTerminator, fits: bool) -> Seq<u8> {
    if fits {
        if fs.len() == 0 {
            seq![q, q] + terminator_bytes(t)
        } else {
            quoted_fields(fs, q) + terminator_bytes(t)
        }
    } else if fs.len() == 0 {
        seq![]
    } else {
        quoted_fields(fs, q).drop_last()
    }
}

/// The bytes that `csv::Writer::write_record` appends for a record with
/// fields `fields` under `settings` whose quote style is not `Always`, on a
/// writer that stands between two records: the whole record with its
/// terminator where its field count matches the writer's (`fits`), and
/// otherwise what it wrote before the count was checked.
pub uninterp spec fn csv_appended(fields: Seq<Seq<char>>, settings: CsvSettings, fits: bool) -> Seq<u8>;

/// `csv::WriterBuilder` with the given quote byte, quote style, escape byte
/// and terminator, building a writer over an empty `Vec<u8>`: it holds no
/// bytes, has written no record, and stands between records.
#[verifier::external_body]
fn csv_writer(settings: &CsvSettings) -> (w: CsvWriter)
    ensures
        csv_contents(w) == Seq::<u8>::empty(),
        csv_first_width(w) is None,
        csv_settings_of(w) == *settings,
        csv_between(w),
{
    let style = match settings.quoting {
        CsvQuoting::Always => csv::QuoteStyle::Always,
        CsvQuoting::Necessary => csv::QuoteStyle::Necessary,
        CsvQuoting::NonNumeric => csv::QuoteStyle::NonNumeric,
        CsvQuoting::Never => csv::QuoteStyle::Never,
    };
    let term = match settings.terminator {
        CsvTerminator::CRLF => csv::Terminator::CRLF,
        CsvTerminator::Any(b) => csv::Terminator::Any(b),
    };
    let inner = csv::WriterBuilder::new().quote(settings.quote).quote_style(style).escape(
        settings.escape,
    ).terminator(term).from_writer(Vec::new());
    CsvWriter { inner }
}

/// `csv::Writer::write_record` on a writer over a `Vec<u8>` that stands
/// between records. Writes into a vector do not fail, so the call fails
/// exactly when the record's field count differs from that of the writer's
/// first record. Either way the record's bytes are appended, whole or up to
/// the check: with every field quoted (`"` doubled inside a field, which
/// leaves the escape byte unused, and `,` between fields) as
/// `quoted_record` says, and otherwise as named by `csv_appended`. The
/// first record fixes the field count; after a call that succeeded the
/// writer stands between records again.
#[verifier::external_body]
fn csv_write_record(w: &mut CsvWriter, fields: &Vec<String>) -> (r: Result<(), csv::Error>)
    requires
        csv_between(*old(w)),
    ensures
        r is Ok <==> (csv_first_width(*old(w)) is None || csv_first_width(*old(w)) == Some(
            fields@.len(),
        )),
        csv_contents(*final(w)) == csv_contents(*old(w)) + if csv_settings_of(*old(w)).quoting
            == CsvQuoting::Always {
            quoted_record(
                strings_view(fields@),
                csv_settings_of(*old(w)).quote,
                csv_settings_of(*old(w)).terminator,
                r is Ok,
            )
        } else {
            csv_appended(strings_view(fields@), csv_settings_of(*old(w)), r is Ok)
        },
        csv_first_width(*final(w)) == if csv_first_width(*old(w)) is None {
            Some(fields@.len())
        } else {
            csv_first_width(*old(w))
        },
        csv_settings_of(*final(w)) == csv_settings_of(*old(w)),
        r is Ok ==> csv_between(*final(w)),
{
    w.inner.write_record(fields)
}

/// `csv::Writer::into_inner` on a writer over a `Vec<u8>`: flushing into a
/// vector does not fail, so it hands out the vector with every byte the
/// writer holds.
#[verifier::external_body]
fn csv_into_bytes(w: CsvWriter) -> (b: Vec<u8>)
    ensures
        b@ == csv_contents(w),
{
    match w.inner.into_inner() {
        Ok(v) => v,
        Err(_) => Vec::new(),
    }
}

/// The text of a field value in a CSV cell.
pub fn cell_text(v: &FieldValue) -> (s: String)
    ensures
        s@ == cell_value(*v),
{
    match v {
        FieldValue::Null => String::new(),
        FieldValue::Bool(b) => if *b {
            "true".to_owned()
        } else {
            "false".to_owned()
        },
        FieldValue::Number(s) => s.clone(),
        FieldValue::String(s) => escape_controls_text(s.as_str()),
        FieldValue::Array(t) => t.clone(),
        FieldValue::Object(t) => t.clone(),
    }
}

/// The field names and the CSV cells of a record, in order.
fn record_columns(r: &Record) -> (res: (Vec<String>, Vec<String>))
    ensures
        strings_view(res.0@) == entry_keys(record_entries(*r)),
        strings_view(res.1@) == entry_cells(record_entries(*r)),
{
    let ghost e = record_entries(*r);
    let n = record_len(r);
    let mut keys: Vec<String> = Vec::new();
    let mut cells: Vec<String> = Vec::new();
    let mut i: usize = 0;
    while i < n
        invariant
            n == e.len(),
            e == record_entries(*r),
            i <= n,
            strings_view(keys@) == entry_keys(e).take(i as int),
            strings_view(cells@) == entry_cells(e).take(i as int),
        decreases n - i,
    {
        match record_get_index(r, i) {
            Some((k, v)) => {
                let ghost kb = keys@;
                let ghost cb = cells@;
                keys.push(k.clone());
                cells.push(cell_text(v));
                assert(strings_view(keys@) =~= strings_view(kb).push(k@));
                assert(strings_view(cells@) =~= strings_view(cb).push(cell_value(*v)));
            },
            None => {},
        }
        assert(strings_view(keys@) =~= entry_keys(e).take(i + 1));
        assert(strings_view(cells@) =~= entry_cells(e).take(i + 1));
        i = i + 1;
    }
    assert(entry_keys(e).take(n as int) =~= entry_keys(e));
    assert(entry_cells(e).take(n as int) =~= entry_cells(e));
    (keys, cells)
}

/// The state of an export's writing: which files it writes, how many
/// records it has written, the CSV writer that holds the CSV file's bytes,
/// and whether writing has stopped.
pub struct ExportSink {
    json_lines: bool,
    json: bool,
    csv: Option<CsvWriter>,
    written: u64,
    stopped: bool,
}

/// What the files get once every record is written.
#[derive(Debug)]
pub struct SinkEnd {
    /// What to append to the JSON file, when one is written
    pub json: Option<String>,
    /// The whole CSV file, when one is written
    pub csv: Option<Vec<u8>>,
}

fn has_format(formats: &Vec<ExportFormat>, f: ExportFormat) -> (b: bool)
    ensures
        b == formats@.contains(f),
{
    let mut i: usize = 0;
    while i < formats.len()
        invariant
            i <= formats@.len(),
            forall|j: int| 0 <= j < i ==> formats@[j] != f,
        decreases formats@.len() - i,
    {
        if formats[i] == f {
            assert(formats@[i as int] == f);
            return true;
        }
        i = i + 1;
    }
    false
}

impl ExportSink {
    /// The sink's invariant: its CSV writer has the export's settings, has
    /// fixed its field count exactly when a record was written, and stands
    /// between records unless writing has stopped.
    pub closed spec fn wf(self) -> bool {
        self.csv matches Some(w) ==> {
            &&& csv_settings_of(w) == export_csv_settings()
            &&& (csv_first_width(w) is Some <==> self.written > 0)
            &&& (!self.stopped ==> csv_between(w))
        }
    }

    /// Whether a JSON Lines file is written.
    pub closed spec fn json_lines_on(self) -> bool {
        self.json_lines
    }

    /// Whether a JSON file is written.
    pub closed spec fn json_on(self) -> bool {
        self.json
    }

    /// Whether a CSV file is written.
    pub closed spec fn csv_on(self) -> bool {
        self.csv is Some
    }

    /// The bytes of the CSV file so far.
    pub closed spec fn csv_written(self) -> Seq<u8> {
        match self.csv {
            Some(w) => csv_contents(w),
            None => seq![],
        }
    }

    /// How many records have been written.
    pub closed spec fn written_count(self) -> nat {
        self.written as nat
    }

    /// The number of fields of the CSV header, once a record was written.
    pub closed spec fn header_width(self) -> nat {
        match self.csv {
            Some(w) => match csv_first_width(w) {
                Some(k) => k,
                None => 0,
            },
            None => 0,
        }
    }

    /// Whether writing has stopped.
    pub closed spec fn has_stopped(self) -> bool {
        self.stopped
    }

    /// Whether the CSV row of a record with fields `fields` does not fit the
    /// header written before it.
    pub open spec fn misfits(self, fields: Record) -> bool {
        self.csv_on() && self.written_count() > 0 && self.header_width() != record_entries(
            fields,
        ).len()
    }

    /// What the CSV file gets for a record with fields `fields`: the header
    /// row first when it is the first record, then its row, which is cut
    /// short where it does not fit the header.
    pub open spec fn csv_bytes(self, fields: Record) -> Seq<u8> {
        let e = record_entries(fields);
        if !self.csv_on() {
            seq![]
        } else if self.written_count() == 0 {
            quoted_record(entry_keys(e), 34u8, CsvTerminator::CRLF, true) + quoted_record(
                entry_cells(e),
                34u8,
                CsvTerminator::CRLF,
                true,
            )
        } else {
            quoted_record(entry_cells(e), 34u8, CsvTerminator::CRLF, !self.misfits(fields))
        }
    }

    /// Starts the writing of an export in the given formats.
    pub fn new(formats: &Vec<ExportFormat>) -> (s: ExportSink)
        ensures
            s.wf(),
            s.json_lines_on() == formats@.contains(ExportFormat::JsonLines),
            s.json_on() == formats@.contains(ExportFormat::Json),
            s.csv_on() == formats@.contains(ExportFormat::CSV),
            s.csv_written() == Seq::<u8>::empty(),
            s.written_count() == 0,
            !s.has_stopped(),
    {
        let csv = if has_format(formats, ExportFormat::CSV) {
            Some(
                csv_writer(
                    &CsvSettings {
                        quote: 34u8,
                        escape: 92u8,
                        quoting: CsvQuoting::Always,
                        terminator: CsvTerminator::CRLF,
                    },
                ),
            )
        } else {
            None
        };
        ExportSink {
            json_lines: has_format(formats, ExportFormat::JsonLines),
            json: has_format(formats, ExportFormat::Json),
            csv,
            written: 0,
            stopped: false,
        }
    }

    /// Whether a JSON Lines file is written.
    pub fn writes_json_lines(&self) -> (b: bool)
        ensures
            b == self.json_lines_on(),
    {
        self.json_lines
    }

    /// Whether a JSON file is written.
    pub fn writes_json(&self) -> (b: bool)
        ensures
            b == self.json_on(),
    {
        self.json
    }

    /// Whether a CSV file is written.
    pub fn writes_csv(&self) -> (b: bool)
        ensures
            b == self.csv_on(),
    {
        self.csv.is_some()
    }

    /// How many records have been written.
    pub fn written(&self) -> (n: u64)
        ensures
            n == self.written_count(),
    {
        self.written
    }

    /// Whether writing has stopped.
    pub fn stopped(&self) -> (b: bool)
        ensures
            b == self.has_stopped(),
    {
        self.stopped
    }

    /// What the JSON file starts with: the opening bracket of its array.
    pub fn opening(&self) -> (r: Option<String>)
        ensures
            r is Some <==> self.json_on(),
            r matches Some(t) ==> t@ == seq!['['],
    {
        if self.json {
            let mut t = String::new();
            push_char(&mut t, '[');
            Some(t)
        } else {
            None
        }
    }

    /// Writes one record: gives what to append to the JSON Lines and JSON
    /// files, adds its CSV row (after the header, for the first record) to
    /// the CSV file, and counts it, unless its CSV row does not fit the
    /// header, which stops the writing (the JSON Lines and JSON files still
    /// get the record, and the CSV file what the row's writing got to).
    pub fn accept(&mut self, record: &ExportRecord) -> (out: RecordOutput)
        requires
            old(self).wf(),
            !old(self).has_stopped(),
            old(self).written_count() < u64::MAX,
        ensures
            final(self).wf(),
            final(self).json_lines_on() == old(self).json_lines_on(),
            final(self).json_on() == old(self).json_on(),
            final(self).csv_on() == old(self).csv_on(),
            out.json_lines is Some <==> old(self).json_lines_on(),
            out.json_lines matches Some(t) ==> t@ == record_object(record_entries(record.fields))
                + seq!['\n'],
            out.json is Some <==> old(self).json_on(),
            out.json matches Some(t) ==> t@ == json_piece(
                old(self).written_count(),
                record.pretty_json@,
            ),
            final(self).csv_written() == old(self).csv_written() + old(self).csv_bytes(
                record.fields,
            ),
            out.stopped == old(self).misfits(record.fields),
            final(self).has_stopped() == old(self).misfits(record.fields),
            final(self).header_width() == if old(self).csv_on() && old(self).written_count() == 0 {
                record_entries(record.fields).len()
            } else {
                old(self).header_width()
            },
            final(self).written_count() == if old(self).misfits(record.fields) {
                old(self).written_count()
            } else {
                old(self).written_count() + 1
            },
            out.progress == if !old(self).misfits(record.fields) && (old(self).written_count() + 1)
                % 10000 == 0 {
                Some((old(self).written_count() + 1) as u64)
            } else {
                None
            },
    {
        let n = self.written;
        let json_lines = if self.json_lines {
            let mut t = record_json(&record.fields);
            push_char(&mut t, '\n');
            Some(t)
        } else {
            None
        };
        let json = if self.json {
            let mut t = String::new();
            if n != 0 {
                push_char(&mut t, ',');
                push_char(&mut t, '\n');
            }
            t.append(record.pretty_json.as_str());
            push_char(&mut t, '\n');
            assert(t@ =~= json_piece(n as nat, record.pretty_json@));
            Some(t)
        } else {
            None
        };
        let ghost e = record_entries(record.fields);
        let (keys, cells) = record_columns(&record.fields);
        assert(keys@.len() == strings_view(keys@).len());
        assert(cells@.len() == strings_view(cells@).len());
        assert(entry_keys(e).len() == e.len());
        assert(entry_cells(e).len() == e.len());
        let mut fits = true;
        match self.csv.take() {
            Some(mut w) => {
                if n == 0 {
                    let _ = csv_write_record(&mut w, &keys);
                }
                let r = csv_write_record(&mut w, &cells);
                fits = r.is_ok();
                self.csv = Some(w);
            },
            None => {},
        }
        if !fits {
            self.stopped = true;
            return RecordOutput { json_lines, json, progress: None, stopped: true };
        }
        self.written = n + 1;
        let progress = if self.written % 10000 == 0 {
            Some(self.written)
        } else {
            None
        };
        RecordOutput { json_lines, json, progress, stopped: false }
    }

    /// Ends the writing: the closing bracket of the JSON file's array, on a
    /// line of its own (nothing when writing has stopped), and the CSV
    /// file's bytes.
    pub fn finish(self) -> (end: SinkEnd)
        requires
            self.wf(),
        ensures
            end.json is Some <==> self.json_on() && !self.has_stopped(),
            end.json matches Some(t) ==> t@ == seq!['\n', ']'],
            end.csv is Some <==> self.csv_on(),
            end.csv matches Some(b) ==> b@ == self.csv_written(),
    {
        let json = if self.json && !self.stopped {
            let mut t = String::new();
            push_char(&mut t, '\n');
            push_char(&mut t, ']');
            Some(t)
        } else {
            None
        };
        let csv = match self.csv {
            Some(w) => Some(csv_into_bytes(w)),
            None => None,
        };
        SinkEnd { json, csv }
    }
}

/// What the JSON file gets for records with pretty texts `ps`, written in
/// that order from the first.
pub open spec fn json_pieces(ps: Seq<Seq<char>>) -> Seq<char>
    decreases ps.len(),
{
    if ps.len() == 0 {
        seq![]
    } else {
        json_pieces(ps.drop_last()) + json_piece((ps.len() - 1) as nat, ps.last())
    }
}

/// The texts `ps` joined with `sep` between each two.
pub open spec fn join_with(ps: Seq<Seq<char>>, sep: Seq<char>) -> Seq<char>
    decreases ps.len(),
{
    if ps.len() == 0 {
        seq![]
    } else if ps.len() == 1 {
        ps[0]
    } else {
        join_with(ps.drop_last(), sep) + sep + ps.last()
    }
}

proof fn lemma_json_pieces_join(ps: Seq<Seq<char>>)
    requires
        ps.len() > 0,
    ensures
        json_pieces(ps) == join_with(ps, seq!['\n', ',', '\n']) + seq!['\n'],
    decreases ps.len(),
{
    if ps.len() == 1 {
        assert(ps.drop_last() =~= Seq::<Seq<char>>::empty());
        assert(json_pieces(ps.drop_last()) == Seq::<char>::empty());
        assert(ps.last() == ps[0]);
        assert(json_piece(0, ps[0]) =~= ps[0] + seq!['\n']);
        assert(json_pieces(ps) =~= ps[0] + seq!['\n']);
    } else {
        lemma_json_pieces_join(ps.drop_last());
        assert(json_pieces(ps) =~= join_with(ps, seq!['\n', ',', '\n']) + seq!['\n']);
    }
}

/// The JSON file of an export is one array of the records, in the order they
/// were written: its opening bracket, the records' pieces and its closing
/// bracket form `[`, the pretty records separated by `\n,\n`, then `\n\n]`;
/// with no record it is `[\n]`.
pub proof fn lemma_json_file_is_array(ps: Seq<Seq<char>>)
    ensures
        ps.len() > 0 ==> seq!['['] + json_pieces(ps) + seq!['\n', ']'] == seq!['['] + join_with(
            ps,
            seq!['\n', ',', '\n'],
        ) + seq!['\n', '\n', ']'],
        ps.len() == 0 ==> seq!['['] + json_pieces(ps) + seq!['\n', ']'] == seq!['[', '\n', ']'],
{
    if ps.len() > 0 {
        lemma_json_pieces_join(ps);
        assert(seq!['['] + json_pieces(ps) + seq!['\n', ']'] =~= seq!['['] + join_with(
            ps,
            seq!['\n', ',', '\n'],
        ) + seq!['\n', '\n', ']']);
    } else {
        assert(seq!['['] + json_pieces(ps) + seq!['\n', ']'] =~= seq!['[', '\n', ']']);
    }
}

} // verus!
