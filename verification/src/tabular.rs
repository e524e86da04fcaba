//! Rows of uploaded files.
use crate::archive::{is_sound_archive, sound_archive};
use crate::compound::{compound, is_compound, is_sound_compound, sound_compound};
use crate::flow::told;
use crate::json::{law_set_then_get, lookup, set_in, with_field, Json, JsonV};
use crate::number::{i64_value, parse_i64};
use crate::post::Fields;
use crate::text::{
    ends_with, finishes_with, lowercase, push_item, same, strip_both, stripped, to_lowercase, trim,
    trimmed,
};
use calamine::{Data, Range, Reader, Xlsx};
use serde_json::Number;
use std::io::Cursor;
use vstd::prelude::*;
use vstd::string::*;

verus! {

// ---------------------------------------------------------------------------
// Outside functions
// ---------------------------------------------------------------------------

/// A header and the records under it.
#[derive(Debug)]
pub struct Table {
    pub header: Vec<String>,
    pub records: Vec<Vec<String>>,
}

/// What a table is.
pub struct TableV {
    pub header: Seq<Seq<char>>,
    pub records: Seq<Seq<Seq<char>>>,
}

impl DeepView for Table {
    type V = TableV;

    open spec fn deep_view(&self) -> TableV {
        TableV { header: self.header.deep_view(), records: self.records.deep_view() }
    }
}

/// What kind of value a cell of a sheet holds: a number with a fraction by the
/// numeral that JSON has for it, where there is one.
#[derive(Debug)]
pub enum CellKind {
    Empty,
    Truth(bool),
    Integer,
    Fraction(Option<String>),
    Fault(String),
    Other,
}

/// What kind of value a cell holds.
pub enum CellKindV {
    Empty,
    Truth(bool),
    Integer,
    Fraction(Option<Seq<char>>),
    Fault(Seq<char>),
    Other,
}

impl DeepView for CellKind {
    type V = CellKindV;

    open spec fn deep_view(&self) -> CellKindV {
        match self {
            CellKind::Empty => CellKindV::Empty,
            CellKind::Truth(b) => CellKindV::Truth(*b),
            CellKind::Integer => CellKindV::Integer,
            CellKind::Fraction(t) => CellKindV::Fraction(t.deep_view()),
            CellKind::Fault(s) => CellKindV::Fault(s@),
            CellKind::Other => CellKindV::Other,
        }
    }
}

/// A cell of a sheet: its text, and what kind of value it holds.
#[derive(Debug)]
pub struct Cell {
    pub text: String,
    pub kind: CellKind,
}

/// What a cell is.
pub struct CellV {
    pub text: Seq<char>,
    pub kind: CellKindV,
}

impl DeepView for Cell {
    type V = CellV;

    open spec fn deep_view(&self) -> CellV {
        CellV { text: self.text@, kind: self.kind.deep_view() }
    }
}

/// Why the first sheet of a workbook cannot be read: the file is damaged, the
/// workbook cannot be opened, it has no sheet, or the sheet cannot be read, as two
/// ways to tell it.
#[derive(Debug)]
pub enum SheetFault {
    Damaged,
    Open(String),
    Missing,
    Sheet(String, String),
}

/// Why a sheet cannot be read.
pub enum SheetFaultV {
    Damaged,
    Open(Seq<char>),
    Missing,
    Sheet(Seq<char>, Seq<char>),
}

impl DeepView for SheetFault {
    type V = SheetFaultV;

    open spec fn deep_view(&self) -> SheetFaultV {
        match self {
            SheetFault::Damaged => SheetFaultV::Damaged,
            SheetFault::Open(e) => SheetFaultV::Open(e@),
            SheetFault::Missing => SheetFaultV::Missing,
            SheetFault::Sheet(e, d) => SheetFaultV::Sheet(e@, d@),
        }
    }
}

/// What a result of reading a sheet is.
pub open spec fn sheet_result(r: Result<Vec<Vec<Cell>>, SheetFault>) -> Result<
    Seq<Seq<CellV>>,
    SheetFaultV,
> {
    match r {
        Ok(s) => Ok(s.deep_view()),
        Err(e) => Err(e.deep_view()),
    }
}

/// What a result of reading is.
pub open spec fn read_result<T: DeepView>(r: Result<T, String>) -> Result<T::V, Seq<char>> {
    match r {
        Ok(t) => Ok(t.deep_view()),
        Err(e) => Err(e@),
    }
}

/// The table that the `csv` crate reads in some bytes, or the message of its
/// error.
pub uninterp spec fn csv_read(bytes: Seq<u8>) -> Result<TableV, Seq<char>>;

/// `csv::Reader` with a header and records of any length: what it reads depends
/// on the bytes alone. The first record that cannot be read is the error.
#[verifier::external_body]
pub(crate) fn read_csv(bytes: &Vec<u8>) -> (r: Result<Table, String>)
    ensures
        read_result(r) == csv_read(bytes@),
{
    let mut builder = csv::ReaderBuilder::new();
    let mut rdr = builder.has_headers(true).flexible(true).from_reader(bytes.as_slice());
    let texts = |rec: &csv::StringRecord| rec.iter().map(str::to_owned).collect::<Vec<String>>();
    let header = rdr.headers().map(texts).map_err(|e| e.to_string())?;
    let records: Result<Vec<Vec<String>>, csv::Error> =
        rdr.records().map(|rec| rec.map(|rec| texts(&rec))).collect();
    Ok(Table { header, records: records.map_err(|e| e.to_string())? })
}

/// A sheet of `calamine`.
#[verifier::external_type_specification]
#[verifier::external_body]
#[verifier::reject_recursive_types(T)]
pub struct ExRange<T>(calamine::Range<T>);

/// A value of `calamine`.
#[verifier::external_type_specification]
#[verifier::external_body]
pub struct ExData(calamine::Data);

/// The cells of a sheet of `calamine`, row by row.
pub uninterp spec fn range_cells(range: calamine::Range<calamine::Data>) -> Seq<Seq<CellV>>;

/// What `calamine` reads as the first sheet of a workbook, by its cells, or why it
/// cannot.
pub uninterp spec fn opened_sheet(bytes: Seq<u8>) -> Result<Seq<Seq<CellV>>, SheetFaultV>;

/// What a result of opening a sheet is.
pub open spec fn range_result(r: Result<Range<Data>, SheetFault>) -> Result<
    Seq<Seq<CellV>>,
    SheetFaultV,
> {
    match r {
        Ok(s) => Ok(range_cells(s)),
        Err(e) => Err(e.deep_view()),
    }
}

/// Whether a file is sound: as an archive, and where it begins as a compound
/// document, also as one.
pub open spec fn is_sound_file(bytes: Seq<u8>) -> bool {
    &&& is_compound(bytes) ==> is_sound_compound(bytes)
    &&& is_sound_archive(bytes)
}

/// `calamine::Xlsx::new` and `worksheet_range_at` for the first sheet: what is read
/// depends on the bytes alone. Files that are not sound are left out: in them the
/// places of cells, the spans of sheets, the counts of texts and brackets, and the
/// chains of sectors are taken as they stand, and computed with.
#[verifier::external_body]
fn open_sheet(bytes: &Vec<u8>) -> (r: Result<Range<Data>, SheetFault>)
    requires
        is_sound_file(bytes@),
    ensures
        range_result(r) == opened_sheet(bytes@),
{
    let opened: Result<Xlsx<_>, _> = Xlsx::new(Cursor::new(bytes));
    let mut book = opened.map_err(|e| SheetFault::Open(e.to_string()))?;
    let first = book.worksheet_range_at(0).ok_or(SheetFault::Missing)?;
    first.map_err(|e| SheetFault::Sheet(e.to_string(), format!("{:?}", e)))
}

/// `calamine::Range::rows`, with the text and the kind of each cell.
#[verifier::external_body]
fn list_cells(range: &Range<Data>) -> (r: Vec<Vec<Cell>>)
    ensures
        r.deep_view() == range_cells(*range),
{
    let kind = |c: &Data| match c {
        Data::Empty => CellKind::Empty,
        Data::Bool(b) => CellKind::Truth(*b),
        Data::Int(_) => CellKind::Integer,
        Data::Float(x) => CellKind::Fraction(Number::from_f64(*x).map(|n| n.to_string())),
        Data::Error(e) => CellKind::Fault(format!("{:?}", e)),
        _ => CellKind::Other,
    };
    let cell = |c: &Data| Cell { text: c.to_string(), kind: kind(c) };
    range.rows().map(|row| row.iter().map(cell).collect()).collect()
}

/// The type of a file that the `infer` crate recognises in its first bytes.
pub uninterp spec fn inferred_type(bytes: Seq<u8>) -> Option<Seq<char>>;

/// `infer::get`: the type that it recognises depends on the bytes alone.
#[verifier::external_body]
pub(crate) fn infer_type(bytes: &Vec<u8>) -> (r: Option<String>)
    ensures
        r.deep_view() == inferred_type(bytes@),
{
    infer::get(bytes).map(|k| k.mime_type().to_owned())
}

// ---------------------------------------------------------------------------
// The kind of a file
// ---------------------------------------------------------------------------

/// The kind of an uploaded file.
#[derive(Debug, PartialEq, Eq, Clone, Copy, Structural)]
pub enum FileKind {
    Xlsx,
    Csv,
    Unsupported,
}

/// The kind of an uploaded file, by its name, the type that was declared for it,
/// and the type that was recognised in it.
pub open spec fn kind_of_file(
    name: Seq<char>,
    declared: Option<Seq<char>>,
    recognised: Option<Seq<char>>,
) -> FileKind {
    let low = lowercase(name);
    let sheet = "application/vnd.openxmlformats-officedocument.spreadsheetml.sheet"@;
    if ends_with(low, ".xlsx"@) || (recognised == Some("application/zip"@) && declared == Some(
        sheet,
    )) {
        FileKind::Xlsx
    } else if ends_with(low, ".csv"@) || declared == Some("text/csv"@) {
        FileKind::Csv
    } else {
        FileKind::Unsupported
    }
}

fn is_text(v: &Option<String>, s: &str) -> (r: bool)
    ensures
        r == (v.deep_view() == Some(s@)),
{
    match v {
        Some(t) => same(t.as_str(), s),
        None => false,
    }
}

/// The kind of an uploaded file.
pub fn file_kind(name: &str, declared: &Option<String>, recognised: &Option<String>) -> (r: FileKind)
    ensures
        r == kind_of_file(name@, declared.deep_view(), recognised.deep_view()),
{
    let low = to_lowercase(name);
    if finishes_with(low.as_str(), ".xlsx") || (is_text(recognised, "application/zip") && is_text(
        declared,
        "application/vnd.openxmlformats-officedocument.spreadsheetml.sheet",
    )) {
        FileKind::Xlsx
    } else if finishes_with(low.as_str(), ".csv") || is_text(declared, "text/csv") {
        FileKind::Csv
    } else {
        FileKind::Unsupported
    }
}

// ---------------------------------------------------------------------------
// Rows
// ---------------------------------------------------------------------------

/// Texts trimmed.
pub open spec fn all_trimmed(texts: Seq<Seq<char>>) -> Seq<Seq<char>> {
    Seq::new(texts.len(), |i: int| trim(texts[i]))
}

/// Texts trimmed.
pub fn trim_all(texts: &Vec<String>) -> (r: Vec<String>)
    ensures
        r.deep_view() == all_trimmed(texts.deep_view()),
{
    let ghost all = all_trimmed(texts.deep_view());
    let mut out: Vec<String> = Vec::new();
    let mut i: usize = 0;
    while i < texts.len()
        invariant
            i <= texts@.len(),
            all == all_trimmed(texts.deep_view()),
            out.deep_view() == all.take(i as int),
        decreases texts.len() - i,
    {
        push_item(&mut out, trimmed(texts[i].as_str()));
        i += 1;
        assert(all.take(i as int) =~= all.take(i - 1).push(all[i - 1]));
    }
    assert(all.take(texts@.len() as int) =~= all);
    out
}

/// How the texts of a record become the fields of a row.
#[derive(Debug, PartialEq, Eq, Clone, Copy, Structural)]
pub enum RowStyle {
    /// Trimmed, under headings that are not empty.
    Trimmed,
    /// Trimmed and not blank, under headings that are not empty.
    NotBlank,
    /// As they are, under any heading.
    Verbatim,
}

/// A row with one text of a record set under its heading.
pub open spec fn with_text(
    row: Fields,
    heading: Seq<char>,
    text: Seq<char>,
    style: RowStyle,
) -> Fields {
    match style {
        RowStyle::Trimmed => if heading.len() > 0 {
            with_field(row, heading, JsonV::Str(trim(text)))
        } else {
            row
        },
        RowStyle::NotBlank => if heading.len() > 0 && trim(text).len() > 0 {
            with_field(row, heading, JsonV::Str(trim(text)))
        } else {
            row
        },
        RowStyle::Verbatim => with_field(row, heading, JsonV::Str(text)),
    }
}

/// The row of a record: each text under the heading in its place; a text without
/// one is left out.
pub open spec fn row_of(
    header: Seq<Seq<char>>,
    record: Seq<Seq<char>>,
    style: RowStyle,
) -> Fields
    decreases record.len(),
{
    if record.len() == 0 {
        Seq::empty()
    } else {
        let before = row_of(header, record.drop_last(), style);
        let i = record.len() - 1;
        if i < header.len() {
            with_text(before, header[i], record.last(), style)
        } else {
            before
        }
    }
}

/// The rows of some records; rows without fields are left out, but verbatim.
pub open spec fn rows_of_records(
    header: Seq<Seq<char>>,
    records: Seq<Seq<Seq<char>>>,
    style: RowStyle,
) -> Seq<Fields>
    decreases records.len(),
{
    if records.len() == 0 {
        Seq::empty()
    } else {
        let before = rows_of_records(header, records.drop_last(), style);
        let row = row_of(header, records.last(), style);
        if row.len() > 0 || style == RowStyle::Verbatim {
            before.push(row)
        } else {
            before
        }
    }
}

fn set_text(row: &mut Vec<(String, Json)>, heading: &str, text: &str, style: RowStyle)
    ensures
        final(row).deep_view() == with_text(old(row).deep_view(), heading@, text@, style),
{
    match style {
        RowStyle::Trimmed => {
            if !heading.is_empty() {
                set_in(row, heading, Json::Str(trimmed(text)));
            }
        },
        RowStyle::NotBlank => {
            let t = trimmed(text);
            if !heading.is_empty() && !t.as_str().is_empty() {
                set_in(row, heading, Json::Str(t));
            }
        },
        RowStyle::Verbatim => {
            set_in(row, heading, Json::Str(text.to_owned()));
        },
    }
}

/// The row of a record.
pub fn build_row(header: &Vec<String>, record: &Vec<String>, style: RowStyle) -> (r: Vec<
    (String, Json),
>)
    ensures
        r.deep_view() == row_of(header.deep_view(), record.deep_view(), style),
{
    let ghost hs = header.deep_view();
    let ghost rs = record.deep_view();
    let mut row: Vec<(String, Json)> = Vec::new();
    let mut i: usize = 0;
    assert(row.deep_view() =~= row_of(hs, rs.take(0), style));
    while i < record.len()
        invariant
            i <= record@.len(),
            hs == header.deep_view(),
            rs == record.deep_view(),
            row.deep_view() == row_of(hs, rs.take(i as int), style),
        decreases record.len() - i,
    {
        assert(rs.take(i + 1).drop_last() =~= rs.take(i as int));
        assert(rs[i as int] == record@[i as int]@);
        if i < header.len() {
            assert(hs[i as int] == header@[i as int]@);
            set_text(&mut row, header[i].as_str(), record[i].as_str(), style);
        }
        i += 1;
    }
    assert(rs.take(rs.len() as int) =~= rs);
    row
}

/// The rows of the records `records[from..]`.
pub fn build_rows(header: &Vec<String>, records: &Vec<Vec<String>>, from: usize, style: RowStyle) -> (r: Vec<
    Vec<(String, Json)>,
>)
    requires
        from <= records@.len(),
    ensures
        r.deep_view() == rows_of_records(
            header.deep_view(),
            records.deep_view().skip(from as int),
            style,
        ),
{
    let ghost hs = header.deep_view();
    let ghost all = records.deep_view().skip(from as int);
    let mut rows: Vec<Vec<(String, Json)>> = Vec::new();
    let mut i: usize = from;
    assert(rows.deep_view() =~= rows_of_records(hs, all.take(0), style));
    while i < records.len()
        invariant
            from <= i <= records@.len(),
            hs == header.deep_view(),
            all == records.deep_view().skip(from as int),
            rows.deep_view() == rows_of_records(hs, all.take(i - from), style),
        decreases records.len() - i,
    {
        assert(all.take(i + 1 - from).drop_last() =~= all.take(i - from));
        assert(all[i - from] == records@[i as int].deep_view());
        let row = build_row(header, &records[i], style);
        assert(row.deep_view().len() == row@.len());
        if row.len() > 0 || style == RowStyle::Verbatim {
            push_item(&mut rows, row);
        }
        i += 1;
    }
    assert(all.take(all.len() as int) =~= all);
    rows
}

/// The rows of a CSV file whose texts are trimmed, or what is wrong with it.
pub open spec fn csv_rows(table: Result<TableV, Seq<char>>, style: RowStyle) -> Result<
    Seq<Fields>,
    Seq<char>,
> {
    match table {
        Ok(t) => Ok(rows_of_records(all_trimmed(t.header), t.records, style)),
        Err(e) => Err(e),
    }
}

/// The rows of a table.
pub fn rows_of_table(t: &Table, style: RowStyle) -> (r: Vec<Vec<(String, Json)>>)
    ensures
        r.deep_view() == rows_of_records(
            all_trimmed(t.header.deep_view()),
            t.records.deep_view(),
            style,
        ),
{
    let header = trim_all(&t.header);
    assert(t.records.deep_view().skip(0) =~= t.records.deep_view());
    build_rows(&header, &t.records, 0, style)
}

/// The rows of a CSV file, or what is wrong with it.
pub fn parse_csv(bytes: &Vec<u8>, style: RowStyle) -> (r: Result<Vec<Vec<(String, Json)>>, String>)
    ensures
        read_result(r) == csv_rows(csv_read(bytes@), style),
{
    match read_csv(bytes) {
        Ok(t) => Ok(rows_of_table(&t, style)),
        Err(e) => Err(e),
    }
}

/// The texts of some cells.
pub open spec fn cell_texts(cells: Seq<CellV>) -> Seq<Seq<char>> {
    Seq::new(cells.len(), |i: int| cells[i].text)
}

fn list_texts(cells: &Vec<Cell>) -> (r: Vec<String>)
    ensures
        r.deep_view() == cell_texts(cells.deep_view()),
{
    let ghost all = cell_texts(cells.deep_view());
    let mut out: Vec<String> = Vec::new();
    let mut i: usize = 0;
    while i < cells.len()
        invariant
            i <= cells@.len(),
            all == cell_texts(cells.deep_view()),
            out.deep_view() == all.take(i as int),
        decreases cells.len() - i,
    {
        push_item(&mut out, cells[i].text.clone());
        i += 1;
        assert(all.take(i as int) =~= all.take(i - 1).push(all[i - 1]));
    }
    assert(all.take(cells@.len() as int) =~= all);
    out
}

/// The rows of the first sheet of a workbook, or why they cannot be read.
pub open spec fn first_sheet(bytes: Seq<u8>) -> Result<Seq<Seq<CellV>>, SheetFaultV> {
    if is_sound_file(bytes) {
        opened_sheet(bytes)
    } else {
        Err(SheetFaultV::Damaged)
    }
}

/// Whether a file is sound.
pub fn sound_file(bytes: &Vec<u8>) -> (r: bool)
    ensures
        r == is_sound_file(bytes@),
{
    (!compound(bytes) || sound_compound(bytes)) && sound_archive(bytes)
}

/// The rows of the first sheet of a workbook, or why they cannot be read.
pub fn read_sheet(bytes: &Vec<u8>) -> (r: Result<Vec<Vec<Cell>>, SheetFault>)
    ensures
        sheet_result(r) == first_sheet(bytes@),
{
    if !sound_file(bytes) {
        return Err(SheetFault::Damaged);
    }
    match open_sheet(bytes) {
        Ok(range) => Ok(list_cells(&range)),
        Err(e) => Err(e),
    }
}

/// The texts of a sheet.
pub open spec fn sheet_texts(sheet: Seq<Seq<CellV>>) -> Seq<Seq<Seq<char>>> {
    Seq::new(sheet.len(), |i: int| cell_texts(sheet[i]))
}

fn list_sheet_texts(sheet: &Vec<Vec<Cell>>) -> (r: Vec<Vec<String>>)
    ensures
        r.deep_view() == sheet_texts(sheet.deep_view()),
{
    let ghost sv = sheet.deep_view();
    let ghost all = sheet_texts(sv);
    let mut out: Vec<Vec<String>> = Vec::new();
    let mut i: usize = 0;
    while i < sheet.len()
        invariant
            i <= sheet@.len(),
            sv == sheet.deep_view(),
            all == sheet_texts(sv),
            out.deep_view() == all.take(i as int),
        decreases sheet.len() - i,
    {
        assert(sv[i as int] == sheet@[i as int].deep_view());
        push_item(&mut out, list_texts(&sheet[i]));
        i += 1;
        assert(all.take(i as int) =~= all.take(i - 1).push(all[i - 1]));
    }
    assert(all.take(sheet@.len() as int) =~= all);
    out
}

/// Headings of a sheet: trimmed, without quotes around them.
pub open spec fn sheet_header(first: Seq<Seq<char>>) -> Seq<Seq<char>> {
    Seq::new(first.len(), |i: int| strip_both(trim(first[i]), '"'))
}

/// The rows of a sheet of texts: the first is the header.
pub open spec fn text_rows(sheet: Seq<Seq<Seq<char>>>) -> Seq<Fields> {
    if sheet.len() == 0 {
        Seq::empty()
    } else {
        rows_of_records(sheet_header(sheet[0]), sheet.skip(1), RowStyle::NotBlank)
    }
}

fn build_sheet_header(first: &Vec<String>) -> (r: Vec<String>)
    ensures
        r.deep_view() == sheet_header(first.deep_view()),
{
    let ghost all = sheet_header(first.deep_view());
    let mut out: Vec<String> = Vec::new();
    let mut i: usize = 0;
    while i < first.len()
        invariant
            i <= first@.len(),
            all == sheet_header(first.deep_view()),
            out.deep_view() == all.take(i as int),
        decreases first.len() - i,
    {
        let t = trimmed(first[i].as_str());
        push_item(&mut out, stripped(t.as_str(), '"'));
        i += 1;
        assert(all.take(i as int) =~= all.take(i - 1).push(all[i - 1]));
    }
    assert(all.take(first@.len() as int) =~= all);
    out
}

/// The rows of a sheet of texts.
pub fn rows_of_texts(sheet: &Vec<Vec<String>>) -> (r: Vec<Vec<(String, Json)>>)
    ensures
        r.deep_view() == text_rows(sheet.deep_view()),
{
    if sheet.len() == 0 {
        let none: Vec<Vec<(String, Json)>> = Vec::new();
        assert(none.deep_view() =~= Seq::empty());
        return none;
    }
    assert(sheet.deep_view()[0] == sheet@[0].deep_view());
    let header = build_sheet_header(&sheet[0]);
    build_rows(&header, sheet, 1, RowStyle::NotBlank)
}

/// What is said of a file that is not sound.
pub open spec fn damaged() -> Seq<char> {
    "The workbook is damaged"@
}

/// The rows of a workbook whose cells are read as texts, or what is wrong with
/// it.
pub open spec fn text_sheet_rows(sheet: Result<Seq<Seq<CellV>>, SheetFaultV>) -> Result<
    Seq<Fields>,
    Seq<char>,
> {
    match sheet {
        Ok(s) => Ok(text_rows(sheet_texts(s))),
        Err(SheetFaultV::Damaged) => Err(damaged()),
        Err(SheetFaultV::Open(e)) => Err(e),
        Err(SheetFaultV::Missing) => Err("No worksheet"@),
        Err(SheetFaultV::Sheet(e, _)) => Err(e),
    }
}

/// The rows of a workbook whose cells are read as texts, or what is wrong with
/// it.
pub fn parse_xlsx(bytes: &Vec<u8>) -> (r: Result<Vec<Vec<(String, Json)>>, String>)
    ensures
        read_result(r) == text_sheet_rows(first_sheet(bytes@)),
{
    match read_sheet(bytes) {
        Ok(sheet) => {
            let texts = list_sheet_texts(&sheet);
            Ok(rows_of_texts(&texts))
        },
        Err(f) => match f {
            SheetFault::Damaged => Err("The workbook is damaged".to_owned()),
            SheetFault::Open(e) => Err(e),
            SheetFault::Missing => Err("No worksheet".to_owned()),
            SheetFault::Sheet(e, _) => Err(e),
        },
    }
}

/// A cell as a JSON value: a number for which JSON has no numeral is a zero.
pub open spec fn cell_json(c: CellV) -> JsonV {
    match c.kind {
        CellKindV::Empty => JsonV::Null,
        CellKindV::Truth(b) => JsonV::Bool(b),
        CellKindV::Integer => match i64_value(c.text) {
            Some(n) => JsonV::Int(n),
            None => JsonV::Str(c.text),
        },
        CellKindV::Fraction(Some(t)) => JsonV::Float(t),
        CellKindV::Fraction(None) => JsonV::Int(0),
        CellKindV::Fault(s) => JsonV::Str(s),
        CellKindV::Other => JsonV::Str(c.text),
    }
}

/// A cell as a JSON value.
pub fn json_of_cell(c: &Cell) -> (r: Json)
    ensures
        r.deep_view() == cell_json(c.deep_view()),
{
    match &c.kind {
        CellKind::Empty => Json::Null,
        CellKind::Truth(b) => Json::Bool(*b),
        CellKind::Integer => match parse_i64(c.text.as_str()) {
            Some(n) => Json::Int(n),
            None => Json::Str(c.text.clone()),
        },
        CellKind::Fraction(t) => match t {
            Some(t) => Json::Float(t.clone()),
            None => Json::Int(0),
        },
        CellKind::Fault(s) => Json::Str(s.clone()),
        CellKind::Other => Json::Str(c.text.clone()),
    }
}

/// The row of some cells: each under the heading in its place.
pub open spec fn cell_row(header: Seq<Seq<char>>, cells: Seq<CellV>) -> Fields
    decreases cells.len(),
{
    if cells.len() == 0 {
        Seq::empty()
    } else {
        let before = cell_row(header, cells.drop_last());
        let i = cells.len() - 1;
        if i < header.len() {
            with_field(before, header[i], cell_json(cells.last()))
        } else {
            before
        }
    }
}

/// The rows of a sheet of cells below its header.
pub open spec fn cell_rows(header: Seq<Seq<char>>, sheet: Seq<Seq<CellV>>) -> Seq<Fields> {
    Seq::new(
        if sheet.len() == 0 {
            0
        } else {
            (sheet.len() - 1) as nat
        },
        |i: int| cell_row(header, sheet[i + 1]),
    )
}

fn build_cell_row(header: &Vec<String>, cells: &Vec<Cell>) -> (r: Vec<(String, Json)>)
    ensures
        r.deep_view() == cell_row(header.deep_view(), cells.deep_view()),
{
    let ghost hs = header.deep_view();
    let ghost cs = cells.deep_view();
    let mut row: Vec<(String, Json)> = Vec::new();
    let mut i: usize = 0;
    assert(row.deep_view() =~= cell_row(hs, cs.take(0)));
    while i < cells.len()
        invariant
            i <= cells@.len(),
            hs == header.deep_view(),
            cs == cells.deep_view(),
            row.deep_view() == cell_row(hs, cs.take(i as int)),
        decreases cells.len() - i,
    {
        assert(cs.take(i + 1).drop_last() =~= cs.take(i as int));
        assert(cs[i as int] == cells@[i as int].deep_view());
        if i < header.len() {
            assert(hs[i as int] == header@[i as int]@);
            set_in(&mut row, header[i].as_str(), json_of_cell(&cells[i]));
        }
        i += 1;
    }
    assert(cs.take(cs.len() as int) =~= cs);
    row
}

/// The rows of a sheet of cells below its header.
pub fn rows_of_cells(header: &Vec<String>, sheet: &Vec<Vec<Cell>>) -> (r: Vec<Vec<(String, Json)>>)
    ensures
        r.deep_view() == cell_rows(header.deep_view(), sheet.deep_view()),
{
    let ghost all = cell_rows(header.deep_view(), sheet.deep_view());
    let mut rows: Vec<Vec<(String, Json)>> = Vec::new();
    let mut i: usize = 1;
    assert(rows.deep_view() =~= all.take(0));
    while i < sheet.len()
        invariant
            1 <= i,
            sheet@.len() > 0 ==> i <= sheet@.len(),
            sheet@.len() == 0 ==> i == 1,
            all == cell_rows(header.deep_view(), sheet.deep_view()),
            rows.deep_view() == all.take(i - 1),
        decreases sheet.len() - i,
    {
        assert(sheet.deep_view()[i as int] == sheet@[i as int].deep_view());
        push_item(&mut rows, build_cell_row(header, &sheet[i]));
        assert(all[i - 1] == cell_row(header.deep_view(), sheet.deep_view()[i as int]));
        i += 1;
        assert(all.take(i - 1) =~= all.take(i - 2).push(all[i - 2]));
    }
    assert(all.take(i - 1) =~= all);
    rows
}

/// The headings of a sheet: the texts of its first row, trimmed.
pub open spec fn cell_header(sheet: Seq<Seq<CellV>>) -> Seq<Seq<char>> {
    if sheet.len() > 0 {
        all_trimmed(cell_texts(sheet[0]))
    } else {
        Seq::empty()
    }
}

/// The rows of a workbook whose cells are read as values, or what is wrong with
/// it.
pub open spec fn cell_sheet_rows(sheet: Result<Seq<Seq<CellV>>, SheetFaultV>) -> Result<
    Seq<Fields>,
    Seq<char>,
> {
    match sheet {
        Ok(s) => Ok(cell_rows(cell_header(s), s)),
        Err(SheetFaultV::Damaged) => Err("Failed to open XLSX: "@ + damaged()),
        Err(SheetFaultV::Open(e)) => Err("Failed to open XLSX: "@ + e),
        Err(SheetFaultV::Missing) => Err("No sheets"@),
        Err(SheetFaultV::Sheet(_, d)) => Err("Sheet error: "@ + d),
    }
}

/// The rows of a workbook whose cells are read as values, or what is wrong with
/// it.
pub fn parse_xlsx_cells(bytes: &Vec<u8>) -> (r: Result<Vec<Vec<(String, Json)>>, String>)
    ensures
        read_result(r) == cell_sheet_rows(first_sheet(bytes@)),
{
    match read_sheet(bytes) {
        Ok(sheet) => {
            assert(sheet.deep_view().len() == sheet@.len());
            let header = if sheet.len() > 0 {
                assert(sheet.deep_view()[0] == sheet@[0].deep_view());
                let texts = list_texts(&sheet[0]);
                trim_all(&texts)
            } else {
                let none: Vec<String> = Vec::new();
                assert(none.deep_view() =~= Seq::empty());
                none
            };
            Ok(rows_of_cells(&header, &sheet))
        },
        Err(f) => match f {
            SheetFault::Damaged => Err(told("Failed to open XLSX: ", "The workbook is damaged")),
            SheetFault::Open(e) => Err(told("Failed to open XLSX: ", e.as_str())),
            SheetFault::Missing => Err("No sheets".to_owned()),
            SheetFault::Sheet(_, d) => Err(told("Sheet error: ", d.as_str())),
        },
    }
}

/// Recognises the kind of an uploaded file.
pub fn detect_kind(name: &str, declared: &Option<String>, bytes: &Vec<u8>) -> (r: FileKind)
    ensures
        r == kind_of_file(name@, declared.deep_view(), inferred_type(bytes@)),
{
    let recognised = infer_type(bytes);
    file_kind(name, declared, &recognised)
}

// ---------------------------------------------------------------------------
// Laws
// ---------------------------------------------------------------------------

/// A row holds its record: under each heading stands the text in its place, trimmed
/// unless texts are taken verbatim. Where headings repeat, the last place counts.
pub proof fn law_rows_hold_their_records(
    header: Seq<Seq<char>>,
    record: Seq<Seq<char>>,
    style: RowStyle,
    j: int,
)
    requires
        0 <= j < record.len(),
        j < header.len(),
        style == RowStyle::Verbatim || header[j].len() > 0,
        style == RowStyle::NotBlank ==> trim(record[j]).len() > 0,
        forall|k: int| j < k < header.len() ==> #[trigger] header[k] != header[j],
    ensures
        lookup(row_of(header, record, style), header[j]) == Some(
            JsonV::Str(
                if style == RowStyle::Verbatim {
                    record[j]
                } else {
                    trim(record[j])
                },
            ),
        ),
    decreases record.len(),
{
    let i = record.len() - 1;
    let before = row_of(header, record.drop_last(), style);
    if i < header.len() {
        law_set_then_get(before, header[i], JsonV::Str(trim(record[i])), header[j]);
        law_set_then_get(before, header[i], JsonV::Str(record[i]), header[j]);
    }
    if j < i {
        assert(record.drop_last()[j] == record[j]);
        law_rows_hold_their_records(header, record.drop_last(), style, j);
        if i < header.len() {
            assert(header[i] != header[j]);
        }
    }
}

/// No record is left out: each has its row, and, where every record has fields, the
/// rows stand in the order of the records, one for each.
pub proof fn law_no_record_is_left_out(
    header: Seq<Seq<char>>,
    records: Seq<Seq<Seq<char>>>,
    style: RowStyle,
    i: int,
)
    requires
        0 <= i < records.len(),
        style == RowStyle::Verbatim || forall|k: int|
            0 <= k < records.len() ==> row_of(header, #[trigger] records[k], style).len() > 0,
    ensures
        rows_of_records(header, records, style).len() == records.len(),
        rows_of_records(header, records, style)[i] == row_of(header, records[i], style),
    decreases records.len(),
{
    let before = records.drop_last();
    assert(row_of(header, records[records.len() - 1], style).len() > 0 || style
        == RowStyle::Verbatim);
    if before.len() > 0 {
        assert forall|k: int| 0 <= k < before.len() && style != RowStyle::Verbatim implies row_of(
            header,
            #[trigger] before[k],
            style,
        ).len() > 0 by {
            assert(before[k] == records[k]);
        }
        law_no_record_is_left_out(
            header,
            before,
            style,
            if i < before.len() {
                i
            } else {
                0
            },
        );
    } else {
        assert(rows_of_records(header, before, style).len() == 0);
    }
}

/// The first row of a sheet names the fields, and the rows below it are the rows: a
/// sheet of texts whose rows all have fields has a row for each below the first,
/// in their order.
pub proof fn law_sheets_have_their_rows(sheet: Seq<Seq<Seq<char>>>, i: int, j: int)
    requires
        1 <= i < sheet.len(),
        0 <= j < sheet[i].len(),
        j < sheet[0].len(),
        forall|k: int|
            1 <= k < sheet.len() ==> row_of(
                sheet_header(sheet[0]),
                #[trigger] sheet[k],
                RowStyle::NotBlank,
            ).len() > 0,
        sheet_header(sheet[0])[j].len() > 0,
        trim(sheet[i][j]).len() > 0,
        forall|k: int|
            j < k < sheet[0].len() ==> #[trigger] sheet_header(sheet[0])[k] != sheet_header(
                sheet[0],
            )[j],
    ensures
        text_rows(sheet).len() == sheet.len() - 1,
        lookup(text_rows(sheet)[i - 1], strip_both(trim(sheet[0][j]), '"')) == Some(
            JsonV::Str(trim(sheet[i][j])),
        ),
{
    let header = sheet_header(sheet[0]);
    let records = sheet.skip(1);
    assert forall|k: int| 0 <= k < records.len() implies row_of(
        header,
        #[trigger] records[k],
        RowStyle::NotBlank,
    ).len() > 0 by {
        assert(records[k] == sheet[k + 1]);
    }
    law_no_record_is_left_out(header, records, RowStyle::NotBlank, i - 1);
    law_rows_hold_their_records(header, sheet[i], RowStyle::NotBlank, j);
}

/// A sheet of cells has a row for each below the first, in their order, and in it,
/// under each heading, the value of the cell in its place: an integer, a truth
/// value, null for an empty cell, and the text of any other.
pub proof fn law_cells_are_read_as_values(sheet: Seq<Seq<CellV>>, i: int, j: int)
    requires
        1 <= i < sheet.len(),
        0 <= j < sheet[i].len(),
        j < sheet[0].len(),
        forall|k: int|
            j < k < sheet[0].len() ==> trim((#[trigger] sheet[0][k]).text) != trim(sheet[0][j].text),
    ensures
        ({
            let rows = cell_rows(cell_header(sheet), sheet);
            let heading = trim(sheet[0][j].text);
            let cell = sheet[i][j];
            &&& rows.len() == sheet.len() - 1
            &&& match cell.kind {
                CellKindV::Empty => lookup(rows[i - 1], heading) == Some(JsonV::Null),
                CellKindV::Truth(b) => lookup(rows[i - 1], heading) == Some(JsonV::Bool(b)),
                CellKindV::Integer => i64_value(cell.text) is Some ==> lookup(rows[i - 1], heading)
                    == Some(JsonV::Int(i64_value(cell.text)->0)),
                CellKindV::Fraction(Some(t)) => lookup(rows[i - 1], heading) == Some(
                    JsonV::Float(t),
                ),
                CellKindV::Other => lookup(rows[i - 1], heading) == Some(JsonV::Str(cell.text)),
                _ => lookup(rows[i - 1], heading) is Some,
            }
        }),
{
    let header = cell_header(sheet);
    assert forall|k: int| j < k < header.len() implies #[trigger] header[k] != header[j] by {
        assert(trim(sheet[0][k].text) != trim(sheet[0][j].text));
    }
    lemma_cell_row(header, sheet[i], j);
}

proof fn lemma_cell_row(header: Seq<Seq<char>>, cells: Seq<CellV>, j: int)
    requires
        0 <= j < cells.len(),
        j < header.len(),
        forall|k: int| j < k < header.len() ==> #[trigger] header[k] != header[j],
    ensures
        lookup(cell_row(header, cells), header[j]) == Some(cell_json(cells[j])),
    decreases cells.len(),
{
    let i = cells.len() - 1;
    let before = cell_row(header, cells.drop_last());
    if i < header.len() {
        law_set_then_get(before, header[i], cell_json(cells[i]), header[j]);
    }
    if j < i {
        assert(cells.drop_last()[j] == cells[j]);
        lemma_cell_row(header, cells.drop_last(), j);
        if i < header.len() {
            assert(header[i] != header[j]);
        }
    }
}

} // verus!
