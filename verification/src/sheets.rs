//! Files that tables are written to.
use crate::number::int_text;
use crate::text::{copy_texts, join, push_item, replace};
use rust_xlsxwriter::{Format, Workbook};
use vstd::prelude::*;
use vstd::string::*;
use vstd::utf8::encode_utf8;

verus! {

// ---------------------------------------------------------------------------
// CSV
// ---------------------------------------------------------------------------

/// A field of a record: in quotes, with the quotes in it doubled, where it holds a
/// comma, a quote or the end of a line.
pub open spec fn csv_field(f: Seq<char>) -> Seq<char> {
    if f.contains(',') || f.contains('"') || f.contains('\r') || f.contains('\n') {
        "\""@ + replace(f, "\""@, "\"\""@) + "\""@
    } else {
        f
    }
}

/// A record as a line: its fields with commas between them. A line that would be
/// empty holds two quotes.
pub open spec fn csv_line(record: Seq<Seq<char>>) -> Seq<char> {
    let line = join(Seq::new(record.len(), |i: int| csv_field(record[i])), ","@);
    (if line.len() == 0 {
        "\"\""@
    } else {
        line
    }) + "\n"@
}

/// Records as lines.
pub open spec fn csv_text(records: Seq<Seq<Seq<char>>>) -> Seq<char>
    decreases records.len(),
{
    if records.len() == 0 {
        Seq::empty()
    } else {
        csv_text(records.drop_last()) + csv_line(records.last())
    }
}

/// What is said of a record that has not as many fields as the first.
pub open spec fn uneven(found: int, first: int) -> Seq<char> {
    "CSV error: found record with "@ + int_text(found)
        + " fields, but the previous record has "@ + int_text(first) + " fields"@
}

/// What is said of the first of some records, at or after `from`, that has not as
/// many fields as the first of all.
pub open spec fn csv_fault(records: Seq<Seq<Seq<char>>>, from: int) -> Option<Seq<char>>
    decreases records.len() - from,
{
    if from < 0 || from >= records.len() {
        None
    } else if records[from].len() != records[0].len() {
        Some(uneven(records[from].len() as int, records[0].len() as int))
    } else {
        csv_fault(records, from + 1)
    }
}

/// The bytes of some records as CSV, or why they cannot be written: not all have
/// as many fields as the first.
pub open spec fn csv_written(records: Seq<Seq<Seq<char>>>) -> Result<Seq<u8>, Seq<char>> {
    match csv_fault(records, 0) {
        Some(e) => Err(e),
        None => Ok(encode_utf8(csv_text(records))),
    }
}

/// What a result of writing is.
pub open spec fn written_result(r: Result<Vec<u8>, String>) -> Result<Seq<u8>, Seq<char>> {
    match r {
        Ok(bytes) => Ok(bytes@),
        Err(e) => Err(e@),
    }
}

/// Whether records have as many fields as the first.
pub open spec fn same_lengths(records: Seq<Seq<Seq<char>>>) -> bool {
    forall|i: int| 0 <= i < records.len() ==> (#[trigger] records[i]).len() == records[0].len()
}

/// `csv::Writer::write_record` for one record after the other, into memory, with
/// commas between fields, a line feed behind each record, and quotes where they
/// are necessary. It fails exactly where a record has another number of fields
/// than the first, and says so.
#[verifier::external_body]
fn csv_encode(records: &Vec<Vec<String>>) -> (r: Result<Vec<u8>, String>)
    ensures
        written_result(r) == csv_written(records.deep_view()),
{
    let mut wtr = csv::WriterBuilder::new().has_headers(true).from_writer(Vec::new());
    records.iter().try_for_each(|rec| wtr.write_record(rec)).map_err(|e| e.to_string())?;
    wtr.into_inner().map_err(|e| e.to_string())
}

proof fn lemma_csv_fault(records: Seq<Seq<Seq<char>>>, from: int)
    requires
        0 <= from <= records.len(),
        forall|i: int| 0 <= i < from ==> (#[trigger] records[i]).len() == records[0].len(),
    ensures
        csv_fault(records, from) is None <==> same_lengths(records),
    decreases records.len() - from,
{
    if from < records.len() && records[from].len() == records[0].len() {
        lemma_csv_fault(records, from + 1);
    }
}

/// The records of a table: its header, where it has one, and its rows.
pub open spec fn table_records(headers: Seq<Seq<char>>, rows: Seq<Seq<Seq<char>>>) -> Seq<
    Seq<Seq<char>>,
> {
    if headers.len() > 0 {
        seq![headers] + rows
    } else {
        rows
    }
}

/// The bytes of a table as CSV. An error where its rows are not of the same
/// length.
pub fn write_csv(headers: &Vec<String>, rows: &Vec<Vec<String>>) -> (r: Result<Vec<u8>, String>)
    ensures
        r is Ok <==> same_lengths(table_records(headers.deep_view(), rows.deep_view())),
        written_result(r) == csv_written(table_records(headers.deep_view(), rows.deep_view())),
{
    let mut records: Vec<Vec<String>> = Vec::new();
    assert(headers.deep_view().len() == headers@.len());
    if headers.len() > 0 {
        push_item(&mut records, copy_texts(headers));
    }
    let ghost start = records.deep_view();
    let ghost rs = rows.deep_view();
    let mut i: usize = 0;
    assert(start + rs.take(0) =~= start);
    while i < rows.len()
        invariant
            i <= rows@.len(),
            rs == rows.deep_view(),
            records.deep_view() == start + rs.take(i as int),
        decreases rows.len() - i,
    {
        push_item(&mut records, copy_texts(&rows[i]));
        i += 1;
        assert(rs.take(i as int) =~= rs.take(i - 1).push(rs[i - 1]));
        assert(records.deep_view() =~= start + rs.take(i as int));
    }
    assert(rs.take(rs.len() as int) =~= rs);
    assert(records.deep_view() =~= table_records(headers.deep_view(), rs));
    proof {
        lemma_csv_fault(records.deep_view(), 0);
    }
    csv_encode(&records)
}

// ---------------------------------------------------------------------------
// Workbooks
// ---------------------------------------------------------------------------

/// A workbook.
#[verifier::external_type_specification]
#[verifier::external_body]
pub struct ExWorkbook(Workbook);

/// The cells of the first sheet of a workbook: the text of each, and whether it
/// is bold.
pub uninterp spec fn sheet(book: Workbook) -> Map<(int, int), (Seq<char>, bool)>;

/// How many sheets a workbook has.
pub uninterp spec fn sheet_count(book: Workbook) -> nat;

/// The number of units of 16 bits that a text takes.
pub open spec fn utf16_len(s: Seq<char>) -> nat
    decreases s.len(),
{
    if s.len() == 0 {
        0
    } else {
        utf16_len(s.drop_last()) + if (s.last() as u32) < 0x1_0000 {
            1nat
        } else {
            2nat
        }
    }
}

/// A sheet without cells.
pub open spec fn no_cells() -> Map<(int, int), (Seq<char>, bool)> {
    Map::empty()
}

/// A sheet with a text put into a cell. An empty text that is not bold is passed
/// over.
pub open spec fn with_cell(
    page: Map<(int, int), (Seq<char>, bool)>,
    row: int,
    col: int,
    text: Seq<char>,
    bold: bool,
) -> Map<(int, int), (Seq<char>, bool)> {
    if !bold && text.len() == 0 {
        page
    } else {
        page.insert((row, col), (text, bold))
    }
}

/// What a sheet and the texts in it are: the cells by their places, each with
/// whether it is bold.
pub type Page = Map<(int, int), (Seq<char>, bool)>;

/// Why a text cannot be put into a cell: the sheet has no such cell, or the text
/// is too long for one.
pub open spec fn put_fault(row: int, col: int, text: Seq<char>, bold: bool) -> Option<Seq<char>> {
    if !bold && text.len() == 0 {
        None
    } else if row >= 1_048_576 || col >= 16_384 {
        Some("Row or column exceeds Excel's allowed limits (1,048,576 x 16,384)."@)
    } else if utf16_len(text) > 32_767 {
        Some("String exceeds Excel's limit of 32,767 characters."@)
    } else {
        None
    }
}

/// What a result with a message is.
pub open spec fn fault_in(r: Result<(), String>) -> Option<Seq<char>> {
    match r {
        Ok(_) => None,
        Err(e) => Some(e@),
    }
}

/// `rust_xlsxwriter::Workbook::new` with `add_worksheet`: a workbook with one
/// empty sheet.
#[verifier::external_body]
fn new_workbook() -> (r: Workbook)
    ensures
        sheet_count(r) == 1,
        sheet(r) == no_cells(),
{
    let mut book = Workbook::new();
    book.add_worksheet();
    book
}

/// `rust_xlsxwriter::Worksheet::write_string` on the first sheet: it puts the
/// text into the cell. An empty text is passed over. It fails exactly where the
/// sheet has no such cell, or where the text is too long for one, and says so.
#[verifier::external_body]
fn put_text(book: &mut Workbook, row: u32, col: u16, text: &str) -> (r: Result<(), String>)
    requires
        sheet_count(*old(book)) == 1,
    ensures
        sheet_count(*final(book)) == 1,
        fault_in(r) == put_fault(row as int, col as int, text@, false),
        r is Ok ==> sheet(*final(book)) == with_cell(
            sheet(*old(book)),
            row as int,
            col as int,
            text@,
            false,
        ),
{
    let page = book.worksheet_from_index(0).map_err(|e| e.to_string())?;
    page.write_string(row, col, text).map_err(|e| e.to_string())?;
    Ok(())
}

/// `rust_xlsxwriter::Worksheet::write_string_with_format` on the first sheet, in
/// bold: it puts the text, be it empty, into the cell. It fails exactly where
/// the sheet has no such cell, or where the text is too long for one, and says so.
#[verifier::external_body]
fn put_heading(book: &mut Workbook, row: u32, col: u16, text: &str) -> (r: Result<(), String>)
    requires
        sheet_count(*old(book)) == 1,
    ensures
        sheet_count(*final(book)) == 1,
        fault_in(r) == put_fault(row as int, col as int, text@, true),
        r is Ok ==> sheet(*final(book)) == with_cell(
            sheet(*old(book)),
            row as int,
            col as int,
            text@,
            true,
        ),
{
    let bold = Format::new().set_bold();
    let page = book.worksheet_from_index(0).map_err(|e| e.to_string())?;
    page.write_string_with_format(row, col, text, &bold).map_err(|e| e.to_string())?;
    Ok(())
}

/// What `rust_xlsxwriter` saves a workbook as, or why it cannot: the archive that
/// the workbook becomes can outgrow what can be written.
pub uninterp spec fn saved(book: Workbook) -> Result<Seq<u8>, Seq<char>>;

/// Whether bytes begin as those of an archive do.
pub open spec fn is_archive(bytes: Seq<u8>) -> bool {
    &&& bytes.len() >= 4
    &&& bytes[0] == 0x50
    &&& bytes[1] == 0x4b
    &&& bytes[2] == 0x03
    &&& bytes[3] == 0x04
}

/// `rust_xlsxwriter::Workbook::save_to_buffer`: what a workbook is saved as depends
/// on the workbook alone, and begins with the mark of an archive. The time that
/// the bytes hold is that at which the workbook was made, which is part of it.
#[verifier::external_body]
fn save_workbook(book: Workbook) -> (r: Result<Vec<u8>, String>)
    ensures
        written_result(r) == saved(book),
        r is Ok ==> is_archive(r->Ok_0@),
{
    let mut book = book;
    book.save_to_buffer().map_err(|e| e.to_string())
}

/// A sheet with the first `n` texts of a line put into a row, or why one cannot be
/// put there.
pub open spec fn with_line(
    page: Page,
    row: int,
    line: Seq<Seq<char>>,
    bold: bool,
    n: int,
) -> Result<Page, Seq<char>>
    decreases n,
{
    if n <= 0 {
        Ok(page)
    } else {
        match with_line(page, row, line, bold, n - 1) {
            Ok(before) => {
                let text = line[n - 1];
                let col = (n - 1) % 0x1_0000;
                match put_fault(row, col, text, bold) {
                    Some(e) => Err(e),
                    None => Ok(with_cell(before, row, col, text, bold)),
                }
            },
            Err(e) => Err(e),
        }
    }
}

/// A sheet with the first `n` lines put into the rows from `top` on, or why one
/// cannot be put there.
pub open spec fn with_lines(page: Page, top: int, lines: Seq<Seq<Seq<char>>>, n: int) -> Result<
    Page,
    Seq<char>,
>
    decreases n,
{
    if n <= 0 {
        Ok(page)
    } else {
        match with_lines(page, top, lines, n - 1) {
            Ok(before) => with_line(
                before,
                top + n - 1,
                lines[n - 1],
                false,
                lines[n - 1].len() as int,
            ),
            Err(e) => Err(e),
        }
    }
}

/// The sheet of a table: its header in bold, where it has one, and its rows; or
/// why the table does not fit.
pub open spec fn table_sheet(headers: Seq<Seq<char>>, rows: Seq<Seq<Seq<char>>>) -> Result<
    Page,
    Seq<char>,
> {
    if headers.len() > 0 {
        match with_line(no_cells(), 0, headers, true, headers.len() as int) {
            Ok(page) => with_lines(page, 1, rows, rows.len() as int),
            Err(e) => Err(e),
        }
    } else {
        with_lines(no_cells(), 0, rows, rows.len() as int)
    }
}

proof fn lemma_line_fails(
    page: Page,
    row: int,
    line: Seq<Seq<char>>,
    bold: bool,
    k: int,
    n: int,
)
    requires
        k <= n,
        with_line(page, row, line, bold, k) is Err,
    ensures
        with_line(page, row, line, bold, n) == with_line(page, row, line, bold, k),
    decreases n - k,
{
    if k < n {
        lemma_line_fails(page, row, line, bold, k, n - 1);
    }
}

proof fn lemma_lines_fail(page: Page, top: int, lines: Seq<Seq<Seq<char>>>, k: int, n: int)
    requires
        k <= n,
        with_lines(page, top, lines, k) is Err,
    ensures
        with_lines(page, top, lines, n) == with_lines(page, top, lines, k),
    decreases n - k,
{
    if k < n {
        lemma_lines_fail(page, top, lines, k, n - 1);
    }
}

fn put_line(book: &mut Workbook, row: u32, line: &Vec<String>, bold: bool) -> (r: Result<
    (),
    String,
>)
    requires
        sheet_count(*old(book)) == 1,
    ensures
        sheet_count(*final(book)) == 1,
        match r {
            Ok(_) => with_line(
                sheet(*old(book)),
                row as int,
                line.deep_view(),
                bold,
                line@.len() as int,
            ) == Ok::<Page, Seq<char>>(sheet(*final(book))),
            Err(e) => with_line(
                sheet(*old(book)),
                row as int,
                line.deep_view(),
                bold,
                line@.len() as int,
            ) == Err::<Page, Seq<char>>(e@),
        },
{
    let ghost page = sheet(*book);
    let ghost ls = line.deep_view();
    let mut i: usize = 0;
    while i < line.len()
        invariant
            i <= line@.len(),
            ls == line.deep_view(),
            page == sheet(*old(book)),
            sheet_count(*book) == 1,
            with_line(page, row as int, ls, bold, i as int) == Ok::<Page, Seq<char>>(sheet(*book)),
        decreases line.len() - i,
    {
        let col: u16 = (i % 0x1_0000) as u16;
        assert(ls[i as int] == line@[i as int]@);
        let put = if bold {
            put_heading(book, row, col, line[i].as_str())
        } else {
            put_text(book, row, col, line[i].as_str())
        };
        match put {
            Ok(_) => {},
            Err(e) => {
                proof {
                    assert(with_line(page, row as int, ls, bold, i + 1) == Err::<Page, Seq<char>>(
                        e@,
                    ));
                    lemma_line_fails(page, row as int, ls, bold, i + 1, line@.len() as int);
                }
                return Err(e);
            },
        }
        i += 1;
    }
    Ok(())
}

/// Whether a workbook has one sheet, and it is this one.
pub open spec fn holds(book: Workbook, page: Page) -> bool {
    sheet_count(book) == 1 && sheet(book) == page
}

/// A workbook whose sheet holds a table, or why the table does not fit into one.
pub fn build_workbook(headers: &Vec<String>, rows: &Vec<Vec<String>>) -> (r: Result<
    Workbook,
    String,
>)
    requires
        rows@.len() < u32::MAX,
    ensures
        match r {
            Ok(book) => match table_sheet(headers.deep_view(), rows.deep_view()) {
                Ok(page) => holds(book, page),
                Err(_) => false,
            },
            Err(e) => table_sheet(headers.deep_view(), rows.deep_view()) == Err::<
                Page,
                Seq<char>,
            >(e@),
        },
{
    let mut book = new_workbook();
    let ghost hs = headers.deep_view();
    let ghost rs = rows.deep_view();
    let mut top: u32 = 0;
    if headers.len() > 0 {
        match put_line(&mut book, 0, headers, true) {
            Ok(_) => {},
            Err(e) => {
                return Err(e);
            },
        }
        top = 1;
    }
    let ghost page = sheet(book);
    assert(hs.len() == headers@.len());
    assert(table_sheet(hs, rs) == with_lines(page, top as int, rs, rs.len() as int));
    let mut i: usize = 0;
    while i < rows.len()
        invariant
            i <= rows@.len(),
            rows@.len() < u32::MAX,
            top <= 1,
            rs == rows.deep_view(),
            table_sheet(hs, rs) == with_lines(page, top as int, rs, rs.len() as int),
            hs == headers.deep_view(),
            sheet_count(book) == 1,
            with_lines(page, top as int, rs, i as int) == Ok::<Page, Seq<char>>(sheet(book)),
        decreases rows.len() - i,
    {
        assert(rs[i as int] == rows@[i as int].deep_view());
        match put_line(&mut book, top + i as u32, &rows[i], false) {
            Ok(_) => {},
            Err(e) => {
                proof {
                    assert(with_lines(page, top as int, rs, i + 1) == Err::<Page, Seq<char>>(e@));
                    lemma_lines_fail(page, top as int, rs, i + 1, rs.len() as int);
                }
                return Err(e);
            },
        }
        i += 1;
    }
    Ok(book)
}

/// Why there is no workbook of a table: it does not fit into a sheet, or the
/// workbook cannot be saved.
#[derive(Debug, PartialEq)]
pub enum WorkbookFault {
    DoesNotFit(String),
    NotSaved(String),
}

/// Whether this came of saving a workbook.
pub open spec fn is_saved(book: Workbook, r: Result<Vec<u8>, WorkbookFault>) -> bool {
    match r {
        Ok(bytes) => saved(book) == Ok::<Seq<u8>, Seq<char>>(bytes@) && is_archive(bytes@),
        Err(WorkbookFault::NotSaved(m)) => saved(book) == Err::<Seq<u8>, Seq<char>>(m@),
        Err(WorkbookFault::DoesNotFit(_)) => false,
    }
}

/// Whether this came of writing a table into a workbook. A table that does not fit
/// is refused, and why is said. A workbook that holds the table, and no other, is
/// saved where it can be, as the archive that this workbook is saved as; where it
/// cannot be, why is said.
pub open spec fn is_written_table(
    headers: Seq<Seq<char>>,
    rows: Seq<Seq<Seq<char>>>,
    r: Result<Vec<u8>, WorkbookFault>,
) -> bool {
    match table_sheet(headers, rows) {
        Err(e) => match r {
            Err(WorkbookFault::DoesNotFit(m)) => m@ == e,
            _ => false,
        },
        Ok(page) => exists|book: Workbook| holds(book, page) && #[trigger] is_saved(book, r),
    }
}

/// The bytes of a workbook whose sheet holds a table. They hold the time at which
/// the workbook was made.
pub fn write_xlsx(headers: &Vec<String>, rows: &Vec<Vec<String>>) -> (r: Result<
    Vec<u8>,
    WorkbookFault,
>)
    requires
        rows@.len() < u32::MAX,
    ensures
        is_written_table(headers.deep_view(), rows.deep_view(), r),
        (r is Err && r->Err_0 is DoesNotFit) <==> table_sheet(
            headers.deep_view(),
            rows.deep_view(),
        ) is Err,
{
    match build_workbook(headers, rows) {
        Ok(book) => {
            let ghost made = book;
            let ghost page = sheet(made);
            assert(holds(made, page));
            let r = match save_workbook(book) {
                Ok(bytes) => Ok(bytes),
                Err(e) => Err(WorkbookFault::NotSaved(e)),
            };
            assert(is_saved(made, r));
            r
        },
        Err(e) => Err(WorkbookFault::DoesNotFit(e)),
    }
}

// ---------------------------------------------------------------------------
// Laws
// ---------------------------------------------------------------------------

/// Whether a sheet has a text in a cell.
pub open spec fn has_text_at(page: Page, row: int, col: int, text: Seq<char>, bold: bool) -> bool {
    page.contains_key((row, col)) && page[(row, col)] == (text, bold)
}

proof fn lemma_line_holds(page: Page, row: int, line: Seq<Seq<char>>, bold: bool, n: int, c: int)
    requires
        0 <= n <= line.len(),
        n <= 0x1_0000,
        with_line(page, row, line, bold, n) is Ok,
    ensures
        ({
            let p = with_line(page, row, line, bold, n)->Ok_0;
            &&& forall|r: int, k: int|
                #![trigger p.contains_key((r, k))]
                #![trigger p[(r, k)]]
                r != row ==> p.contains_key((r, k)) == page.contains_key((r, k)) && p[(r, k)]
                    == page[(r, k)]
            &&& 0 <= c < n && (bold || line[c].len() > 0) ==> has_text_at(p, row, c, line[c], bold)
        }),
    decreases n,
{
    if n > 0 {
        lemma_line_holds(page, row, line, bold, n - 1, c);
        assert((n - 1) % 0x1_0000 == n - 1);
    }
}

proof fn lemma_lines_hold(
    page: Page,
    top: int,
    lines: Seq<Seq<Seq<char>>>,
    n: int,
    i: int,
    c: int,
)
    requires
        0 <= n <= lines.len(),
        forall|k: int| 0 <= k < lines.len() ==> (#[trigger] lines[k]).len() <= 0x1_0000,
        with_lines(page, top, lines, n) is Ok,
    ensures
        ({
            let p = with_lines(page, top, lines, n)->Ok_0;
            &&& forall|r: int, k: int|
                #![trigger p.contains_key((r, k))]
                #![trigger p[(r, k)]]
                r < top ==> p.contains_key((r, k)) == page.contains_key((r, k)) && p[(r, k)]
                    == page[(r, k)]
            &&& 0 <= i < n && 0 <= c < lines[i].len() && lines[i][c].len() > 0 ==> has_text_at(
                p,
                top + i,
                c,
                lines[i][c],
                false,
            )
        }),
    decreases n,
{
    if n > 0 {
        lemma_lines_hold(page, top, lines, n - 1, i, c);
        let before = with_lines(page, top, lines, n - 1)->Ok_0;
        let line = lines[n - 1];
        lemma_line_holds(before, top + n - 1, line, false, line.len() as int, c);
    }
}

/// The sheet of a table holds the table: its header in bold in the first row, and
/// below it its rows, each text in its place.
pub proof fn law_sheets_hold_their_table(
    headers: Seq<Seq<char>>,
    rows: Seq<Seq<Seq<char>>>,
    i: int,
    c: int,
)
    requires
        headers.len() > 0,
        headers.len() <= 0x1_0000,
        forall|k: int| 0 <= k < rows.len() ==> (#[trigger] rows[k]).len() <= 0x1_0000,
        table_sheet(headers, rows) is Ok,
    ensures
        ({
            let page = table_sheet(headers, rows)->Ok_0;
            &&& 0 <= c < headers.len() ==> has_text_at(page, 0, c, headers[c], true)
            &&& 0 <= i < rows.len() && 0 <= c < rows[i].len() && rows[i][c].len() > 0
                ==> has_text_at(page, i + 1, c, rows[i][c], false)
        }),
{
    lemma_line_holds(no_cells(), 0, headers, true, headers.len() as int, c);
    let page = with_line(no_cells(), 0, headers, true, headers.len() as int)->Ok_0;
    lemma_lines_hold(page, 1, rows, rows.len() as int, i, c);
}

} // verus!
