use nocode::export::{build_table, encode_table, file_of_saved, find_missing_parameters, read_export_limit, sort_by_length, substitute_paramjoins, workbook_wanted};
use nocode::json::Json;
use nocode::sheets::{build_workbook, write_csv, write_xlsx, WorkbookFault};
use nocode::tabular::{detect_kind, parse_csv, parse_xlsx, parse_xlsx_cells, FileKind, RowStyle};

fn texts(list: &[&str]) -> Vec<String> {
    list.iter().map(|s| s.to_string()).collect()
}

fn text(s: &str) -> Json {
    Json::Str(s.to_string())
}

#[test]
fn tables_are_written_as_csv() {
    let bytes = write_csv(&texts(&["a", "b"]), &vec![texts(&["1", "x,\"y\""])]).unwrap();
    assert_eq!(String::from_utf8(bytes).unwrap(), "a,b\n1,\"x,\"\"y\"\"\"\n");
}

#[test]
fn lines_of_different_lengths_are_no_csv() {
    assert_eq!(
        write_csv(&texts(&["a", "b"]), &vec![texts(&["1"])]),
        Err("CSV error: found record with 1 fields, but the previous record has 2 fields".to_string())
    );
}

#[test]
fn fields_are_quoted_where_they_have_to_be() {
    let csv = |rows: &[&[&str]]| {
        let rows: Vec<Vec<String>> = rows.iter().map(|r| texts(r)).collect();
        String::from_utf8(write_csv(&Vec::new(), &rows).unwrap()).unwrap()
    };
    assert_eq!(csv(&[&["a b", "'c'"]]), "a b,'c'\n");
    assert_eq!(csv(&[&["a\rb", "c\nd"]]), "\"a\rb\",\"c\nd\"\n");
    assert_eq!(csv(&[&["\""]]), "\"\"\"\"\n");
    assert_eq!(csv(&[&[""]]), "\"\"\n");
    assert_eq!(csv(&[&["", ""]]), ",\n");
    assert_eq!(csv(&[&[]]), "\"\"\n");
}

#[test]
fn the_file_of_a_table_is_csv_where_no_workbook_was_saved() {
    let (header, lines) = (texts(&["a"]), vec![texts(&["1"])]);
    assert_eq!(file_of_saved(Ok(vec![7]), &header, &lines), vec![7]);
    let not_saved = WorkbookFault::NotSaved("full".to_string());
    assert_eq!(file_of_saved(Err(not_saved), &header, &lines), b"a\n1\n".to_vec());
}

/// A compound document with a directory of two entries, the second by this name.
fn compound_document(name: &str) -> Vec<u8> {
    let mut bytes = vec![0u8; 512];
    bytes[..8].copy_from_slice(&[0xd0, 0xcf, 0x11, 0xe0, 0xa1, 0xb1, 0x1a, 0xe1]);
    bytes[26] = 3;
    bytes[30] = 9;
    bytes[32] = 6;
    bytes[44] = 1;
    bytes[48] = 1;
    bytes[60..64].copy_from_slice(&0xffff_fffeu32.to_le_bytes());
    bytes[68..72].copy_from_slice(&0xffff_fffeu32.to_le_bytes());
    bytes[76..].fill(0xff);
    bytes[76..80].fill(0);
    let mut table = vec![0xffu8; 512];
    table[..4].copy_from_slice(&0xffff_fffdu32.to_le_bytes());
    table[4..8].copy_from_slice(&0xffff_fffeu32.to_le_bytes());
    let mut directory = vec![0u8; 512];
    for (i, unit) in name.encode_utf16().enumerate() {
        directory[128 + 2 * i..130 + 2 * i].copy_from_slice(&unit.to_le_bytes());
    }
    bytes.extend(table);
    bytes.extend(directory);
    bytes
}

#[test]
fn a_workbook_with_a_password_is_refused() {
    let bytes = compound_document("EncryptedPackage");
    let said = "Workbook is password protected";
    assert_eq!(parse_xlsx(&bytes), Err(said.to_string()));
    assert_eq!(parse_xlsx_cells(&bytes), Err(format!("Failed to open XLSX: {}", said)));
    let other = parse_xlsx(&compound_document("Workbook")).unwrap_err();
    assert!(other != said && other != "The workbook is damaged");
}

#[test]
fn compound_documents_whose_sectors_lie_elsewhere_are_damaged() {
    let said = Err("The workbook is damaged".to_string());
    let whole = compound_document("EncryptedPackage");
    let with = |at: usize, value: u32| {
        let mut bytes = whole.clone();
        bytes[at..at + 4].copy_from_slice(&value.to_le_bytes());
        bytes
    };
    assert_eq!(parse_xlsx(&with(68, 2)), said);
    assert_eq!(parse_xlsx(&with(76, 2)), said);
    assert_eq!(parse_xlsx(&with(48, 2)), said);
    assert_eq!(parse_xlsx(&with(516, 1)), said);
    assert_eq!(parse_xlsx(&with(516, 500)), said);
    assert_eq!(
        parse_xlsx_cells(&with(48, 2)),
        Err("Failed to open XLSX: The workbook is damaged".to_string())
    );
    let mut further = with(68, 2);
    further.extend(vec![0xffu8; 508]);
    further.extend(0xffff_fffeu32.to_le_bytes());
    assert_eq!(parse_xlsx(&further), Err("Workbook is password protected".to_string()));
    further[1536 + 508..].copy_from_slice(&2u32.to_le_bytes());
    assert_eq!(parse_xlsx(&further), said);
    let mut unknown = whole.clone();
    unknown[30] = 7;
    assert!(parse_xlsx(&unknown).is_err() && parse_xlsx(&unknown) != said);
}

/// A workbook with one text replaced in one of its parts.
fn altered(bytes: &[u8], part: &str, from: &str, to: &str) -> Vec<u8> {
    let mut archive = zip::ZipArchive::new(std::io::Cursor::new(bytes)).unwrap();
    let mut out = zip::ZipWriter::new(std::io::Cursor::new(Vec::new()));
    for i in 0..archive.len() {
        let mut file = archive.by_index(i).unwrap();
        let name = file.name().unwrap().to_string();
        let mut content = String::new();
        std::io::Read::read_to_string(&mut file, &mut content).unwrap();
        if name == part {
            assert!(content.contains(from));
            content = content.replace(from, to);
        }
        out.start_file(name, zip::write::SimpleFileOptions::default()).unwrap();
        std::io::Write::write_all(&mut out, content.as_bytes()).unwrap();
    }
    out.finish().unwrap().into_inner()
}

const SHEET: &str = "xl/worksheets/sheet1.xml";

#[test]
fn places_beyond_any_sheet_are_damage() {
    let bytes = workbook(&[(0, 0, "a"), (0, 1, "b"), (1, 1, "y")]);
    let said = Err("The workbook is damaged".to_string());
    assert_eq!(parse_xlsx(&bytes).unwrap(), parse_xlsx(&altered(&bytes, SHEET, "B2", "B2")).unwrap());
    let cell = |to: &str| parse_xlsx(&altered(&bytes, SHEET, "r=\"B2\"", to));
    assert!(cell("r=\"B3\"").is_ok());
    assert_eq!(cell("r=\"B99999999999\""), said);
    assert_eq!(cell("r = 'AAAAAAAA2'"), said);
    assert_eq!(cell("x=\"<\" r=\"B99999999999\""), said);
    assert!(cell("x=\"B99999999999\" r=\"B2\"").is_ok());
    assert_eq!(parse_xlsx(&altered(&bytes, SHEET, "<row r=\"2\"", "<row\tr=\"99999999999\"")), said);
    assert_eq!(
        parse_xlsx_cells(&altered(&bytes, SHEET, "<row r=\"2\"", "<row r=\"99999999999\"")),
        Err("Failed to open XLSX: The workbook is damaged".to_string())
    );
}

#[test]
fn spans_that_end_before_they_begin_are_damage() {
    let bytes = workbook(&[(0, 0, "a"), (1, 1, "y")]);
    let said = Err("The workbook is damaged".to_string());
    let span = |to: &str| parse_xlsx(&altered(&bytes, SHEET, "ref=\"A1:B2\"", to));
    assert!(span("ref=\"A1:ZZ9000\"").is_ok());
    assert_eq!(span("ref=\"B2:A1\""), said);
    assert_eq!(span("ref=\"B1:A2\""), said);
    assert_eq!(span("ref=\"A2:B1\""), said);
    assert!(span("ref=\"A1\"").is_ok());
    assert!(span("ref=\"A0:B2\"").is_err() && span("ref=\"A0:B2\"") != said);
}

#[test]
fn counts_and_formats_beyond_measure_are_damage() {
    let mut book = rust_xlsxwriter::Workbook::new();
    let format = rust_xlsxwriter::Format::new().set_num_format("0.000");
    let sheet = book.add_worksheet();
    sheet.write_string(0, 0, "n").unwrap();
    sheet.write_number_with_format(1, 0, 2.5, &format).unwrap();
    let bytes = book.save_to_buffer().unwrap();
    let said = Err("The workbook is damaged".to_string());
    let count = |to: &str| {
        parse_xlsx(&altered(&bytes, "xl/sharedStrings.xml", "uniqueCount=\"1\"", to))
    };
    assert!(count("uniqueCount=\"2\"").is_ok());
    assert_eq!(count("uniqueCount=\"9223372036854775807\""), said);
    assert_eq!(count("uniqueCount=\"999999\""), said);
    let code = |n: usize| {
        let to = format!("formatCode=\"{}\"", "[".repeat(n));
        parse_xlsx(&altered(&bytes, "xl/styles.xml", "formatCode=\"0.000\"", &to))
    };
    assert!(code(255).is_ok());
    assert_eq!(code(256), said);
}

fn workbook(cells: &[(u32, u16, &str)]) -> Vec<u8> {
    let mut book = rust_xlsxwriter::Workbook::new();
    let sheet = book.add_worksheet();
    for (row, col, text) in cells {
        sheet.write_string(*row, *col, *text).unwrap();
    }
    book.save_to_buffer().unwrap()
}

#[test]
fn a_sheet_begins_with_its_first_cells() {
    let bytes = workbook(&[(2, 3, "a"), (2, 4, "b"), (4, 4, "y")]);
    let field = |k: &str, v: Json| (k.to_string(), v);
    assert_eq!(
        parse_xlsx_cells(&bytes).unwrap(),
        vec![
            vec![field("a", Json::Null), field("b", Json::Null)],
            vec![field("a", Json::Null), field("b", text("y"))],
        ]
    );
    assert_eq!(parse_xlsx_cells(&workbook(&[])).unwrap(), Vec::<Vec<(String, Json)>>::new());
}

#[test]
fn numbers_in_a_sheet_are_read_as_numbers() {
    let mut book = rust_xlsxwriter::Workbook::new();
    let sheet = book.add_worksheet();
    sheet.write_string(0, 0, "n").unwrap();
    sheet.write_string(0, 1, "b").unwrap();
    sheet.write_number(1, 0, 2.5).unwrap();
    sheet.write_boolean(1, 1, true).unwrap();
    let bytes = book.save_to_buffer().unwrap();
    assert_eq!(
        parse_xlsx_cells(&bytes).unwrap(),
        vec![vec![
            ("n".to_string(), Json::Float("2.5".to_string())),
            ("b".to_string(), Json::Bool(true)),
        ]]
    );
}

#[test]
fn what_is_written_as_csv_is_read_back() {
    let rows = vec![texts(&["1", " x\ny"]), texts(&["", "é"])];
    let bytes = write_csv(&texts(&["a", "b"]), &rows).unwrap();
    let read = parse_csv(&bytes, RowStyle::Verbatim).unwrap();
    assert_eq!(read.len(), 2);
    assert_eq!(read[0], vec![("a".to_string(), text("1")), ("b".to_string(), text(" x\ny"))]);
    assert_eq!(read[1][1].1, text("é"));
}

#[test]
fn what_is_written_as_a_workbook_is_read_back() {
    let bytes = write_xlsx(&texts(&["name", "qty"]), &vec![texts(&["Widget", "7"])]).unwrap();
    let read = parse_xlsx(&bytes).unwrap();
    assert_eq!(read, vec![vec![("name".to_string(), text("Widget")), ("qty".to_string(), text("7"))]]);
    let cells = parse_xlsx_cells(&bytes).unwrap();
    assert_eq!(cells, read);
}

#[test]
fn a_table_fits_into_a_sheet_or_not() {
    assert!(build_workbook(&texts(&["a"]), &vec![texts(&["1"])]).is_ok());
    let limits = "Row or column exceeds Excel's allowed limits (1,048,576 x 16,384).".to_string();
    let wide = vec!["x".to_string(); 16_385];
    assert_eq!(build_workbook(&wide, &Vec::new()).err(), Some(limits.clone()));
    assert!(build_workbook(&Vec::new(), &vec![vec![String::new(); 16_385]]).is_ok());
    assert_eq!(write_xlsx(&wide, &Vec::new()), Err(WorkbookFault::DoesNotFit(limits)));
    let long = vec![vec!["x".repeat(32_768)]];
    assert_eq!(
        write_xlsx(&Vec::new(), &long),
        Err(WorkbookFault::DoesNotFit("String exceeds Excel's limit of 32,767 characters.".to_string()))
    );
    let bytes = write_xlsx(&texts(&["a"]), &vec![texts(&["1"])]).unwrap();
    assert_eq!(bytes[..4], [0x50, 0x4b, 0x03, 0x04]);
}

#[test]
fn what_is_no_workbook_is_refused() {
    let bytes = b"not a workbook".to_vec();
    assert!(parse_xlsx(&bytes).is_err());
    assert!(parse_xlsx_cells(&bytes).unwrap_err().starts_with("Failed to open XLSX: "));
}

#[test]
fn kinds_of_files_are_told_by_name_and_content() {
    assert_eq!(detect_kind("A.XLSX", &None, &Vec::new()), FileKind::Xlsx);
    assert_eq!(detect_kind("a.csv", &None, &Vec::new()), FileKind::Csv);
    assert_eq!(detect_kind("a", &Some("text/csv".to_string()), &Vec::new()), FileKind::Csv);
    let zip = vec![0x50, 0x4b, 0x03, 0x04, 0, 0, 0, 0];
    let sheet = "application/vnd.openxmlformats-officedocument.spreadsheetml.sheet".to_string();
    assert_eq!(detect_kind("a", &Some(sheet.clone()), &zip), FileKind::Xlsx);
    assert_eq!(detect_kind("a", &Some(sheet), &b"plain".to_vec()), FileKind::Unsupported);
}

#[test]
fn tables_take_their_header_from_the_first_row() {
    let row = |v: &[(&str, Json)]| Json::Object(v.iter().map(|(k, v)| (k.to_string(), v.copy())).collect());
    let rows = vec![
        row(&[("a", Json::Int(1)), ("b", Json::Bool(true))]),
        Json::Null,
        row(&[("b", Json::Null), ("c", text("x"))]),
    ];
    let (header, lines) = build_table(&rows, false);
    assert_eq!(header, vec!["a", "b"]);
    assert_eq!(lines, vec![texts(&["1", "1"]), texts(&["", ""])]);
}

#[test]
fn tables_are_written_as_asked_for() {
    let header = texts(&["a"]);
    let lines = vec![texts(&["1"])];
    assert_eq!(encode_table(false, &header, &lines), b"a\n1\n".to_vec());
    let book = encode_table(true, &header, &lines);
    assert_eq!(book[..2], [0x50, 0x4b]);
    assert_eq!(encode_table(false, &header, &vec![texts(&["1", "2"])]), Vec::<u8>::new());
}

#[test]
fn a_workbook_that_cannot_hold_a_text_becomes_csv() {
    let header = texts(&["a"]);
    let lines = vec![vec!["x".repeat(40_000)]];
    assert!(write_xlsx(&header, &lines).is_err());
    assert_eq!(encode_table(true, &header, &lines), write_csv(&header, &lines).unwrap());
}

#[test]
fn the_fields_of_an_export_are_read() {
    let body = |k: &str, v: &str| vec![(k.to_string(), text(v))];
    assert!(workbook_wanted(&body("type", "XLSX")));
    assert!(!workbook_wanted(&body("type", "pdf")));
    assert_eq!(read_export_limit(&body("limit", "0")), 1);
    assert_eq!(read_export_limit(&body("limit", "999999999")), 100_000);
    assert_eq!(read_export_limit(&body("limit", "x")), 10_000);
    assert_eq!(find_missing_parameters(&texts(&["**a", "*b", "c"]), &body("b", "1")), vec!["a"]);
}

#[test]
fn longer_names_are_replaced_first_and_once() {
    let joins = vec![("p".to_string(), "pp'".to_string()), ("p1".to_string(), "x".to_string())];
    let sorted = sort_by_length(&joins);
    assert_eq!(sorted[0].0, "p1");
    assert_eq!(sorted[1], ("p".to_string(), "pp".to_string()));
    assert_eq!(substitute_paramjoins("p1 = p", &sorted), "x = pp");
    assert_eq!(substitute_paramjoins("p1 = p", &Vec::new()), "p1 = p");
}
