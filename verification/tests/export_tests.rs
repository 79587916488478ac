use onehup::export::{
    escape_csv_field, escape_md, export_to_bytes, format_identifier, html_escape, join_csv_row,
    json_document, json_objects, rtf_escape, sql_value, suggested_extension, to_csv,
    to_excel_html, to_excel_xml, to_json, to_markdown_table, to_sql_inserts, to_word_rtf,
    validate_tabular, xml_escape, CsvOptions, ExportError, ExportFormat, QueryResult, SqlOptions,
};

fn s(x: &str) -> String {
    x.to_string()
}

fn sample() -> QueryResult {
    QueryResult {
        headers: vec![s("id"), s("name")],
        rows: vec![vec![s("1"), s("Ann")], vec![s("2"), s("O'Brien, Jr.")]],
        message: None,
    }
}

#[test]
fn csv_field_plain_is_unchanged() {
    assert_eq!(escape_csv_field("abc", ','), "abc");
}

#[test]
fn csv_field_with_delimiter_is_quoted() {
    assert_eq!(escape_csv_field("a,b", ','), "\"a,b\"");
    assert_eq!(escape_csv_field("a,b", ';'), "a,b");
    assert_eq!(escape_csv_field("a;b", ';'), "\"a;b\"");
}

#[test]
fn csv_field_quotes_are_doubled() {
    assert_eq!(escape_csv_field("say \"hi\"", ','), "\"say \"\"hi\"\"\"");
    assert_eq!(escape_csv_field("line\nbreak", ','), "\"line\nbreak\"");
    assert_eq!(escape_csv_field("cr\rx", ','), "\"cr\rx\"");
}

#[test]
fn csv_row_joins_with_delimiter() {
    let cols = vec![s("a"), s("b,c"), s("")];
    assert_eq!(join_csv_row(&cols, ','), "a,\"b,c\",");
    assert_eq!(join_csv_row(&[], ','), "");
}

#[test]
fn csv_export_with_and_without_headers() {
    let r = sample();
    let opts = CsvOptions::default();
    assert_eq!(to_csv(&r, &opts), "id,name\n1,Ann\n2,\"O'Brien, Jr.\"\n");
    let no_headers = CsvOptions { delimiter: ';', include_headers: false };
    assert_eq!(to_csv(&r, &no_headers), "1;Ann\n2;O'Brien, Jr.\n");
}

#[test]
fn identifier_quoting() {
    assert_eq!(format_identifier("user_id"), "user_id");
    assert_eq!(format_identifier("Order Date"), "`Order Date`");
    assert_eq!(format_identifier("we`ird"), "`we``ird`");
    assert_eq!(format_identifier(""), "");
}

#[test]
fn sql_value_literals() {
    assert_eq!(sql_value("it's", false), "'it''s'");
    assert_eq!(sql_value("", true), "NULL");
    assert_eq!(sql_value("", false), "''");
    assert_eq!(sql_value("x", true), "'x'");
}

#[test]
fn sql_inserts_with_headers() {
    let r = sample();
    let opts = SqlOptions::default();
    assert_eq!(
        to_sql_inserts(&r, &opts),
        "INSERT INTO export_table (id, name) VALUES ('1', 'Ann');\nINSERT INTO export_table (id, name) VALUES ('2', 'O''Brien, Jr.');\n"
    );
}

#[test]
fn sql_inserts_without_headers_and_named_table() {
    let r = QueryResult { headers: vec![], rows: vec![vec![s(""), s("a")]], message: None };
    let opts = SqlOptions { table: Some(s("my table")), null_when_empty: true };
    assert_eq!(to_sql_inserts(&r, &opts), "INSERT INTO `my table` VALUES (NULL, 'a');\n");
}

#[test]
fn markdown_escapes_pipes() {
    assert_eq!(escape_md("a|b"), "a\\|b");
    let r = QueryResult { headers: vec![s("h|1"), s("h2")], rows: vec![vec![s("x"), s("y")]], message: None };
    assert_eq!(to_markdown_table(&r), "|h\\|1 | h2|\n|--- | ---|\n|x | y|\n");
}

#[test]
fn markdown_synthesizes_headers() {
    let r = QueryResult { headers: vec![], rows: vec![vec![s("a")], vec![s("b"), s("c")]], message: None };
    assert_eq!(to_markdown_table(&r), "|col_1 | col_2|\n|--- | ---|\n|a|\n|b | c|\n");
}

#[test]
fn html_and_xml_escape() {
    assert_eq!(html_escape("<a href=\"x\">&</a>"), "&lt;a href=&quot;x&quot;&gt;&amp;&lt;/a&gt;");
    assert_eq!(xml_escape("a&b"), "a&amp;b");
}

#[test]
fn excel_html_document() {
    let r = QueryResult { headers: vec![s("a")], rows: vec![vec![s("<1>")]], message: None };
    let expected = "<!DOCTYPE html>\n<html><head><meta charset=\"utf-8\"><title>Export</title></head><body>\n<table border=\"1\" cellspacing=\"0\" cellpadding=\"4\">\n<thead><tr><th>a</th></tr></thead>\n<tbody>\n<tr><td>&lt;1&gt;</td></tr>\n</tbody></table>\n</body></html>\n";
    assert_eq!(to_excel_html(&r), expected);
}

#[test]
fn excel_xml_document() {
    let r = QueryResult { headers: vec![], rows: vec![vec![s("x&y")]], message: None };
    let expected = "<?xml version=\"1.0\"?>\n<Workbook xmlns=\"urn:schemas-microsoft-com:office:spreadsheet\" xmlns:o=\"urn:schemas-microsoft-com:office:office\" xmlns:x=\"urn:schemas-microsoft-com:office:excel\" xmlns:ss=\"urn:schemas-microsoft-com:office:spreadsheet\">\n  <Worksheet ss:Name=\"Export\">\n    <Table>\n      <Row>\n        <Cell><Data ss:Type=\"String\">x&amp;y</Data></Cell>\n      </Row>\n    </Table>\n  </Worksheet>\n</Workbook>\n";
    assert_eq!(to_excel_xml(&r), expected);
}

#[test]
fn rtf_escape_rules() {
    assert_eq!(rtf_escape("a\\b{c}\nd"), "a\\\\b\\{c\\}\\par d");
}

#[test]
fn rtf_table_fills_missing_cells() {
    let r = QueryResult { headers: vec![s("h1"), s("h2")], rows: vec![vec![s("v")]], message: None };
    let expected = "{\\rtf1\\ansi\\deff0{\\fonttbl{\\f0 Arial;}}\n\\fs20\n\\trowd\\trgaph108\\trleft0\\cellx2000\\cellx4000\n\\intbl h1\\cell\\intbl h2\\cell\\row\n\\trowd\\trgaph108\\trleft0\\cellx2000\\cellx4000\n\\intbl v\\cell\\intbl \\cell\\row\n}\n";
    assert_eq!(to_word_rtf(&r), expected);
}

#[test]
fn json_export_keys_and_nulls() {
    let r = QueryResult { headers: vec![s("a"), s("b")], rows: vec![vec![s("1")]], message: None };
    assert_eq!(to_json(&r), "[{\"a\":\"1\",\"b\":null}]");
    let objs = json_objects(&r);
    assert_eq!(objs, vec![vec![(s("a"), Some(s("1"))), (s("b"), None)]]);
}

#[test]
fn json_export_synthesized_headers() {
    let r = QueryResult { headers: vec![], rows: vec![vec![s("x"), s("y")]], message: None };
    assert_eq!(to_json(&r), "[{\"col_1\":\"x\",\"col_2\":\"y\"}]");
    let empty = QueryResult { headers: vec![s("a")], rows: vec![], message: None };
    assert_eq!(to_json(&empty), "[]");
}

#[test]
fn json_document_falls_back_to_empty_array() {
    assert_eq!(json_document(None), "[]");
    assert_eq!(json_document(Some(s("[1]"))), "[1]");
}

#[test]
fn bytes_are_the_utf8_text() {
    let r = sample();
    let b = export_to_bytes(&r, ExportFormat::Markdown).unwrap();
    assert_eq!(b, to_markdown_table(&r).into_bytes());
    let b = export_to_bytes(&r, ExportFormat::Csv(CsvOptions::default())).unwrap();
    assert_eq!(String::from_utf8(b).unwrap(), to_csv(&r, &CsvOptions::default()));
    let b = export_to_bytes(&r, ExportFormat::Json).unwrap();
    assert_eq!(String::from_utf8(b).unwrap(), to_json(&r));
}

#[test]
fn extensions_per_format() {
    assert_eq!(suggested_extension(&ExportFormat::Csv(CsvOptions::default())), "csv");
    assert_eq!(suggested_extension(&ExportFormat::Sql(SqlOptions::default())), "sql");
    assert_eq!(suggested_extension(&ExportFormat::Markdown), "md");
    assert_eq!(suggested_extension(&ExportFormat::ExcelHtml), "xls");
    assert_eq!(suggested_extension(&ExportFormat::ExcelXml), "xml");
    assert_eq!(suggested_extension(&ExportFormat::WordRtf), "rtf");
    assert_eq!(suggested_extension(&ExportFormat::Json), "json");
}

#[test]
fn message_only_result_is_refused() {
    let r = QueryResult { headers: vec![], rows: vec![], message: Some(s("OK")) };
    let e = validate_tabular(&r).unwrap_err();
    assert_eq!(e, ExportError::MessageOnly);
    assert_eq!(e.message(), "Result contains only a message; no table to export");
    let empty = QueryResult { headers: vec![], rows: vec![], message: None };
    assert!(validate_tabular(&empty).is_ok());
    assert!(validate_tabular(&sample()).is_ok());
}

#[test]
fn csv_round_trip_example() {
    // a field with a quote is quoted and its quote doubled; reading it back
    // (strip outer quotes, undouble) gives the input
    let input = "a\"b";
    let e = escape_csv_field(input, ',');
    let inner = &e[1..e.len() - 1];
    assert_eq!(inner.replace("\"\"", "\""), input);
}

#[test]
fn sql_literal_round_trip_example() {
    let input = "it's 'quoted'";
    let lit = sql_value(input, false);
    let inner = &lit[1..lit.len() - 1];
    assert_eq!(inner.replace("''", "'"), input);
}

#[test]
fn identifier_round_trip_example() {
    let input = "a`b c";
    let q = format_identifier(input);
    let inner = &q[1..q.len() - 1];
    assert_eq!(inner.replace("``", "`"), input);
}

#[test]
fn html_escape_has_no_markup_example() {
    let e = html_escape("<script>\"&\"</script>");
    assert!(!e.contains('<') && !e.contains('>') && !e.contains('"'));
}

#[test]
fn rtf_escape_has_no_line_break_example() {
    assert!(!rtf_escape("a\nb\nc").contains('\n'));
}
