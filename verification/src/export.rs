//! Exporting a query result as CSV, SQL `INSERT` statements, a Markdown
//! table, an Excel HTML table, Excel 2003 XML, a Word RTF table or JSON.

use vstd::prelude::*;
use crate::text::{
    append_chars, chars_of, decimal, join, join_chars, vecs_view, push_decimal, push_decimal_chars, string_from_chars,
};

verus! {

/// A tabular query result: column headers, rows of cells and an optional
/// message from the server.
#[derive(Debug)]
pub struct QueryResult {
    pub headers: Vec<String>,
    pub rows: Vec<Vec<String>>,
    pub message: Option<String>,
}

impl QueryResult {
    pub open spec fn header_seq(&self) -> Seq<Seq<char>> {
        self.headers.deep_view()
    }

    pub open spec fn row_seq(&self) -> Seq<Seq<Seq<char>>> {
        self.rows.deep_view()
    }
}

/// CSV settings.
#[derive(Debug, Clone, Copy)]
pub struct CsvOptions {
    pub delimiter: char,
    pub include_headers: bool,
}

impl Default for CsvOptions {
    fn default() -> (r: Self)
        ensures
            r.delimiter == ',',
            r.include_headers,
    {
        CsvOptions { delimiter: ',', include_headers: true }
    }
}

/// SQL settings.
#[derive(Debug)]
pub struct SqlOptions {
    /// Table named in the `INSERT` statements; `export_table` when `None`.
    pub table: Option<String>,
    /// Writes empty cells as `NULL`.
    pub null_when_empty: bool,
}

impl Default for SqlOptions {
    fn default() -> (r: Self)
        ensures
            r.table is None,
            !r.null_when_empty,
    {
        SqlOptions { table: None, null_when_empty: false }
    }
}

/// Export target format.
#[derive(Debug)]
pub enum ExportFormat {
    Csv(CsvOptions),
    Sql(SqlOptions),
    Markdown,
    /// Excel HTML table (save with .xls extension).
    ExcelHtml,
    /// Excel 2003 XML (SpreadsheetML).
    ExcelXml,
    /// Word RTF document containing a table.
    WordRtf,
    /// JSON array of objects keyed by the headers.
    Json,
}

/// Appends a literal.
fn push_lit(out: &mut Vec<char>, lit: &str)
    ensures
        final(out)@ == old(out)@ + lit@,
{
    let c = chars_of(lit);
    append_chars(out, c.as_slice());
}

// ---------------------------------------------------------------- CSV

/// A quote doubled, other characters kept.
pub open spec fn csv_double_char(c: char) -> Seq<char> {
    if c == '"' {
        seq!['"', '"']
    } else {
        seq![c]
    }
}

/// A CSV field is quoted when it holds the delimiter, a line break or a quote.
pub open spec fn csv_must_quote(s: Seq<char>, delimiter: char) -> bool {
    s.contains(delimiter) || s.contains('\n') || s.contains('\r') || s.contains('"')
}

/// One CSV field: quotes doubled (RFC 4180), and the whole field in quotes
/// when it must be.
pub open spec fn csv_field(s: Seq<char>, delimiter: char) -> Seq<char> {
    let doubled = s.flat_map(|c: char| csv_double_char(c));
    if csv_must_quote(s, delimiter) {
        seq!['"'] + doubled + seq!['"']
    } else {
        doubled
    }
}

/// One CSV line (without its line break).
pub open spec fn csv_row(cols: Seq<Seq<char>>, delimiter: char) -> Seq<char> {
    join(cols.map_values(|c: Seq<char>| csv_field(c, delimiter)), seq![delimiter])
}

/// A whole CSV document.
pub open spec fn csv_text(result: QueryResult, opts: CsvOptions) -> Seq<char> {
    let head = if opts.include_headers && result.header_seq().len() > 0 {
        csv_row(result.header_seq(), opts.delimiter).push('\n')
    } else {
        seq![]
    };
    head + result.row_seq().flat_map(|r: Seq<Seq<char>>| csv_row(r, opts.delimiter).push('\n'))
}

fn char_in(s: &[char], c: char) -> (r: bool)
    ensures
        r == s@.contains(c),
{
    let mut i: usize = 0;
    while i < s.len()
        invariant
            i <= s@.len(),
            forall|k: int| 0 <= k < i ==> s@[k] != c,
        decreases s@.len() - i,
    {
        if s[i] == c {
            assert(s@[i as int] == c);
            return true;
        }
        i += 1;
    }
    false
}

/// Escapes one CSV field.
pub fn escape_csv_field(s: &str, delimiter: char) -> (r: String)
    ensures
        r@ == csv_field(s@, delimiter),
{
    let c = chars_of(s);
    let v = csv_field_chars(c.as_slice(), delimiter);
    string_from_chars(v.as_slice())
}

fn csv_field_chars(c: &[char], delimiter: char) -> (r: Vec<char>)
    ensures
        r@ == csv_field(c@, delimiter),
{
    let must_quote = char_in(c, delimiter) || char_in(c, '\n') || char_in(c, '\r') || char_in(
        c,
        '"',
    );
    let mut v: Vec<char> = Vec::new();
    let mut i: usize = 0;
    while i < c.len()
        invariant
            i <= c@.len(),
            v@ == c@.take(i as int).flat_map(|x: char| csv_double_char(x)),
        decreases c@.len() - i,
    {
        proof {
            c@.take(i as int).lemma_flat_map_push(|x: char| csv_double_char(x), c@[i as int]);
            assert(c@.take(i + 1) =~= c@.take(i as int).push(c@[i as int]));
        }
        if c[i] == '"' {
            v.push('"');
            v.push('"');
        } else {
            v.push(c[i]);
        }
        i += 1;
        assert(v@ =~= c@.take(i as int).flat_map(|x: char| csv_double_char(x)));
    }
    assert(c@.take(c@.len() as int) =~= c@);
    if must_quote {
        let mut q: Vec<char> = Vec::new();
        q.push('"');
        append_chars(&mut q, v.as_slice());
        q.push('"');
        assert(q@ =~= seq!['"'] + v@ + seq!['"']);
        q
    } else {
        v
    }
}

/// Views of string vectors.
pub open spec fn strings_view(v: Seq<String>) -> Seq<Seq<char>> {
    v.map_values(|s: String| s@)
}

/// Joins escaped CSV fields with the delimiter.
pub fn join_csv_row(cols: &[String], delimiter: char) -> (r: String)
    ensures
        r@ == csv_row(strings_view(cols@), delimiter),
{
    let v = csv_row_chars(cols, delimiter);
    string_from_chars(v.as_slice())
}

fn csv_row_chars(cols: &[String], delimiter: char) -> (r: Vec<char>)
    ensures
        r@ == csv_row(strings_view(cols@), delimiter),
{
    let ghost parts = strings_view(cols@).map_values(|c: Seq<char>| csv_field(c, delimiter));
    let mut r: Vec<char> = Vec::new();
    let mut i: usize = 0;
    while i < cols.len()
        invariant
            i <= cols@.len(),
            parts == strings_view(cols@).map_values(|c: Seq<char>| csv_field(c, delimiter)),
            r@ == join(parts.take(i as int), seq![delimiter]),
        decreases cols@.len() - i,
    {
        proof {
            assert(parts.take(i + 1).drop_last() =~= parts.take(i as int));
        }
        if i > 0 {
            r.push(delimiter);
        }
        let c = chars_of(cols[i].as_str());
        let f = csv_field_chars(c.as_slice(), delimiter);
        append_chars(&mut r, f.as_slice());
        i += 1;
        proof {
            if i == 1 {
                assert(r@ =~= join(parts.take(1), seq![delimiter]));
            } else {
                assert(r@ =~= join(parts.take(i as int), seq![delimiter]));
            }
        }
    }
    assert(parts.take(cols@.len() as int) =~= parts);
    r
}

fn to_csv_chars(result: &QueryResult, opts: &CsvOptions) -> (r: Vec<char>)
    ensures
        r@ == csv_text(*result, *opts),
{
    let mut out: Vec<char> = Vec::new();
    proof {
        assert(result.header_seq() =~= strings_view(result.headers@));
    }
    if opts.include_headers && result.headers.len() > 0 {
        let h = csv_row_chars(result.headers.as_slice(), opts.delimiter);
        append_chars(&mut out, h.as_slice());
        out.push('\n');
    }
    let ghost head = out@;
    let ghost rows = result.row_seq();
    let ghost f = |r: Seq<Seq<char>>| csv_row(r, opts.delimiter).push('\n');
    let mut i: usize = 0;
    while i < result.rows.len()
        invariant
            i <= result.rows@.len(),
            rows == result.row_seq(),
            f == (|r: Seq<Seq<char>>| csv_row(r, opts.delimiter).push('\n')),
            out@ == head + rows.take(i as int).flat_map(f),
        decreases result.rows@.len() - i,
    {
        proof {
            rows.take(i as int).lemma_flat_map_push(f, rows[i as int]);
            assert(rows.take(i + 1) =~= rows.take(i as int).push(rows[i as int]));
            assert(rows[i as int] =~= strings_view(result.rows@[i as int]@));
        }
        let line = csv_row_chars(result.rows[i].as_slice(), opts.delimiter);
        append_chars(&mut out, line.as_slice());
        out.push('\n');
        i += 1;
        assert(out@ =~= head + rows.take(i as int).flat_map(f));
    }
    assert(rows.take(result.rows@.len() as int) =~= rows);
    out
}

} // verus!

verus! {

// ---------------------------------------------------------------- SQL

/// ASCII letters and digits.
pub open spec fn is_ascii_alnum(c: char) -> bool {
    ('a' <= c && c <= 'z') || ('A' <= c && c <= 'Z') || ('0' <= c && c <= '9')
}

/// A backtick doubled, other characters kept.
pub open spec fn backtick_double_char(c: char) -> Seq<char> {
    if c == '`' {
        seq!['`', '`']
    } else {
        seq![c]
    }
}

/// An identifier as written in the statements: bare when it is made of
/// ASCII letters, digits and `_`, else in backticks with backticks doubled.
pub open spec fn sql_identifier(id: Seq<char>) -> Seq<char> {
    if forall|i: int| 0 <= i < id.len() ==> is_ascii_alnum(#[trigger] id[i]) || id[i] == '_' {
        id
    } else {
        seq!['`'] + id.flat_map(|c: char| backtick_double_char(c)) + seq!['`']
    }
}

/// A single quote doubled, other characters kept.
pub open spec fn quote_double_char(c: char) -> Seq<char> {
    if c == '\'' {
        seq!['\'', '\'']
    } else {
        seq![c]
    }
}

/// A cell as an SQL value: `NULL` for an empty cell when asked, else a
/// single-quoted string with quotes doubled.
pub open spec fn sql_literal(v: Seq<char>, null_when_empty: bool) -> Seq<char> {
    if null_when_empty && v.len() == 0 {
        seq!['N', 'U', 'L', 'L']
    } else {
        seq!['\''] + v.flat_map(|c: char| quote_double_char(c)) + seq!['\'']
    }
}

fn ascii_alnum(c: char) -> (r: bool)
    ensures
        r == is_ascii_alnum(c),
{
    ('a' <= c && c <= 'z') || ('A' <= c && c <= 'Z') || ('0' <= c && c <= '9')
}

fn double_char_chars(s: &[char], q: char) -> (r: Vec<char>)
    ensures
        q == '`' ==> r@ == s@.flat_map(|c: char| backtick_double_char(c)),
        q == '\'' ==> r@ == s@.flat_map(|c: char| quote_double_char(c)),
        q == '"' ==> r@ == s@.flat_map(|c: char| csv_double_char(c)),
{
    let ghost f = |c: char| if c == q { seq![q, q] } else { seq![c] };
    let mut v: Vec<char> = Vec::new();
    let mut i: usize = 0;
    while i < s.len()
        invariant
            i <= s@.len(),
            f == (|c: char| if c == q { seq![q, q] } else { seq![c] }),
            v@ == s@.take(i as int).flat_map(f),
        decreases s@.len() - i,
    {
        proof {
            s@.take(i as int).lemma_flat_map_push(f, s@[i as int]);
            assert(s@.take(i + 1) =~= s@.take(i as int).push(s@[i as int]));
        }
        if s[i] == q {
            v.push(q);
            v.push(q);
        } else {
            v.push(s[i]);
        }
        i += 1;
        assert(v@ =~= s@.take(i as int).flat_map(f));
    }
    assert(s@.take(s@.len() as int) =~= s@);
    proof {
        if q == '`' {
            assert(f =~= (|c: char| backtick_double_char(c)));
        }
        if q == '\'' {
            assert(f =~= (|c: char| quote_double_char(c)));
        }
        if q == '"' {
            assert(f =~= (|c: char| csv_double_char(c)));
        }
    }
    v
}

fn identifier_chars(id: &[char]) -> (r: Vec<char>)
    ensures
        r@ == sql_identifier(id@),
{
    let mut i: usize = 0;
    while i < id.len()
        invariant
            i <= id@.len(),
            forall|k: int| 0 <= k < i ==> is_ascii_alnum(#[trigger] id@[k]) || id@[k] == '_',
        decreases id@.len() - i,
    {
        if !(ascii_alnum(id[i]) || id[i] == '_') {
            let d = double_char_chars(id, '`');
            let mut r: Vec<char> = Vec::new();
            r.push('`');
            append_chars(&mut r, d.as_slice());
            r.push('`');
            assert(r@ =~= seq!['`'] + d@ + seq!['`']);
            return r;
        }
        i += 1;
    }
    sub_all(id)
}

fn sub_all(s: &[char]) -> (r: Vec<char>)
    ensures
        r@ == s@,
{
    let mut r: Vec<char> = Vec::new();
    append_chars(&mut r, s);
    assert(r@ =~= s@);
    r
}

/// Quotes an identifier when needed.
pub fn format_identifier(id: &str) -> (r: String)
    ensures
        r@ == sql_identifier(id@),
{
    let c = chars_of(id);
    let r = identifier_chars(c.as_slice());
    string_from_chars(r.as_slice())
}

fn literal_chars(v: &[char], null_when_empty: bool) -> (r: Vec<char>)
    ensures
        r@ == sql_literal(v@, null_when_empty),
{
    if null_when_empty && v.len() == 0 {
        let mut r: Vec<char> = Vec::new();
        r.push('N');
        r.push('U');
        r.push('L');
        r.push('L');
        assert(r@ =~= seq!['N', 'U', 'L', 'L']);
        r
    } else {
        let d = double_char_chars(v, '\'');
        let mut r: Vec<char> = Vec::new();
        r.push('\'');
        append_chars(&mut r, d.as_slice());
        r.push('\'');
        assert(r@ =~= seq!['\''] + d@ + seq!['\'']);
        r
    }
}

/// A cell as an SQL value.
pub fn sql_value(v: &str, null_when_empty: bool) -> (r: String)
    ensures
        r@ == sql_literal(v@, null_when_empty),
{
    let c = chars_of(v);
    let r = literal_chars(c.as_slice(), null_when_empty);
    string_from_chars(r.as_slice())
}

/// The table named in the statements.
pub open spec fn insert_table(opts: SqlOptions) -> Seq<char> {
    match opts.table {
        Some(t) => t@,
        None => "export_table"@,
    }
}

/// One `INSERT` statement with its line break.
pub open spec fn insert_line(
    table: Seq<char>,
    headers: Seq<Seq<char>>,
    row: Seq<Seq<char>>,
    null_when_empty: bool,
) -> Seq<char> {
    let values = join(row.map_values(|v: Seq<char>| sql_literal(v, null_when_empty)), ", "@);
    if headers.len() > 0 {
        let cols = join(headers.map_values(|h: Seq<char>| sql_identifier(h)), ", "@);
        "INSERT INTO "@ + sql_identifier(table) + " ("@ + cols + ") VALUES ("@ + values + ");\n"@
    } else {
        "INSERT INTO "@ + sql_identifier(table) + " VALUES ("@ + values + ");\n"@
    }
}

/// One `INSERT` statement per row.
pub open spec fn sql_text(result: QueryResult, opts: SqlOptions) -> Seq<char> {
    result.row_seq().flat_map(
        |r: Seq<Seq<char>>|
            insert_line(insert_table(opts), result.header_seq(), r, opts.null_when_empty),
    )
}

/// Joins the strings with `sep`, each written as an identifier when `ident`
/// holds, else as a value.
fn join_mapped(items: &[String], sep: &str, ident: bool, null_when_empty: bool) -> (r: Vec<char>)
    ensures
        ident ==> r@ == join(
            strings_view(items@).map_values(|h: Seq<char>| sql_identifier(h)),
            sep@,
        ),
        !ident ==> r@ == join(
            strings_view(items@).map_values(|v: Seq<char>| sql_literal(v, null_when_empty)),
            sep@,
        ),
{
    let ghost g = |v: Seq<char>|
        if ident {
            sql_identifier(v)
        } else {
            sql_literal(v, null_when_empty)
        };
    let ghost parts = strings_view(items@).map_values(g);
    let sepc = chars_of(sep);
    let mut r: Vec<char> = Vec::new();
    let mut i: usize = 0;
    while i < items.len()
        invariant
            i <= items@.len(),
            sepc@ == sep@,
            g == (|v: Seq<char>|
                if ident {
                    sql_identifier(v)
                } else {
                    sql_literal(v, null_when_empty)
                }),
            parts == strings_view(items@).map_values(g),
            r@ == join(parts.take(i as int), sep@),
        decreases items@.len() - i,
    {
        proof {
            assert(parts.take(i + 1).drop_last() =~= parts.take(i as int));
        }
        if i > 0 {
            append_chars(&mut r, sepc.as_slice());
        }
        let c = chars_of(items[i].as_str());
        let p = if ident {
            identifier_chars(c.as_slice())
        } else {
            literal_chars(c.as_slice(), null_when_empty)
        };
        append_chars(&mut r, p.as_slice());
        i += 1;
        proof {
            if i == 1 {
                assert(r@ =~= join(parts.take(1), sep@));
            }
        }
    }
    assert(parts.take(items@.len() as int) =~= parts);
    proof {
        if ident {
            assert(parts =~= strings_view(items@).map_values(|h: Seq<char>| sql_identifier(h)));
        } else {
            assert(parts =~= strings_view(items@).map_values(
                |v: Seq<char>| sql_literal(v, null_when_empty),
            ));
        }
    }
    r
}

fn to_sql_chars(result: &QueryResult, opts: &SqlOptions) -> (r: Vec<char>)
    ensures
        r@ == sql_text(*result, *opts),
{
    let table = match &opts.table {
        Some(t) => chars_of(t.as_str()),
        None => chars_of("export_table"),
    };
    let tid = identifier_chars(table.as_slice());
    let cols = join_mapped(result.headers.as_slice(), ", ", true, false);
    proof {
        assert(result.header_seq() =~= strings_view(result.headers@));
    }
    let mut out: Vec<char> = Vec::new();
    let ghost rows = result.row_seq();
    let ghost f = |r: Seq<Seq<char>>|
        insert_line(insert_table(*opts), result.header_seq(), r, opts.null_when_empty);
    let mut i: usize = 0;
    while i < result.rows.len()
        invariant
            i <= result.rows@.len(),
            rows == result.row_seq(),
            table@ == insert_table(*opts),
            tid@ == sql_identifier(table@),
            cols@ == join(result.header_seq().map_values(|h: Seq<char>| sql_identifier(h)), ", "@),
            result.header_seq() == strings_view(result.headers@),
            f == (|r: Seq<Seq<char>>|
                insert_line(insert_table(*opts), result.header_seq(), r, opts.null_when_empty)),
            out@ == rows.take(i as int).flat_map(f),
        decreases result.rows@.len() - i,
    {
        proof {
            rows.take(i as int).lemma_flat_map_push(f, rows[i as int]);
            assert(rows.take(i + 1) =~= rows.take(i as int).push(rows[i as int]));
            assert(rows[i as int] =~= strings_view(result.rows@[i as int]@));
        }
        let values = join_mapped(result.rows[i].as_slice(), ", ", false, opts.null_when_empty);
        push_lit(&mut out, "INSERT INTO ");
        append_chars(&mut out, tid.as_slice());
        if result.headers.len() > 0 {
            push_lit(&mut out, " (");
            append_chars(&mut out, cols.as_slice());
            push_lit(&mut out, ") VALUES (");
        } else {
            push_lit(&mut out, " VALUES (");
        }
        append_chars(&mut out, values.as_slice());
        push_lit(&mut out, ");\n");
        i += 1;
        assert(out@ =~= rows.take(i as int).flat_map(f));
    }
    assert(rows.take(result.rows@.len() as int) =~= rows);
    out
}

} // verus!

verus! {

// ---------------------------------------------------------- shared pieces

/// Character escapes used by the table formats.
#[derive(Clone, Copy, PartialEq, Eq, Structural)]
pub enum Escape {
    Html,
    Rtf,
    Markdown,
}

/// How one character is written under an escape.
pub open spec fn escape_char(e: Escape, c: char) -> Seq<char> {
    match e {
        Escape::Html => if c == '&' {
            seq!['&', 'a', 'm', 'p', ';']
        } else if c == '<' {
            seq!['&', 'l', 't', ';']
        } else if c == '>' {
            seq!['&', 'g', 't', ';']
        } else if c == '"' {
            seq!['&', 'q', 'u', 'o', 't', ';']
        } else {
            seq![c]
        },
        Escape::Rtf => if c == '\\' {
            seq!['\\', '\\']
        } else if c == '{' {
            seq!['\\', '{']
        } else if c == '}' {
            seq!['\\', '}']
        } else if c == '\n' {
            seq!['\\', 'p', 'a', 'r', ' ']
        } else {
            seq![c]
        },
        Escape::Markdown => if c == '|' {
            seq!['\\', '|']
        } else {
            seq![c]
        },
    }
}

/// A text under an escape.
pub open spec fn escaped(e: Escape, s: Seq<char>) -> Seq<char> {
    s.flat_map(|c: char| escape_char(e, c))
}

fn push_escaped_char(out: &mut Vec<char>, e: Escape, c: char)
    ensures
        final(out)@ == old(out)@ + escape_char(e, c),
{
    let ghost before = out@;
    match e {
        Escape::Html => {
            if c == '&' {
                out.push('&');
                out.push('a');
                out.push('m');
                out.push('p');
                out.push(';');
            } else if c == '<' {
                out.push('&');
                out.push('l');
                out.push('t');
                out.push(';');
            } else if c == '>' {
                out.push('&');
                out.push('g');
                out.push('t');
                out.push(';');
            } else if c == '"' {
                out.push('&');
                out.push('q');
                out.push('u');
                out.push('o');
                out.push('t');
                out.push(';');
            } else {
                out.push(c);
            }
        },
        Escape::Rtf => {
            if c == '\\' {
                out.push('\\');
                out.push('\\');
            } else if c == '{' {
                out.push('\\');
                out.push('{');
            } else if c == '}' {
                out.push('\\');
                out.push('}');
            } else if c == '\n' {
                out.push('\\');
                out.push('p');
                out.push('a');
                out.push('r');
                out.push(' ');
            } else {
                out.push(c);
            }
        },
        Escape::Markdown => {
            if c == '|' {
                out.push('\\');
                out.push('|');
            } else {
                out.push(c);
            }
        },
    }
    assert(out@ =~= before + escape_char(e, c));
}

fn push_escaped(out: &mut Vec<char>, e: Escape, s: &[char])
    ensures
        final(out)@ == old(out)@ + escaped(e, s@),
{
    let ghost base = out@;
    let ghost f = |c: char| escape_char(e, c);
    let mut i: usize = 0;
    while i < s.len()
        invariant
            i <= s@.len(),
            f == (|c: char| escape_char(e, c)),
            out@ == base + s@.take(i as int).flat_map(f),
        decreases s@.len() - i,
    {
        proof {
            s@.take(i as int).lemma_flat_map_push(f, s@[i as int]);
            assert(s@.take(i + 1) =~= s@.take(i as int).push(s@[i as int]));
        }
        push_escaped_char(out, e, s[i]);
        i += 1;
        assert(out@ =~= base + s@.take(i as int).flat_map(f));
    }
    assert(s@.take(s@.len() as int) =~= s@);
}

fn escape_string(e: Escape, s: &str) -> (r: String)
    ensures
        r@ == escaped(e, s@),
{
    let c = chars_of(s);
    let mut out: Vec<char> = Vec::new();
    push_escaped(&mut out, e, c.as_slice());
    assert(out@ =~= escaped(e, s@));
    string_from_chars(out.as_slice())
}

/// `&`, `<`, `>` and `"` replaced by their HTML entities.
pub fn html_escape(s: &str) -> (r: String)
    ensures
        r@ == escaped(Escape::Html, s@),
{
    escape_string(Escape::Html, s)
}

/// XML text escaping, the same as HTML's.
pub fn xml_escape(s: &str) -> (r: String)
    ensures
        r@ == escaped(Escape::Html, s@),
{
    html_escape(s)
}

/// Backslashes and braces escaped, line breaks written as `\par `.
pub fn rtf_escape(s: &str) -> (r: String)
    ensures
        r@ == escaped(Escape::Rtf, s@),
{
    escape_string(Escape::Rtf, s)
}

/// `|` escaped with a backslash.
pub fn escape_md(s: &str) -> (r: String)
    ensures
        r@ == escaped(Escape::Markdown, s@),
{
    escape_string(Escape::Markdown, s)
}

/// Each cell escaped and put between `open` and `close`.
pub open spec fn wrapped_cells(
    cells: Seq<Seq<char>>,
    open: Seq<char>,
    e: Escape,
    close: Seq<char>,
) -> Seq<char> {
    cells.flat_map(|c: Seq<char>| open + escaped(e, c) + close)
}

fn push_wrapped_cells(out: &mut Vec<char>, cells: &[String], open: &str, e: Escape, close: &str)
    ensures
        final(out)@ == old(out)@ + wrapped_cells(strings_view(cells@), open@, e, close@),
{
    let ghost base = out@;
    let ghost cs = strings_view(cells@);
    let ghost f = |c: Seq<char>| open@ + escaped(e, c) + close@;
    let mut i: usize = 0;
    while i < cells.len()
        invariant
            i <= cells@.len(),
            cs == strings_view(cells@),
            f == (|c: Seq<char>| open@ + escaped(e, c) + close@),
            out@ == base + cs.take(i as int).flat_map(f),
        decreases cells@.len() - i,
    {
        proof {
            cs.take(i as int).lemma_flat_map_push(f, cs[i as int]);
            assert(cs.take(i + 1) =~= cs.take(i as int).push(cs[i as int]));
        }
        push_lit(out, open);
        let c = chars_of(cells[i].as_str());
        push_escaped(out, e, c.as_slice());
        push_lit(out, close);
        i += 1;
        assert(out@ =~= base + cs.take(i as int).flat_map(f));
    }
    assert(cs.take(cells@.len() as int) =~= cs);
}

/// Length of the longest row.
pub open spec fn max_row_len(rows: Seq<Seq<Seq<char>>>) -> nat
    decreases rows.len(),
{
    if rows.len() == 0 {
        0
    } else {
        let m = max_row_len(rows.drop_last());
        if rows.last().len() > m {
            rows.last().len()
        } else {
            m
        }
    }
}

fn max_row_len_of(rows: &Vec<Vec<String>>) -> (r: usize)
    ensures
        r == max_row_len(rows.deep_view()),
{
    let ghost rs = rows.deep_view();
    let mut m: usize = 0;
    let mut i: usize = 0;
    while i < rows.len()
        invariant
            i <= rows@.len(),
            rs == rows.deep_view(),
            m == max_row_len(rs.take(i as int)),
        decreases rows@.len() - i,
    {
        assert(rs.take(i + 1).drop_last() =~= rs.take(i as int));
        if rows[i].len() > m {
            m = rows[i].len();
        }
        i += 1;
    }
    assert(rs.take(rows@.len() as int) =~= rs);
    m
}

/// Names `col_1` .. `col_n`.
pub open spec fn synthetic_headers(n: nat) -> Seq<Seq<char>> {
    Seq::new(n, |i: int| "col_"@ + decimal((i + 1) as nat))
}

/// The headers, or names for the columns of the longest row when there are
/// none.
pub open spec fn effective_headers(result: QueryResult) -> Seq<Seq<char>> {
    if result.header_seq().len() == 0 {
        synthetic_headers(max_row_len(result.row_seq()))
    } else {
        result.header_seq()
    }
}

fn effective_headers_of(result: &QueryResult) -> (r: Vec<String>)
    ensures
        strings_view(r@) == effective_headers(*result),
{
    if result.headers.len() == 0 {
        let n = max_row_len_of(&result.rows);
        let mut r: Vec<String> = Vec::new();
        let mut i: usize = 0;
        while i < n
            invariant
                i <= n,
                n == max_row_len(result.row_seq()),
                r@.len() == i,
                forall|k: int| 0 <= k < i ==> #[trigger] r@[k]@ == "col_"@ + decimal((k + 1) as nat),
            decreases n - i,
        {
            let mut name = String::new();
            crate::text::push_str(&mut name, "col_");
            push_decimal(&mut name, i as u64 + 1);
            r.push(name);
            i += 1;
        }
        assert(strings_view(r@) =~= synthetic_headers(n as nat));
        r
    } else {
        let mut r: Vec<String> = Vec::new();
        let mut i: usize = 0;
        while i < result.headers.len()
            invariant
                i <= result.headers@.len(),
                r@.len() == i,
                forall|k: int| 0 <= k < i ==> #[trigger] r@[k]@ == result.headers@[k]@,
            decreases result.headers@.len() - i,
        {
            r.push(result.headers[i].clone());
            i += 1;
        }
        assert(strings_view(r@) =~= result.header_seq());
        r
    }
}

} // verus!

verus! {

// ------------------------------------------------------------- Markdown

/// One Markdown table line.
pub open spec fn md_row(cells: Seq<Seq<char>>) -> Seq<char> {
    seq!['|'] + join(cells.map_values(|c: Seq<char>| escaped(Escape::Markdown, c)), " | "@)
        + "|\n"@
}

/// A Markdown table: header line, separator line, one line per row.
pub open spec fn markdown_text(result: QueryResult) -> Seq<char> {
    let h = effective_headers(result);
    md_row(h) + seq!['|'] + join(h.map_values(|x: Seq<char>| "---"@), " | "@) + "|\n"@
        + result.row_seq().flat_map(|r: Seq<Seq<char>>| md_row(r))
}

/// Joins the cells, each escaped or replaced, with `sep`.
fn join_cells(cells: &[String], sep: &str, dashes: bool) -> (r: Vec<char>)
    ensures
        !dashes ==> r@ == join(
            strings_view(cells@).map_values(|c: Seq<char>| escaped(Escape::Markdown, c)),
            sep@,
        ),
        dashes ==> r@ == join(strings_view(cells@).map_values(|x: Seq<char>| "---"@), sep@),
{
    let ghost g = |c: Seq<char>|
        if dashes {
            "---"@
        } else {
            escaped(Escape::Markdown, c)
        };
    let ghost parts = strings_view(cells@).map_values(g);
    let sepc = chars_of(sep);
    let mut r: Vec<char> = Vec::new();
    let mut i: usize = 0;
    while i < cells.len()
        invariant
            i <= cells@.len(),
            sepc@ == sep@,
            g == (|c: Seq<char>|
                if dashes {
                    "---"@
                } else {
                    escaped(Escape::Markdown, c)
                }),
            parts == strings_view(cells@).map_values(g),
            r@ == join(parts.take(i as int), sep@),
        decreases cells@.len() - i,
    {
        proof {
            assert(parts.take(i + 1).drop_last() =~= parts.take(i as int));
        }
        if i > 0 {
            append_chars(&mut r, sepc.as_slice());
        }
        if dashes {
            push_lit(&mut r, "---");
        } else {
            let c = chars_of(cells[i].as_str());
            push_escaped(&mut r, Escape::Markdown, c.as_slice());
        }
        i += 1;
        proof {
            if i == 1 {
                assert(r@ =~= join(parts.take(1), sep@));
            }
        }
    }
    assert(parts.take(cells@.len() as int) =~= parts);
    proof {
        if dashes {
            assert(parts =~= strings_view(cells@).map_values(|x: Seq<char>| "---"@));
        } else {
            assert(parts =~= strings_view(cells@).map_values(
                |c: Seq<char>| escaped(Escape::Markdown, c),
            ));
        }
    }
    r
}

fn push_md_row(out: &mut Vec<char>, cells: &[String])
    ensures
        final(out)@ == old(out)@ + md_row(strings_view(cells@)),
{
    let ghost before = out@;
    out.push('|');
    let j = join_cells(cells, " | ", false);
    append_chars(out, j.as_slice());
    push_lit(out, "|\n");
    assert(out@ =~= before + md_row(strings_view(cells@)));
}

fn to_markdown_chars(result: &QueryResult) -> (r: Vec<char>)
    ensures
        r@ == markdown_text(*result),
{
    let headers = effective_headers_of(result);
    let mut out: Vec<char> = Vec::new();
    push_md_row(&mut out, headers.as_slice());
    out.push('|');
    let d = join_cells(headers.as_slice(), " | ", true);
    append_chars(&mut out, d.as_slice());
    push_lit(&mut out, "|\n");
    let ghost head = out@;
    let ghost rows = result.row_seq();
    let ghost f = |r: Seq<Seq<char>>| md_row(r);
    let mut i: usize = 0;
    while i < result.rows.len()
        invariant
            i <= result.rows@.len(),
            rows == result.row_seq(),
            f == (|r: Seq<Seq<char>>| md_row(r)),
            out@ == head + rows.take(i as int).flat_map(f),
        decreases result.rows@.len() - i,
    {
        proof {
            rows.take(i as int).lemma_flat_map_push(f, rows[i as int]);
            assert(rows.take(i + 1) =~= rows.take(i as int).push(rows[i as int]));
            assert(rows[i as int] =~= strings_view(result.rows@[i as int]@));
        }
        push_md_row(&mut out, result.rows[i].as_slice());
        i += 1;
        assert(out@ =~= head + rows.take(i as int).flat_map(f));
    }
    assert(rows.take(result.rows@.len() as int) =~= rows);
    assert(out@ =~= markdown_text(*result));
    out
}

// ---------------------------------------------------------- Excel HTML

/// An HTML table that Excel opens.
pub open spec fn excel_html_text(result: QueryResult) -> Seq<char> {
    let head = if result.header_seq().len() > 0 {
        "<thead><tr>"@ + wrapped_cells(result.header_seq(), "<th>"@, Escape::Html, "</th>"@)
            + "</tr></thead>\n"@
    } else {
        seq![]
    };
    "<!DOCTYPE html>\n"@
        + "<html><head><meta charset=\"utf-8\"><title>Export</title></head><body>\n"@
        + "<table border=\"1\" cellspacing=\"0\" cellpadding=\"4\">\n"@ + head + "<tbody>\n"@
        + result.row_seq().flat_map(
        |r: Seq<Seq<char>>| "<tr>"@ + wrapped_cells(r, "<td>"@, Escape::Html, "</td>"@) + "</tr>\n"@,
    ) + "</tbody></table>\n"@ + "</body></html>\n"@
}

fn to_excel_html_chars(result: &QueryResult) -> (r: Vec<char>)
    ensures
        r@ == excel_html_text(*result),
{
    let mut out: Vec<char> = Vec::new();
    push_lit(&mut out, "<!DOCTYPE html>\n");
    push_lit(&mut out, "<html><head><meta charset=\"utf-8\"><title>Export</title></head><body>\n");
    push_lit(&mut out, "<table border=\"1\" cellspacing=\"0\" cellpadding=\"4\">\n");
    proof {
        assert(result.header_seq() =~= strings_view(result.headers@));
    }
    if result.headers.len() > 0 {
        push_lit(&mut out, "<thead><tr>");
        push_wrapped_cells(&mut out, result.headers.as_slice(), "<th>", Escape::Html, "</th>");
        push_lit(&mut out, "</tr></thead>\n");
    }
    push_lit(&mut out, "<tbody>\n");
    let ghost head = out@;
    let ghost rows = result.row_seq();
    let ghost f = |r: Seq<Seq<char>>|
        "<tr>"@ + wrapped_cells(r, "<td>"@, Escape::Html, "</td>"@) + "</tr>\n"@;
    let mut i: usize = 0;
    while i < result.rows.len()
        invariant
            i <= result.rows@.len(),
            rows == result.row_seq(),
            f == (|r: Seq<Seq<char>>|
                "<tr>"@ + wrapped_cells(r, "<td>"@, Escape::Html, "</td>"@) + "</tr>\n"@),
            out@ == head + rows.take(i as int).flat_map(f),
        decreases result.rows@.len() - i,
    {
        proof {
            rows.take(i as int).lemma_flat_map_push(f, rows[i as int]);
            assert(rows.take(i + 1) =~= rows.take(i as int).push(rows[i as int]));
            assert(rows[i as int] =~= strings_view(result.rows@[i as int]@));
        }
        push_lit(&mut out, "<tr>");
        push_wrapped_cells(&mut out, result.rows[i].as_slice(), "<td>", Escape::Html, "</td>");
        push_lit(&mut out, "</tr>\n");
        i += 1;
        assert(out@ =~= head + rows.take(i as int).flat_map(f));
    }
    assert(rows.take(result.rows@.len() as int) =~= rows);
    push_lit(&mut out, "</tbody></table>\n");
    push_lit(&mut out, "</body></html>\n");
    assert(out@ =~= excel_html_text(*result));
    out
}

// ----------------------------------------------------------- Excel XML

/// An Excel 2003 XML (SpreadsheetML) workbook with one worksheet.
pub open spec fn excel_xml_text(result: QueryResult) -> Seq<char> {
    let cell_open = "        <Cell><Data ss:Type=\"String\">"@;
    let cell_close = "</Data></Cell>\n"@;
    let head = if result.header_seq().len() > 0 {
        "      <Row>\n"@ + wrapped_cells(result.header_seq(), cell_open, Escape::Html, cell_close)
            + "      </Row>\n"@
    } else {
        seq![]
    };
    "<?xml version=\"1.0\"?>\n"@ + "<Workbook xmlns=\"urn:schemas-microsoft-com:office:spreadsheet\" "@
        + "xmlns:o=\"urn:schemas-microsoft-com:office:office\" "@
        + "xmlns:x=\"urn:schemas-microsoft-com:office:excel\" "@
        + "xmlns:ss=\"urn:schemas-microsoft-com:office:spreadsheet\">\n"@
        + "  <Worksheet ss:Name=\"Export\">\n"@ + "    <Table>\n"@ + head + result.row_seq().flat_map(
        |r: Seq<Seq<char>>|
            "      <Row>\n"@ + wrapped_cells(r, cell_open, Escape::Html, cell_close)
                + "      </Row>\n"@,
    ) + "    </Table>\n"@ + "  </Worksheet>\n"@ + "</Workbook>\n"@
}

fn to_excel_xml_chars(result: &QueryResult) -> (r: Vec<char>)
    ensures
        r@ == excel_xml_text(*result),
{
    let mut out: Vec<char> = Vec::new();
    push_lit(&mut out, "<?xml version=\"1.0\"?>\n");
    push_lit(&mut out, "<Workbook xmlns=\"urn:schemas-microsoft-com:office:spreadsheet\" ");
    push_lit(&mut out, "xmlns:o=\"urn:schemas-microsoft-com:office:office\" ");
    push_lit(&mut out, "xmlns:x=\"urn:schemas-microsoft-com:office:excel\" ");
    push_lit(&mut out, "xmlns:ss=\"urn:schemas-microsoft-com:office:spreadsheet\">\n");
    push_lit(&mut out, "  <Worksheet ss:Name=\"Export\">\n");
    push_lit(&mut out, "    <Table>\n");
    proof {
        assert(result.header_seq() =~= strings_view(result.headers@));
    }
    if result.headers.len() > 0 {
        push_lit(&mut out, "      <Row>\n");
        push_wrapped_cells(
            &mut out,
            result.headers.as_slice(),
            "        <Cell><Data ss:Type=\"String\">",
            Escape::Html,
            "</Data></Cell>\n",
        );
        push_lit(&mut out, "      </Row>\n");
    }
    let ghost head = out@;
    let ghost rows = result.row_seq();
    let ghost f = |r: Seq<Seq<char>>|
        "      <Row>\n"@ + wrapped_cells(
            r,
            "        <Cell><Data ss:Type=\"String\">"@,
            Escape::Html,
            "</Data></Cell>\n"@,
        ) + "      </Row>\n"@;
    let mut i: usize = 0;
    while i < result.rows.len()
        invariant
            i <= result.rows@.len(),
            rows == result.row_seq(),
            f == (|r: Seq<Seq<char>>|
                "      <Row>\n"@ + wrapped_cells(
                    r,
                    "        <Cell><Data ss:Type=\"String\">"@,
                    Escape::Html,
                    "</Data></Cell>\n"@,
                ) + "      </Row>\n"@),
            out@ == head + rows.take(i as int).flat_map(f),
        decreases result.rows@.len() - i,
    {
        proof {
            rows.take(i as int).lemma_flat_map_push(f, rows[i as int]);
            assert(rows.take(i + 1) =~= rows.take(i as int).push(rows[i as int]));
            assert(rows[i as int] =~= strings_view(result.rows@[i as int]@));
        }
        push_lit(&mut out, "      <Row>\n");
        push_wrapped_cells(
            &mut out,
            result.rows[i].as_slice(),
            "        <Cell><Data ss:Type=\"String\">",
            Escape::Html,
            "</Data></Cell>\n",
        );
        push_lit(&mut out, "      </Row>\n");
        i += 1;
        assert(out@ =~= head + rows.take(i as int).flat_map(f));
    }
    assert(rows.take(result.rows@.len() as int) =~= rows);
    push_lit(&mut out, "    </Table>\n");
    push_lit(&mut out, "  </Worksheet>\n");
    push_lit(&mut out, "</Workbook>\n");
    assert(out@ =~= excel_xml_text(*result));
    out
}

} // verus!

verus! {

// ------------------------------------------------------------- Word RTF

/// Width of each RTF table cell, in twips.
pub const RTF_CELL_WIDTH: u64 = 2000;

/// Number of columns of the RTF table: the headers', or the longest row's
/// when there are no headers.
pub open spec fn rtf_col_count(result: QueryResult) -> nat {
    if result.header_seq().len() > 0 {
        result.header_seq().len()
    } else {
        max_row_len(result.row_seq())
    }
}

/// Right boundaries of the first `n` cells: `\cellx2000\cellx4000...`.
pub open spec fn cellx_defs(n: nat) -> Seq<char>
    decreases n,
{
    if n == 0 {
        seq![]
    } else {
        cellx_defs((n - 1) as nat) + "\\cellx"@ + decimal(2000 * n)
    }
}

/// Row definition for a table of `n` columns.
pub open spec fn rtf_row_def(n: nat) -> Seq<char> {
    "\\trowd\\trgaph108\\trleft0"@ + cellx_defs(n) + "\n"@
}

/// `k` empty cells.
pub open spec fn rtf_empty_cells(k: nat) -> Seq<char>
    decreases k,
{
    if k == 0 {
        seq![]
    } else {
        rtf_empty_cells((k - 1) as nat) + "\\intbl \\cell"@
    }
}

/// One RTF table row of `n` columns: its cells, then empty cells up to `n`.
pub open spec fn rtf_row(n: nat, cells: Seq<Seq<char>>) -> Seq<char> {
    let missing: nat = if cells.len() < n {
        (n - cells.len()) as nat
    } else {
        0
    };
    rtf_row_def(n) + wrapped_cells(cells, "\\intbl "@, Escape::Rtf, "\\cell"@) + rtf_empty_cells(
        missing,
    ) + "\\row\n"@
}

/// A Word RTF document holding the result as a table.
pub open spec fn rtf_text(result: QueryResult) -> Seq<char> {
    let n = rtf_col_count(result);
    let head = if result.header_seq().len() > 0 {
        rtf_row(n, result.header_seq())
    } else {
        seq![]
    };
    "{\\rtf1\\ansi\\deff0{\\fonttbl{\\f0 Arial;}}\n"@ + "\\fs20\n"@ + head
        + result.row_seq().flat_map(|r: Seq<Seq<char>>| rtf_row(n, r)) + "}\n"@
}

/// The cell boundaries are `i32` twips: the table fits when its last
/// boundary does.
pub open spec fn rtf_fits(result: QueryResult) -> bool {
    2000 * rtf_col_count(result) <= i32::MAX
}

fn push_rtf_row(out: &mut Vec<char>, n: usize, cells: &[String])
    requires
        2000 * n <= i32::MAX,
    ensures
        final(out)@ == old(out)@ + rtf_row(n as nat, strings_view(cells@)),
{
    let ghost before = out@;
    push_lit(out, "\\trowd\\trgaph108\\trleft0");
    let ghost mid = out@;
    let mut i: usize = 0;
    while i < n
        invariant
            i <= n,
            2000 * n <= i32::MAX,
            out@ == mid + cellx_defs(i as nat),
        decreases n - i,
    {
        push_lit(out, "\\cellx");
        let x: u64 = RTF_CELL_WIDTH * (i as u64 + 1);
        push_decimal_chars(out, x);
        i += 1;
        assert(out@ =~= mid + cellx_defs(i as nat));
    }
    push_lit(out, "\n");
    push_wrapped_cells(out, cells, "\\intbl ", Escape::Rtf, "\\cell");
    let ghost filled = out@;
    let missing: usize = if cells.len() < n {
        n - cells.len()
    } else {
        0
    };
    let mut k: usize = 0;
    while k < missing
        invariant
            k <= missing,
            out@ == filled + rtf_empty_cells(k as nat),
        decreases missing - k,
    {
        push_lit(out, "\\intbl \\cell");
        k += 1;
        assert(out@ =~= filled + rtf_empty_cells(k as nat));
    }
    push_lit(out, "\\row\n");
    assert(out@ =~= before + rtf_row(n as nat, strings_view(cells@)));
}

fn to_rtf_chars(result: &QueryResult) -> (r: Vec<char>)
    requires
        rtf_fits(*result),
    ensures
        r@ == rtf_text(*result),
{
    let mut out: Vec<char> = Vec::new();
    push_lit(&mut out, "{\\rtf1\\ansi\\deff0{\\fonttbl{\\f0 Arial;}}\n");
    push_lit(&mut out, "\\fs20\n");
    proof {
        assert(result.header_seq() =~= strings_view(result.headers@));
    }
    let n: usize = if result.headers.len() > 0 {
        result.headers.len()
    } else {
        max_row_len_of(&result.rows)
    };
    if result.headers.len() > 0 {
        push_rtf_row(&mut out, n, result.headers.as_slice());
    }
    let ghost head = out@;
    let ghost rows = result.row_seq();
    let ghost f = |r: Seq<Seq<char>>| rtf_row(n as nat, r);
    let mut i: usize = 0;
    while i < result.rows.len()
        invariant
            i <= result.rows@.len(),
            rows == result.row_seq(),
            n == rtf_col_count(*result),
            2000 * n <= i32::MAX,
            f == (|r: Seq<Seq<char>>| rtf_row(n as nat, r)),
            out@ == head + rows.take(i as int).flat_map(f),
        decreases result.rows@.len() - i,
    {
        proof {
            rows.take(i as int).lemma_flat_map_push(f, rows[i as int]);
            assert(rows.take(i + 1) =~= rows.take(i as int).push(rows[i as int]));
            assert(rows[i as int] =~= strings_view(result.rows@[i as int]@));
        }
        push_rtf_row(&mut out, n, result.rows[i].as_slice());
        i += 1;
        assert(out@ =~= head + rows.take(i as int).flat_map(f));
    }
    assert(rows.take(result.rows@.len() as int) =~= rows);
    push_lit(&mut out, "}\n");
    assert(out@ =~= rtf_text(*result));
    out
}

} // verus!

verus! {

// ----------------------------------------------------------------- JSON

/// One JSON object as key/value pairs: each header with the row's cell at
/// its position, or no value (`null`) past the end of the row.
pub open spec fn json_object(headers: Seq<Seq<char>>, row: Seq<Seq<char>>) -> Seq<
    (Seq<char>, Option<Seq<char>>),
> {
    Seq::new(
        headers.len(),
        |i: int|
            (headers[i], if i < row.len() {
                Some(row[i])
            } else {
                None
            }),
    )
}

/// The objects of the JSON export, one per row, keyed by the effective
/// headers.
pub open spec fn json_rows(result: QueryResult) -> Seq<Seq<(Seq<char>, Option<Seq<char>>)>> {
    result.row_seq().map_values(|r: Seq<Seq<char>>| json_object(effective_headers(result), r))
}

/// Name for what `serde_json::to_string` returns on the `Value::Object`
/// built from these pairs (`Value::String` for a value, `Value::Null` for
/// none; a later equal key replaces an earlier one): `None` stands for its
/// error.
pub uninterp spec fn json_object_text(obj: Seq<(Seq<char>, Option<Seq<char>>)>) -> Option<
    Seq<char>,
>;

/// The texts of the objects, in order, when each serializes.
pub open spec fn json_items(objs: Seq<Seq<(Seq<char>, Option<Seq<char>>)>>) -> Option<
    Seq<Seq<char>>,
>
    decreases objs.len(),
{
    if objs.len() == 0 {
        Some(seq![])
    } else {
        match (json_items(objs.drop_last()), json_object_text(objs.last())) {
            (Some(ts), Some(t)) => Some(ts.push(t)),
            _ => None,
        }
    }
}

/// The compact JSON text of the array of these objects: `[`, the objects'
/// texts separated by `,`, and `]`; `None` when an object does not
/// serialize.
pub open spec fn json_array_text(objs: Seq<Seq<(Seq<char>, Option<Seq<char>>)>>) -> Option<
    Seq<char>,
> {
    match json_items(objs) {
        Some(ts) => Some(seq!['['] + join(ts, seq![',']) + seq![']']),
        None => None,
    }
}

/// The JSON document: the serialized text, or `[]` when serialization
/// failed.
pub open spec fn json_or_empty(serialized: Option<Seq<char>>) -> Seq<char> {
    match serialized {
        Some(t) => t,
        None => "[]"@,
    }
}

/// Serializes one object with `serde_json::to_string`, each pair becoming an
/// entry of a `serde_json::Map` (a later equal key replaces an earlier one,
/// as `Map::insert` does). Claimed: the result is `json_object_text` of the
/// pairs, `None` for an error of `to_string`.
#[verifier::external_body]
fn serialize_object(obj: &Vec<(String, Option<String>)>) -> (r: Option<String>)
    ensures
        r.deep_view() == json_object_text(obj.deep_view()),
{
    let map: serde_json::Map<String, serde_json::Value> = obj.iter().map(|(k, v)| (k.clone(), match v {
        Some(s) => serde_json::Value::String(s.clone()),
        None => serde_json::Value::Null,
    })).collect();
    serde_json::to_string(&serde_json::Value::Object(map)).ok()
}

/// Serializes the objects as a compact JSON array, as `serde_json` writes
/// one: `[`, each object's text, separated by `,`, then `]`.
fn serialize_objects(objs: &Vec<Vec<(String, Option<String>)>>) -> (r: Option<String>)
    ensures
        r.deep_view() == json_array_text(objs.deep_view()),
{
    let ghost all = objs.deep_view();
    let mut texts: Vec<Vec<char>> = Vec::new();
    let mut i: usize = 0;
    while i < objs.len()
        invariant
            i <= objs@.len(),
            all == objs.deep_view(),
            json_items(all.take(i as int)) == Some(vecs_view(texts@)),
        decreases objs@.len() - i,
    {
        assert(all.take(i + 1).drop_last() =~= all.take(i as int));
        assert(all.take(i + 1).last() == objs@[i as int].deep_view());
        match serialize_object(&objs[i]) {
            Some(t) => {
                let c = chars_of(t.as_str());
                texts.push(c);
                assert(vecs_view(texts@) =~= vecs_view(texts@).drop_last().push(t@));
            },
            None => {
                proof {
                    lemma_json_items_none(all, i as int + 1);
                }
                return None;
            },
        }
        i += 1;
    }
    assert(all.take(objs@.len() as int) =~= all);
    let mut out: Vec<char> = Vec::new();
    out.push('[');
    let sep = vec![','];
    assert(sep@ =~= seq![',']);
    let joined = join_chars(&texts, sep.as_slice());
    assert(texts@.map_values(|p: Vec<char>| p@) =~= vecs_view(texts@));
    append_chars(&mut out, joined.as_slice());
    out.push(']');
    assert(out@ =~= seq!['['] + join(vecs_view(texts@), seq![',']) + seq![']']);
    Some(string_from_chars(out.as_slice()))
}

proof fn lemma_json_items_none(objs: Seq<Seq<(Seq<char>, Option<Seq<char>>)>>, n: int)
    requires
        0 <= n <= objs.len(),
        json_items(objs.take(n)) is None,
    ensures
        json_items(objs) is None,
    decreases objs.len() - n,
{
    if n < objs.len() {
        assert(objs.take(n + 1).drop_last() =~= objs.take(n));
        lemma_json_items_none(objs, n + 1);
    } else {
        assert(objs.take(n) =~= objs);
    }
}

/// The key/value pairs of the JSON export, one list per row.
pub fn json_objects(result: &QueryResult) -> (r: Vec<Vec<(String, Option<String>)>>)
    ensures
        r.deep_view() == json_rows(*result),
{
    let headers = effective_headers_of(result);
    let ghost h = effective_headers(*result);
    let mut out: Vec<Vec<(String, Option<String>)>> = Vec::new();
    let mut i: usize = 0;
    while i < result.rows.len()
        invariant
            i <= result.rows@.len(),
            strings_view(headers@) == h,
            h == effective_headers(*result),
            out@.len() == i,
            forall|k: int|
                0 <= k < i ==> (#[trigger] out@[k]).deep_view() == json_object(
                    h,
                    result.row_seq()[k],
                ),
        decreases result.rows@.len() - i,
    {
        let row = &result.rows[i];
        let mut obj: Vec<(String, Option<String>)> = Vec::new();
        let mut j: usize = 0;
        while j < headers.len()
            invariant
                j <= headers@.len(),
                strings_view(headers@) == h,
                row@ == result.rows@[i as int]@,
                obj@.len() == j,
                forall|k: int|
                    0 <= k < j ==> (#[trigger] obj@[k]).deep_view() == json_object(
                        h,
                        row.deep_view(),
                    )[k],
            decreases headers@.len() - j,
        {
            let v: Option<String> = if j < row.len() {
                Some(row[j].clone())
            } else {
                None
            };
            obj.push((headers[j].clone(), v));
            j += 1;
        }
        assert(obj.deep_view() =~= json_object(h, row.deep_view()));
        assert(row.deep_view() == result.row_seq()[i as int]);
        out.push(obj);
        i += 1;
    }
    assert(out.deep_view() =~= json_rows(*result));
    out
}

/// The document written for a serialization outcome: the serialized text,
/// or `[]` when there is none.
pub fn json_document(serialized: Option<String>) -> (r: String)
    ensures
        r@ == json_or_empty(serialized.deep_view()),
{
    match serialized {
        Some(t) => t,
        None => {
            let mut s = String::new();
            crate::text::push_str(&mut s, "[]");
            s
        },
    }
}

/// The result as a compact JSON array of objects keyed by the headers
/// (`col_1`, `col_2`, ... when there are none); cells missing from a row
/// are `null`.
pub fn to_json(result: &QueryResult) -> (r: String)
    ensures
        r@ == json_or_empty(json_array_text(json_rows(*result))),
{
    let objs = json_objects(result);
    let serialized = serialize_objects(&objs);
    json_document(serialized)
}

} // verus!

verus! {

// -------------------------------------------------------------- exports

/// The result as CSV.
pub fn to_csv(result: &QueryResult, opts: &CsvOptions) -> (r: String)
    ensures
        r@ == csv_text(*result, *opts),
{
    let v = to_csv_chars(result, opts);
    string_from_chars(v.as_slice())
}

/// The result as one `INSERT` statement per row.
pub fn to_sql_inserts(result: &QueryResult, opts: &SqlOptions) -> (r: String)
    ensures
        r@ == sql_text(*result, *opts),
{
    let v = to_sql_chars(result, opts);
    string_from_chars(v.as_slice())
}

/// The result as a Markdown table.
pub fn to_markdown_table(result: &QueryResult) -> (r: String)
    ensures
        r@ == markdown_text(*result),
{
    let v = to_markdown_chars(result);
    string_from_chars(v.as_slice())
}

/// The result as an HTML table for Excel.
pub fn to_excel_html(result: &QueryResult) -> (r: String)
    ensures
        r@ == excel_html_text(*result),
{
    let v = to_excel_html_chars(result);
    string_from_chars(v.as_slice())
}

/// The result as an Excel 2003 XML workbook.
pub fn to_excel_xml(result: &QueryResult) -> (r: String)
    ensures
        r@ == excel_xml_text(*result),
{
    let v = to_excel_xml_chars(result);
    string_from_chars(v.as_slice())
}

/// The result as a Word RTF table.
pub fn to_word_rtf(result: &QueryResult) -> (r: String)
    requires
        rtf_fits(*result),
    ensures
        r@ == rtf_text(*result),
{
    let v = to_rtf_chars(result);
    string_from_chars(v.as_slice())
}

/// The text written for a format.
pub open spec fn export_text(result: QueryResult, format: ExportFormat) -> Seq<char> {
    match format {
        ExportFormat::Csv(o) => csv_text(result, o),
        ExportFormat::Sql(o) => sql_text(result, o),
        ExportFormat::Markdown => markdown_text(result),
        ExportFormat::ExcelHtml => excel_html_text(result),
        ExportFormat::ExcelXml => excel_xml_text(result),
        ExportFormat::WordRtf => rtf_text(result),
        ExportFormat::Json => json_or_empty(json_array_text(json_rows(result))),
    }
}

/// Why a result cannot be exported.
#[derive(Debug, Clone, Copy, PartialEq, Eq, Structural)]
pub enum ExportError {
    /// The result holds only a message, no table.
    MessageOnly,
}

impl ExportError {
    /// The error's text.
    pub fn message(&self) -> (r: String)
        ensures
            r@ == "Result contains only a message; no table to export"@,
    {
        let mut s = String::new();
        crate::text::push_str(&mut s, "Result contains only a message; no table to export");
        s
    }
}

/// Exports the result in the format and returns the UTF-8 bytes.
pub fn export_to_bytes(result: &QueryResult, format: ExportFormat) -> (r: Result<
    Vec<u8>,
    ExportError,
>)
    requires
        format is WordRtf ==> rtf_fits(*result),
    ensures
        r matches Ok(b) && b@ == vstd::utf8::encode_utf8(export_text(*result, format)),
{
    let text: String = match format {
        ExportFormat::Csv(opts) => to_csv(result, &opts),
        ExportFormat::Sql(opts) => to_sql_inserts(result, &opts),
        ExportFormat::Markdown => to_markdown_table(result),
        ExportFormat::ExcelHtml => to_excel_html(result),
        ExportFormat::ExcelXml => to_excel_xml(result),
        ExportFormat::WordRtf => to_word_rtf(result),
        ExportFormat::Json => to_json(result),
    };
    let bytes = vstd::slice::slice_to_vec(text.as_str().as_bytes());
    Ok(bytes)
}

/// The usual file extension for a format.
pub open spec fn extension_of(format: ExportFormat) -> Seq<char> {
    match format {
        ExportFormat::Csv(_) => "csv"@,
        ExportFormat::Sql(_) => "sql"@,
        ExportFormat::Markdown => "md"@,
        ExportFormat::ExcelHtml => "xls"@,
        ExportFormat::ExcelXml => "xml"@,
        ExportFormat::WordRtf => "rtf"@,
        ExportFormat::Json => "json"@,
    }
}

/// A typical file extension for a format.
pub fn suggested_extension(format: &ExportFormat) -> (r: &'static str)
    ensures
        r@ == extension_of(*format),
{
    match format {
        ExportFormat::Csv(_) => "csv",
        ExportFormat::Sql(_) => "sql",
        ExportFormat::Markdown => "md",
        ExportFormat::ExcelHtml => "xls",
        ExportFormat::ExcelXml => "xml",
        ExportFormat::WordRtf => "rtf",
        ExportFormat::Json => "json",
    }
}

/// A result is refused for export when it has neither headers nor rows but
/// a message.
pub open spec fn message_only(result: QueryResult) -> bool {
    result.headers@.len() == 0 && result.rows@.len() == 0 && result.message is Some
}

/// Checks that the result is a table.
pub fn validate_tabular(result: &QueryResult) -> (r: Result<(), ExportError>)
    ensures
        r is Err <==> message_only(*result),
        r is Err ==> r == Err::<(), ExportError>(ExportError::MessageOnly),
{
    if result.headers.len() == 0 && result.rows.len() == 0 && result.message.is_some() {
        return Err(ExportError::MessageOnly);
    }
    Ok(())
}

} // verus!

verus! {

// ----------------------------------------------------------------- laws

/// Reads back a text in which every `q` was written twice.
pub open spec fn undoubled(q: char, s: Seq<char>) -> Seq<char>
    decreases s.len(),
{
    if s.len() == 0 {
        seq![]
    } else if s.len() >= 2 && s[0] == q && s[1] == q {
        seq![q] + undoubled(q, s.skip(2))
    } else {
        seq![s[0]] + undoubled(q, s.skip(1))
    }
}

/// Reads back a text that may be enclosed in `q` with inner `q` doubled.
pub open spec fn unquoted(q: char, f: Seq<char>) -> Seq<char> {
    if f.len() >= 2 && f[0] == q && f.last() == q {
        undoubled(q, f.subrange(1, f.len() - 1))
    } else {
        f
    }
}

/// `f` writes `q` twice and keeps other characters.
pub open spec fn doubles(f: spec_fn(char) -> Seq<char>, q: char) -> bool {
    forall|c: char| #[trigger] f(c) == if c == q { seq![q, q] } else { seq![c] }
}

proof fn lemma_flat_map_front<A, B>(s: Seq<A>, f: spec_fn(A) -> Seq<B>)
    requires
        s.len() > 0,
    ensures
        s.flat_map(f) == f(s[0]) + s.drop_first().flat_map(f),
{
    assert(s.map_values(f).drop_first() =~= s.drop_first().map_values(f));
}

proof fn lemma_flat_map_excludes<A, B>(s: Seq<A>, f: spec_fn(A) -> Seq<B>, x: B)
    requires
        forall|a: A| !(#[trigger] f(a)).contains(x),
    ensures
        !s.flat_map(f).contains(x),
    decreases s.len(),
{
    if s.len() > 0 {
        lemma_flat_map_front(s, f);
        lemma_flat_map_excludes(s.drop_first(), f, x);
        let t = s.flat_map(f);
        if t.contains(x) {
            let k = choose|k: int| 0 <= k < t.len() && t[k] == x;
            if k < f(s[0]).len() {
                assert(f(s[0])[k] == x);
            } else {
                assert(s.drop_first().flat_map(f)[k - f(s[0]).len()] == x);
            }
        }
    }
}

proof fn lemma_undoubled_doubled(q: char, s: Seq<char>, f: spec_fn(char) -> Seq<char>)
    requires
        doubles(f, q),
    ensures
        undoubled(q, s.flat_map(f)) == s,
    decreases s.len(),
{
    if s.len() > 0 {
        lemma_flat_map_front(s, f);
        lemma_undoubled_doubled(q, s.drop_first(), f);
        let d = s.flat_map(f);
        let rest = s.drop_first().flat_map(f);
        assert(f(s[0]) == if s[0] == q { seq![q, q] } else { seq![s[0]] });
        if s[0] == q {
            assert(d.skip(2) =~= rest);
        } else {
            assert(d.skip(1) =~= rest);
        }
        assert(s =~= seq![s[0]] + s.drop_first());
    }
}

proof fn lemma_doubled_without_q(q: char, s: Seq<char>, f: spec_fn(char) -> Seq<char>)
    requires
        doubles(f, q),
        !s.contains(q),
    ensures
        s.flat_map(f) == s,
    decreases s.len(),
{
    if s.len() > 0 {
        lemma_flat_map_front(s, f);
        assert(s[0] != q);
        assert(f(s[0]) == seq![s[0]]);
        assert(!s.drop_first().contains(q)) by {
            if s.drop_first().contains(q) {
                let k = choose|k: int| 0 <= k < s.drop_first().len() && s.drop_first()[k] == q;
                assert(s[k + 1] == q);
            }
        }
        lemma_doubled_without_q(q, s.drop_first(), f);
        assert(s =~= seq![s[0]] + s.drop_first());
    }
}

/// A CSV field reads back as the text it was made from: strip the
/// enclosing quotes, if any, and undouble the inner ones.
pub proof fn law_csv_field_round_trip(s: Seq<char>, delimiter: char)
    ensures
        unquoted('"', csv_field(s, delimiter)) == s,
{
    let f = |c: char| csv_double_char(c);
    let d = s.flat_map(f);
    lemma_undoubled_doubled('"', s, f);
    if csv_must_quote(s, delimiter) {
        let w = seq!['"'] + d + seq!['"'];
        assert(w.subrange(1, w.len() - 1) =~= d);
    } else {
        lemma_doubled_without_q('"', s, f);
        assert(!s.contains('"'));
        if s.len() >= 2 && s[0] == '"' {
            assert(s.contains('"'));
        }
    }
}

/// A quoted SQL value reads back as the cell it was made from; only an empty
/// cell written as `NULL` does not.
pub proof fn law_sql_literal_round_trip(v: Seq<char>, null_when_empty: bool)
    requires
        !(null_when_empty && v.len() == 0),
    ensures
        unquoted('\'', sql_literal(v, null_when_empty)) == v,
{
    let f = |c: char| quote_double_char(c);
    lemma_undoubled_doubled('\'', v, f);
    let w = sql_literal(v, null_when_empty);
    assert(w.subrange(1, w.len() - 1) =~= v.flat_map(f));
}

/// An identifier as written reads back as the name it was made from.
pub proof fn law_identifier_round_trip(id: Seq<char>)
    ensures
        unquoted('`', sql_identifier(id)) == id,
{
    let f = |c: char| backtick_double_char(c);
    if forall|i: int| 0 <= i < id.len() ==> is_ascii_alnum(#[trigger] id[i]) || id[i] == '_' {
        if id.len() >= 2 && id[0] == '`' {
            assert(is_ascii_alnum(id[0]) || id[0] == '_');
        }
    } else {
        lemma_undoubled_doubled('`', id, f);
        let w = sql_identifier(id);
        assert(w.subrange(1, w.len() - 1) =~= id.flat_map(f));
    }
}

/// HTML (and XML) escaping leaves no `<`, `>` or `"` in the text.
pub proof fn law_html_escape_has_no_markup(s: Seq<char>)
    ensures
        !escaped(Escape::Html, s).contains('<'),
        !escaped(Escape::Html, s).contains('>'),
        !escaped(Escape::Html, s).contains('"'),
{
    let f = |c: char| escape_char(Escape::Html, c);
    assert forall|c: char| !(#[trigger] f(c)).contains('<') && !f(c).contains('>') && !f(
        c,
    ).contains('"') by {
        let e = f(c);
        if e.contains('<') {
            let k = choose|k: int| 0 <= k < e.len() && e[k] == '<';
        }
        if e.contains('>') {
            let k = choose|k: int| 0 <= k < e.len() && e[k] == '>';
        }
        if e.contains('"') {
            let k = choose|k: int| 0 <= k < e.len() && e[k] == '"';
        }
    }
    lemma_flat_map_excludes(s, f, '<');
    lemma_flat_map_excludes(s, f, '>');
    lemma_flat_map_excludes(s, f, '"');
}

/// RTF escaping leaves no line break in the text.
pub proof fn law_rtf_escape_has_no_line_break(s: Seq<char>)
    ensures
        !escaped(Escape::Rtf, s).contains('\n'),
{
    let f = |c: char| escape_char(Escape::Rtf, c);
    assert forall|c: char| !(#[trigger] f(c)).contains('\n') by {
        let e = f(c);
        if e.contains('\n') {
            let k = choose|k: int| 0 <= k < e.len() && e[k] == '\n';
        }
    }
    lemma_flat_map_excludes(s, f, '\n');
}

proof fn lemma_json_items(objs: Seq<Seq<(Seq<char>, Option<Seq<char>>)>>)
    ensures
        (forall|k: int| 0 <= k < objs.len() ==> (#[trigger] json_object_text(objs[k])) is Some)
            <==> json_items(objs) is Some,
        json_items(objs) matches Some(ts) ==> ts.len() == objs.len() && forall|k: int|
            0 <= k < objs.len() ==> #[trigger] json_object_text(objs[k]) == Some(ts[k]),
    decreases objs.len(),
{
    if objs.len() > 0 {
        let d = objs.drop_last();
        lemma_json_items(d);
        assert(objs.last() == objs[objs.len() - 1]);
        assert forall|k: int| 0 <= k < d.len() implies d[k] == objs[k] by {}
        if forall|k: int| 0 <= k < objs.len() ==> (#[trigger] json_object_text(objs[k])) is Some {
            assert forall|k: int| 0 <= k < d.len() implies (#[trigger] json_object_text(d[k])) is Some by {
                assert(d[k] == objs[k]);
            }
        }
        if json_items(objs) is Some {
            let ts = json_items(objs)->0;
            let ds = json_items(d)->0;
            assert(ts == ds.push(json_object_text(objs.last())->0));
            assert forall|k: int| 0 <= k < objs.len() implies #[trigger] json_object_text(objs[k]) == Some(ts[k]) by {
                if k < d.len() {
                    assert(d[k] == objs[k]);
                    assert(json_object_text(d[k]) == Some(ds[k]));
                }
            }
        }
    }
}

/// The JSON array holds one object per row, in row order: it is `[`, the
/// text of object `k` for each `k` in turn separated by `,`, and `]`; it
/// exists exactly when every object serializes.
pub proof fn law_json_array_elements(objs: Seq<Seq<(Seq<char>, Option<Seq<char>>)>>)
    ensures
        (forall|k: int| 0 <= k < objs.len() ==> (#[trigger] json_object_text(objs[k])) is Some)
            <==> json_array_text(objs) is Some,
        json_array_text(objs) matches Some(t) ==> exists|ts: Seq<Seq<char>>|
            #![trigger join(ts, seq![','])]
            ts.len() == objs.len() && (forall|k: int|
                0 <= k < objs.len() ==> #[trigger] json_object_text(objs[k]) == Some(ts[k])) && t
                == seq!['['] + join(ts, seq![',']) + seq![']'],
{
    lemma_json_items(objs);
    if json_items(objs) is Some {
        let ts = json_items(objs)->0;
        assert(json_array_text(objs) == Some(seq!['['] + join(ts, seq![',']) + seq![']']));
    }
}

/// Adding a row adds its object at the end of the array, after a `,` when
/// there were rows before.
pub proof fn law_json_row_appended(
    objs: Seq<Seq<(Seq<char>, Option<Seq<char>>)>>,
    obj: Seq<(Seq<char>, Option<Seq<char>>)>,
    t: Seq<char>,
    x: Seq<char>,
)
    requires
        json_array_text(objs) == Some(t),
        json_object_text(obj) == Some(x),
    ensures
        json_array_text(objs.push(obj)) == Some(t.drop_last() + (if objs.len() > 0 {
            seq![',']
        } else {
            Seq::<char>::empty()
        }) + x + seq![']']),
{
    let ts = json_items(objs)->0;
    let all = objs.push(obj);
    assert(all.drop_last() =~= objs);
    assert(all.last() == obj);
    assert(json_items(all) == Some(ts.push(x)));
    lemma_json_items(objs);
    let j = join(ts, seq![',']);
    assert(t.drop_last() =~= seq!['['] + j);
    if objs.len() == 0 {
        assert(ts.len() == 0);
        assert(ts.push(x) =~= seq![x]);
        assert(join(ts.push(x), seq![',']) == x);
    } else {
        assert(ts.push(x).drop_last() =~= ts);
        assert(join(ts.push(x), seq![',']) == j + seq![','] + x);
    }
    assert(seq!['['] + join(ts.push(x), seq![',']) + seq![']'] =~= t.drop_last() + (if objs.len()
        > 0 {
        seq![',']
    } else {
        Seq::<char>::empty()
    }) + x + seq![']']);
}

/// The JSON export of a result is `[`, then for each row in order the
/// serialized object pairing each header with that row's cell, separated by
/// `,`, then `]`; `[]` when an object does not serialize.
pub proof fn law_json_export_rows_in_order(result: QueryResult)
    ensures
        ({
            let h = effective_headers(result);
            let rows = result.row_seq();
            let text = export_text(result, ExportFormat::Json);
            &&& (forall|k: int| 0 <= k < rows.len() ==> (#[trigger] json_object_text(json_object(h, rows[k]))) is Some)
                ==> exists|ts: Seq<Seq<char>>|
                #![trigger join(ts, seq![','])]
                ts.len() == rows.len() && (forall|k: int|
                    0 <= k < rows.len() ==> #[trigger] json_object_text(json_object(h, rows[k])) == Some(ts[k]))
                    && text == seq!['['] + join(ts, seq![',']) + seq![']']
            &&& !(forall|k: int| 0 <= k < rows.len() ==> (#[trigger] json_object_text(json_object(h, rows[k]))) is Some)
                ==> text == "[]"@
        }),
{
    let objs = json_rows(result);
    let h = effective_headers(result);
    let rows = result.row_seq();
    assert forall|k: int| 0 <= k < rows.len() implies #[trigger] objs[k] == json_object(h, rows[k]) by {}
    law_json_array_elements(objs);
    if forall|k: int| 0 <= k < rows.len() ==> (#[trigger] json_object_text(json_object(h, rows[k]))) is Some {
        assert forall|k: int| 0 <= k < objs.len() implies (#[trigger] json_object_text(objs[k])) is Some by {
            assert(objs[k] == json_object(h, rows[k]));
        }
        let t = json_array_text(objs)->0;
        let ts = choose|ts: Seq<Seq<char>>|
            #![trigger join(ts, seq![','])]
            ts.len() == objs.len() && (forall|k: int|
                0 <= k < objs.len() ==> #[trigger] json_object_text(objs[k]) == Some(ts[k])) && t
                == seq!['['] + join(ts, seq![',']) + seq![']'];
        assert forall|k: int| 0 <= k < rows.len() implies #[trigger] json_object_text(json_object(h, rows[k])) == Some(ts[k]) by {
            assert(objs[k] == json_object(h, rows[k]));
        }
        assert(join(ts, seq![',']) == join(ts, seq![',']));
    } else {
        let k = choose|k: int| 0 <= k < rows.len() && !((#[trigger] json_object_text(json_object(h, rows[k]))) is Some);
        assert(objs[k] == json_object(h, rows[k]));
        assert(!(json_object_text(objs[k]) is Some));
    }
}

} // verus!
