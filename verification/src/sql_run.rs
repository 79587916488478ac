//! Running a script in the SQL editor: splitting it into statements, one
//! result tab per statement result, the summary of a run, and the database
//! picker's state.

use vstd::prelude::*;
use vstd::utf8::{decode_utf8, encode_utf8, is_char_boundary};
use crate::connection::ColumnInfo;
use crate::sql_editor::{pairs_view, SqlSchema};
use crate::text::{
    append_chars, chars_of, decimal, join, join_chars, lines, lines_chars, push_decimal,
    push_decimal_chars, push_str, split_chars, split_on, string_from_chars, trim, trim_chars,
    vecs_view,
};

verus! {

/// Rows returned by a query.
#[derive(Debug)]
pub struct QueryOutput {
    pub columns: Vec<String>,
    pub rows: Vec<Vec<Option<String>>>,
    pub elapsed_ms: u64,
}

/// Outcome of a statement that returns no rows.
#[derive(Debug)]
pub struct ExecOutput {
    pub rows_affected: u64,
    pub elapsed_ms: u64,
    pub message: Option<String>,
}

/// A statement that failed.
#[derive(Debug)]
pub struct ErrorOutput {
    pub message: String,
}

/// Result of one statement of a script.
#[derive(Debug)]
pub enum SqlResult {
    Query(QueryOutput),
    Exec(ExecOutput),
    Error(ErrorOutput),
}

/// The statements of a script: its pieces between `;`, trimmed, the empty
/// ones left out.
pub open spec fn statements(sql: Seq<char>) -> Seq<Seq<char>> {
    split_on(sql, ';').map_values(|s: Seq<char>| trim(s)).filter(|s: Seq<char>| s.len() > 0)
}

/// Splits a script into its statements.
pub fn split_statements(sql: &str) -> (r: Vec<String>)
    ensures
        r.deep_view() == statements(sql@),
{
    let c = chars_of(sql);
    let parts = split_chars(c.as_slice(), ';');
    let ghost trimmed = vecs_view(parts@).map_values(|s: Seq<char>| trim(s));
    let ghost keep = |s: Seq<char>| s.len() > 0;
    let mut out: Vec<String> = Vec::new();
    let mut i: usize = 0;
    while i < parts.len()
        invariant
            i <= parts@.len(),
            trimmed == vecs_view(parts@).map_values(|s: Seq<char>| trim(s)),
            keep == (|s: Seq<char>| s.len() > 0),
            out.deep_view() == trimmed.take(i as int).filter(keep),
        decreases parts@.len() - i,
    {
        let t = trim_chars(parts[i].as_slice());
        proof {
            trimmed.take(i as int).lemma_filter_push(trimmed[i as int], keep);
            assert(trimmed.take(i + 1) =~= trimmed.take(i as int).push(trimmed[i as int]));
        }
        if t.len() > 0 {
            let s = string_from_chars(t.as_slice());
            out.push(s);
        }
        i += 1;
        assert(out.deep_view() =~= trimmed.take(i as int).filter(keep));
    }
    assert(trimmed.take(parts@.len() as int) =~= trimmed);
    assert(trimmed =~= split_on(sql@, ';').map_values(|s: Seq<char>| trim(s)));
    out
}

/// Number of bytes of a statement's label before it is cut.
pub const LABEL_BYTES: usize = 50;

/// A statement's label: the statement, or its first 50 bytes and `...`
/// when it is longer.
pub open spec fn short_label(s: Seq<char>) -> Seq<char> {
    if encode_utf8(s).len() > 50 {
        decode_utf8(encode_utf8(s).take(50)) + "..."@
    } else {
        s
    }
}

/// A statement longer than 50 bytes can be cut there only at a character
/// boundary.
pub open spec fn label_fits(s: Seq<char>) -> bool {
    encode_utf8(s).len() > 50 ==> is_char_boundary(encode_utf8(s), 50)
}

/// The label of the result at `idx`: its statement shortened, or
/// `Statement n` when the script has fewer statements than results.
pub open spec fn statement_label_spec(stmts: Seq<Seq<char>>, idx: nat) -> Seq<char> {
    if idx < stmts.len() {
        short_label(stmts[idx as int])
    } else {
        "Statement "@ + decimal(idx + 1)
    }
}

fn short_label_of(s: &str) -> (r: String)
    requires
        label_fits(s@),
    ensures
        r@ == short_label(s@),
{
    broadcast use vstd::utf8::encode_utf8_decode_utf8;

    let bytes = s.as_bytes();
    if bytes.len() > LABEL_BYTES {
        let (head, _tail) = s.split_at(LABEL_BYTES);
        proof {
            assert(encode_utf8(s@).take(50) =~= encode_utf8(head@));
            assert(decode_utf8(encode_utf8(head@)) == head@);
        }
        let mut r = head.to_owned();
        push_str(&mut r, "...");
        r
    } else {
        s.to_owned()
    }
}

/// The label of the result at `idx`.
pub fn statement_label(statements: &[String], idx: usize) -> (r: String)
    requires
        idx < statements@.len() ==> label_fits(statements@[idx as int]@),
        idx < usize::MAX,
    ensures
        r@ == statement_label_spec(statements.deep_view(), idx as nat),
{
    if idx < statements.len() {
        short_label_of(statements[idx].as_str())
    } else {
        let mut r = String::new();
        push_str(&mut r, "Statement ");
        push_decimal(&mut r, idx as u64 + 1);
        r
    }
}

} // verus!

verus! {

/// The cells of a result table.
#[derive(Debug)]
pub struct ResultTable {
    pub columns: Vec<String>,
    pub rows: Vec<Vec<String>>,
}

impl ResultTable {
    /// The text of a cell; empty outside the table.
    pub fn cell(&self, row: usize, col: usize) -> (r: String)
        ensures
            r@ == (if row < self.rows@.len() && col < self.rows@[row as int]@.len() {
                self.rows@[row as int]@[col as int]@
            } else {
                Seq::<char>::empty()
            }),
    {
        if row < self.rows.len() && col < self.rows[row].len() {
            self.rows[row][col].clone()
        } else {
            String::new()
        }
    }
}

/// One result tab of a run: the statement's label, its result, the time and
/// row count shown in the tab title, and the table shown in it.
#[derive(Debug)]
pub struct SqlResultTab {
    pub sql: String,
    pub result: SqlResult,
    pub execution_time: String,
    pub rows_count: String,
    pub table: ResultTable,
}

/// A cell as shown: its text, or `NULL`.
pub open spec fn cell_text(c: Option<Seq<char>>) -> Seq<char> {
    match c {
        Some(s) => s,
        None => "NULL"@,
    }
}

/// Query rows as shown.
pub open spec fn shown_rows(rows: Seq<Seq<Option<Seq<char>>>>) -> Seq<Seq<Seq<char>>> {
    rows.map_values(|r: Seq<Option<Seq<char>>>| r.map_values(|c: Option<Seq<char>>| cell_text(c)))
}

/// The execution time shown for a result.
pub open spec fn execution_time_text(r: SqlResult) -> Seq<char> {
    match r {
        SqlResult::Query(q) => decimal(q.elapsed_ms as nat) + "ms"@,
        SqlResult::Exec(e) => decimal(e.elapsed_ms as nat) + "ms"@,
        SqlResult::Error(_) => "Error"@,
    }
}

/// The row count shown for a result.
pub open spec fn rows_count_text(r: SqlResult) -> Seq<char> {
    match r {
        SqlResult::Query(q) => decimal(q.rows@.len()) + " rows"@,
        SqlResult::Exec(e) => decimal(e.rows_affected as nat) + " rows affected"@,
        SqlResult::Error(_) => "Error"@,
    }
}

/// The column names of a result's table.
pub open spec fn table_columns(r: SqlResult) -> Seq<Seq<char>> {
    match r {
        SqlResult::Query(q) => q.columns.deep_view(),
        SqlResult::Exec(_) => seq!["Status"@, "Rows Affected"@],
        SqlResult::Error(_) => seq!["Error"@],
    }
}

/// The rows of a result's table.
pub open spec fn table_rows(r: SqlResult) -> Seq<Seq<Seq<char>>> {
    match r {
        SqlResult::Query(q) => shown_rows(q.rows.deep_view()),
        SqlResult::Exec(e) => seq![
            seq![
                match e.message {
                    Some(m) => m@,
                    None => "Success"@,
                },
                decimal(e.rows_affected as nat),
            ],
        ],
        SqlResult::Error(e) => seq![seq![e.message@]],
    }
}

/// A tab shows a result under a label.
pub open spec fn tab_shows(tab: SqlResultTab, label: Seq<char>, r: SqlResult) -> bool {
    &&& tab.sql@ == label
    &&& tab.result == r
    &&& tab.execution_time@ == execution_time_text(r)
    &&& tab.rows_count@ == rows_count_text(r)
    &&& tab.table.columns.deep_view() == table_columns(r)
    &&& tab.table.rows.deep_view() == table_rows(r)
}

fn decimal_string(n: u64) -> (r: String)
    ensures
        r@ == decimal(n as nat),
{
    let mut s = String::new();
    push_decimal(&mut s, n);
    s
}

fn decimal_with(n: u64, suffix: &str) -> (r: String)
    ensures
        r@ == decimal(n as nat) + suffix@,
{
    let mut s = String::new();
    push_decimal(&mut s, n);
    push_str(&mut s, suffix);
    s
}

fn literal_string(lit: &str) -> (r: String)
    ensures
        r@ == lit@,
{
    lit.to_owned()
}

fn shown_query_rows(rows: &Vec<Vec<Option<String>>>) -> (r: Vec<Vec<String>>)
    ensures
        r.deep_view() == shown_rows(rows.deep_view()),
{
    let mut out: Vec<Vec<String>> = Vec::new();
    let mut i: usize = 0;
    while i < rows.len()
        invariant
            i <= rows@.len(),
            out@.len() == i,
            forall|k: int|
                0 <= k < i ==> (#[trigger] out@[k]).deep_view() == shown_rows(
                    rows.deep_view(),
                )[k],
        decreases rows@.len() - i,
    {
        let row = &rows[i];
        let mut cells: Vec<String> = Vec::new();
        let mut j: usize = 0;
        while j < row.len()
            invariant
                j <= row@.len(),
                row@ == rows@[i as int]@,
                cells@.len() == j,
                forall|k: int|
                    0 <= k < j ==> (#[trigger] cells@[k])@ == cell_text(row.deep_view()[k]),
            decreases row@.len() - j,
        {
            let c = match &row[j] {
                Some(s) => s.clone(),
                None => literal_string("NULL"),
            };
            cells.push(c);
            j += 1;
        }
        assert(cells.deep_view() =~= shown_rows(rows.deep_view())[i as int]);
        out.push(cells);
        i += 1;
    }
    assert(out.deep_view() =~= shown_rows(rows.deep_view()));
    out
}

/// The result tab for a statement's result.
pub fn make_result_tab(label: String, result: SqlResult) -> (r: SqlResultTab)
    ensures
        tab_shows(r, label@, result),
{
    let execution_time: String;
    let rows_count: String;
    let table: ResultTable;
    match &result {
        SqlResult::Query(q) => {
            execution_time = decimal_with(q.elapsed_ms, "ms");
            rows_count = decimal_with(q.rows.len() as u64, " rows");
            let mut columns: Vec<String> = Vec::new();
            let mut i: usize = 0;
            while i < q.columns.len()
                invariant
                    i <= q.columns@.len(),
                    columns@.len() == i,
                    forall|k: int| 0 <= k < i ==> (#[trigger] columns@[k])@ == q.columns@[k]@,
                decreases q.columns@.len() - i,
            {
                columns.push(q.columns[i].clone());
                i += 1;
            }
            assert(columns.deep_view() =~= q.columns.deep_view());
            table = ResultTable { columns, rows: shown_query_rows(&q.rows) };
        },
        SqlResult::Exec(e) => {
            execution_time = decimal_with(e.elapsed_ms, "ms");
            rows_count = decimal_with(e.rows_affected, " rows affected");
            let status = match &e.message {
                Some(m) => m.clone(),
                None => literal_string("Success"),
            };
            let columns = vec![literal_string("Status"), literal_string("Rows Affected")];
            let rows = vec![vec![status, decimal_string(e.rows_affected)]];
            assert(columns.deep_view() =~= seq!["Status"@, "Rows Affected"@]);
            assert(rows.deep_view()[0] =~= table_rows(result)[0]);
            assert(rows.deep_view() =~= table_rows(result));
            table = ResultTable { columns, rows };
        },
        SqlResult::Error(e) => {
            execution_time = literal_string("Error");
            rows_count = literal_string("Error");
            let columns = vec![literal_string("Error")];
            let rows = vec![vec![e.message.clone()]];
            assert(columns.deep_view() =~= seq!["Error"@]);
            assert(rows.deep_view()[0] =~= table_rows(result)[0]);
            assert(rows.deep_view() =~= table_rows(result));
            table = ResultTable { columns, rows };
        },
    }
    SqlResultTab { sql: label, result, execution_time, rows_count, table }
}

/// Every statement that gets a result can be labelled.
pub open spec fn labels_fit(sql: Seq<char>, n: nat) -> bool {
    forall|i: int| 0 <= i < n && i < statements(sql).len() ==> label_fits(#[trigger] statements(sql)[i])
}

/// One tab per result, in order, each labelled with its statement.
pub fn result_tabs(sql: &str, results: Vec<SqlResult>) -> (r: Vec<SqlResultTab>)
    requires
        labels_fit(sql@, results@.len()),
        results@.len() < usize::MAX,
    ensures
        r@.len() == results@.len(),
        forall|i: int|
            0 <= i < r@.len() ==> tab_shows(
                #[trigger] r@[i],
                statement_label_spec(statements(sql@), i as nat),
                results@[i],
            ),
{
    let stmts = split_statements(sql);
    let ghost all = results@;
    let mut rest = results;
    let mut out: Vec<SqlResultTab> = Vec::new();
    let mut i: usize = 0;
    while rest.len() > 0
        invariant
            out@.len() == i,
            i + rest@.len() == all.len(),
            all.len() < usize::MAX,
            stmts.deep_view() == statements(sql@),
            labels_fit(sql@, all.len()),
            rest@ == all.skip(i as int),
            forall|k: int|
                0 <= k < i ==> tab_shows(
                    #[trigger] out@[k],
                    statement_label_spec(statements(sql@), k as nat),
                    all[k],
                ),
        decreases rest@.len(),
    {
        let result = rest.remove(0);
        assert(rest@ =~= all.skip(i + 1));
        proof {
            if i < stmts@.len() {
                assert(stmts.deep_view()[i as int] == stmts@[i as int]@);
            }
        }
        let label = statement_label(stmts.as_slice(), i);
        let tab = make_result_tab(label, result);
        out.push(tab);
        i += 1;
    }
    out
}

} // verus!

verus! {

/// Why a run produced no result tabs.
#[derive(Debug)]
pub enum RunFailure {
    NotConnected,
    EmptyScript,
    NoConnection,
    ExecuteFailed(String),
    NoResults,
}

/// The status line for a failed run.
pub open spec fn failure_text(f: RunFailure) -> Seq<char> {
    match f {
        RunFailure::NotConnected => "Not connected to database"@,
        RunFailure::EmptyScript => "No SQL statements to execute"@,
        RunFailure::NoConnection => "No active connection"@,
        RunFailure::ExecuteFailed(e) => "Failed to execute script: "@ + e@,
        RunFailure::NoResults => "No results"@,
    }
}

impl RunFailure {
    /// The status line shown for the failure.
    pub fn message(&self) -> (r: String)
        ensures
            r@ == failure_text(*self),
    {
        match self {
            RunFailure::NotConnected => literal_string("Not connected to database"),
            RunFailure::EmptyScript => literal_string("No SQL statements to execute"),
            RunFailure::NoConnection => literal_string("No active connection"),
            RunFailure::ExecuteFailed(e) => {
                let mut s = literal_string("Failed to execute script: ");
                push_str(&mut s, e.as_str());
                s
            },
            RunFailure::NoResults => literal_string("No results"),
        }
    }
}

/// Checks made before a script is sent: a connection, and a script that is
/// not blank.
pub fn check_before_run(connected: bool, sql: &str) -> (r: Option<RunFailure>)
    ensures
        !connected ==> r == Some(RunFailure::NotConnected),
        connected && trim(sql@).len() == 0 ==> r == Some(RunFailure::EmptyScript),
        connected && trim(sql@).len() > 0 ==> r is None,
{
    if !connected {
        return Some(RunFailure::NotConnected);
    }
    let c = chars_of(sql);
    let t = trim_chars(c.as_slice());
    if t.len() == 0 {
        Some(RunFailure::EmptyScript)
    } else {
        None
    }
}

/// Rows returned by the queries among the results.
pub open spec fn query_rows_total(rs: Seq<SqlResult>) -> nat
    decreases rs.len(),
{
    if rs.len() == 0 {
        0
    } else {
        query_rows_total(rs.drop_last()) + match rs.last() {
            SqlResult::Query(q) => q.rows@.len(),
            _ => 0,
        }
    }
}

/// Rows returned or affected by the results.
pub open spec fn rows_total(rs: Seq<SqlResult>) -> nat
    decreases rs.len(),
{
    if rs.len() == 0 {
        0
    } else {
        rows_total(rs.drop_last()) + match rs.last() {
            SqlResult::Query(q) => q.rows@.len(),
            SqlResult::Exec(e) => e.rows_affected as nat,
            SqlResult::Error(_) => 0,
        }
    }
}

/// Time spent by the statements that did not fail, in milliseconds.
pub open spec fn elapsed_total(rs: Seq<SqlResult>) -> nat
    decreases rs.len(),
{
    if rs.len() == 0 {
        0
    } else {
        elapsed_total(rs.drop_last()) + match rs.last() {
            SqlResult::Query(q) => q.elapsed_ms as nat,
            SqlResult::Exec(e) => e.elapsed_ms as nat,
            SqlResult::Error(_) => 0,
        }
    }
}

/// Number of results that are errors.
pub open spec fn error_total(rs: Seq<SqlResult>) -> nat
    decreases rs.len(),
{
    if rs.len() == 0 {
        0
    } else {
        error_total(rs.drop_last()) + if rs.last() is Error {
            1nat
        } else {
            0nat
        }
    }
}

/// Largest total time, in milliseconds, that a double holds exactly: the
/// time is shown with two decimals, which are then `.00`.
pub open spec fn exact_ms_limit() -> nat {
    0x20000000000000
}

/// A time in milliseconds with two decimals.
pub open spec fn ms_text(ms: nat) -> Seq<char> {
    decimal(ms) + ".00ms"@
}

/// The status line after a run.
pub open spec fn run_status_text(rs: Seq<SqlResult>) -> Seq<char> {
    "Executed "@ + decimal(rs.len()) + " statement(s), "@ + decimal(query_rows_total(rs))
        + " total rows in "@ + ms_text(elapsed_total(rs))
}

fn run_totals(results: &Vec<SqlResult>) -> (r: (u64, u64))
    requires
        elapsed_total(results@) <= exact_ms_limit(),
        query_rows_total(results@) <= u64::MAX,
    ensures
        r.0 == query_rows_total(results@),
        r.1 == elapsed_total(results@),
{
    let mut rows: u64 = 0;
    let mut ms: u64 = 0;
    let mut i: usize = 0;
    while i < results.len()
        invariant
            i <= results@.len(),
            elapsed_total(results@) <= exact_ms_limit(),
            query_rows_total(results@) <= u64::MAX,
            rows == query_rows_total(results@.take(i as int)),
            ms == elapsed_total(results@.take(i as int)),
        decreases results@.len() - i,
    {
        proof {
            assert(results@.take(i + 1).drop_last() =~= results@.take(i as int));
            lemma_totals_prefix(results@, i + 1);
        }
        match &results[i] {
            SqlResult::Query(q) => {
                rows = rows + q.rows.len() as u64;
                ms = ms + q.elapsed_ms;
            },
            SqlResult::Exec(e) => {
                ms = ms + e.elapsed_ms;
            },
            SqlResult::Error(_) => {},
        }
        i += 1;
    }
    assert(results@.take(results@.len() as int) =~= results@);
    (rows, ms)
}

proof fn lemma_totals_prefix(rs: Seq<SqlResult>, n: int)
    requires
        0 <= n <= rs.len(),
    ensures
        query_rows_total(rs.take(n)) <= query_rows_total(rs),
        elapsed_total(rs.take(n)) <= elapsed_total(rs),
        rows_total(rs.take(n)) <= rows_total(rs),
        error_total(rs.take(n)) <= error_total(rs),
    decreases rs.len(),
{
    if n < rs.len() {
        assert(rs.drop_last().take(n) =~= rs.take(n));
        lemma_totals_prefix(rs.drop_last(), n);
    } else {
        assert(rs.take(n) =~= rs);
    }
}

/// What a finished run shows: a tab per result and the status line.
#[derive(Debug)]
pub struct RunReport {
    pub tabs: Vec<SqlResultTab>,
    pub status: String,
}

/// Turns the results of an executed script into its tabs and status line;
/// a run without results reports `NoResults`.
pub fn finish_run(sql: &str, results: Vec<SqlResult>) -> (r: Result<RunReport, RunFailure>)
    requires
        labels_fit(sql@, results@.len()),
        results@.len() < usize::MAX,
        elapsed_total(results@) <= exact_ms_limit(),
        query_rows_total(results@) <= u64::MAX,
    ensures
        results@.len() == 0 <==> r is Err,
        r is Err ==> r == Err::<RunReport, RunFailure>(RunFailure::NoResults),
        r matches Ok(rep) ==> {
            &&& rep.status@ == run_status_text(results@)
            &&& rep.tabs@.len() == results@.len()
            &&& forall|i: int|
                0 <= i < results@.len() ==> tab_shows(
                    #[trigger] rep.tabs@[i],
                    statement_label_spec(statements(sql@), i as nat),
                    results@[i],
                )
        },
{
    if results.len() == 0 {
        return Err(RunFailure::NoResults);
    }
    let ghost rs = results@;
    let (rows, ms) = run_totals(&results);
    let n = results.len();
    let mut status = literal_string("Executed ");
    push_decimal(&mut status, n as u64);
    push_str(&mut status, " statement(s), ");
    push_decimal(&mut status, rows);
    push_str(&mut status, " total rows in ");
    push_decimal(&mut status, ms);
    push_str(&mut status, ".00ms");
    let tabs = result_tabs(sql, results);
    assert(status@ =~= run_status_text(rs));
    Ok(RunReport { tabs, status })
}

} // verus!

verus! {

/// The results shown by a set of tabs.
pub open spec fn tab_results(tabs: Seq<SqlResultTab>) -> Seq<SqlResult> {
    tabs.map_values(|t: SqlResultTab| t.result)
}

/// Figures of the summary tab.
#[derive(Debug, Clone, Copy)]
pub struct RunSummary {
    pub statement_count: usize,
    pub success_count: usize,
    pub error_count: usize,
    pub total_rows: u64,
    pub total_time_ms: u64,
}

/// Counts and totals over the result tabs.
pub fn summarize(tabs: &[SqlResultTab]) -> (r: RunSummary)
    requires
        rows_total(tab_results(tabs@)) <= u64::MAX,
        elapsed_total(tab_results(tabs@)) <= u64::MAX,
    ensures
        r.statement_count == tabs@.len(),
        r.error_count == error_total(tab_results(tabs@)),
        r.success_count == tabs@.len() - error_total(tab_results(tabs@)),
        r.total_rows == rows_total(tab_results(tabs@)),
        r.total_time_ms == elapsed_total(tab_results(tabs@)),
{
    let ghost rs = tab_results(tabs@);
    let mut rows: u64 = 0;
    let mut ms: u64 = 0;
    let mut ok: usize = 0;
    let mut failed: usize = 0;
    let mut i: usize = 0;
    while i < tabs.len()
        invariant
            i <= tabs@.len(),
            rs == tab_results(tabs@),
            rows_total(rs) <= u64::MAX,
            elapsed_total(rs) <= u64::MAX,
            rows == rows_total(rs.take(i as int)),
            ms == elapsed_total(rs.take(i as int)),
            failed == error_total(rs.take(i as int)),
            ok + failed == i,
        decreases tabs@.len() - i,
    {
        proof {
            assert(rs.take(i + 1).drop_last() =~= rs.take(i as int));
            lemma_totals_prefix(rs, i + 1);
        }
        match &tabs[i].result {
            SqlResult::Query(q) => {
                rows = rows + q.rows.len() as u64;
                ms = ms + q.elapsed_ms;
                ok += 1;
            },
            SqlResult::Exec(e) => {
                rows = rows + e.rows_affected;
                ms = ms + e.elapsed_ms;
                ok += 1;
            },
            SqlResult::Error(_) => {
                failed += 1;
            },
        }
        i += 1;
    }
    assert(rs.take(tabs@.len() as int) =~= rs);
    RunSummary {
        statement_count: tabs.len(),
        success_count: ok,
        error_count: failed,
        total_rows: rows,
        total_time_ms: ms,
    }
}

/// Heading of the summary tab: the number of statements.
pub fn summary_heading(count: usize) -> (r: String)
    ensures
        r@ == "共 "@ + decimal(count as nat) + " 条语句"@,
{
    let mut s = literal_string("共 ");
    push_decimal(&mut s, count as u64);
    push_str(&mut s, " 条语句");
    s
}

/// A total time with two decimals, such as `12.00ms`.
pub fn time_text(ms: u64) -> (r: String)
    requires
        ms <= exact_ms_limit(),
    ensures
        r@ == ms_text(ms as nat),
{
    decimal_with(ms, ".00ms")
}

/// One statement's line in the summary tab.
#[derive(Debug)]
pub struct SummaryLine {
    pub succeeded: bool,
    pub statement: String,
    pub execution_time: String,
    pub status: String,
}

/// The status shown on a statement's summary line.
pub open spec fn line_status(r: SqlResult) -> Seq<char> {
    match r {
        SqlResult::Query(q) => decimal(q.rows@.len()) + " rows"@,
        SqlResult::Exec(e) => decimal(e.rows_affected as nat) + " rows affected"@,
        SqlResult::Error(e) => e.message@,
    }
}

/// The summary line of the tab at `idx`.
pub open spec fn line_shows(line: SummaryLine, idx: nat, tab: SqlResultTab) -> bool {
    &&& line.succeeded == !(tab.result is Error)
    &&& line.statement@ == "语句"@ + decimal(idx + 1) + ": "@ + tab.sql@
    &&& line.execution_time@ == tab.execution_time@
    &&& line.status@ == line_status(tab.result)
}

/// The statement lines of the summary tab.
pub fn summary_lines(tabs: &[SqlResultTab]) -> (r: Vec<SummaryLine>)
    requires
        tabs@.len() < u64::MAX,
    ensures
        r@.len() == tabs@.len(),
        forall|i: int| 0 <= i < tabs@.len() ==> line_shows(#[trigger] r@[i], i as nat, tabs@[i]),
{
    let mut out: Vec<SummaryLine> = Vec::new();
    let mut i: usize = 0;
    while i < tabs.len()
        invariant
            i <= tabs@.len(),
            tabs@.len() < u64::MAX,
            out@.len() == i,
            forall|k: int| 0 <= k < i ==> line_shows(#[trigger] out@[k], k as nat, tabs@[k]),
        decreases tabs@.len() - i,
    {
        let tab = &tabs[i];
        let mut statement = literal_string("语句");
        push_decimal(&mut statement, i as u64 + 1);
        push_str(&mut statement, ": ");
        push_str(&mut statement, tab.sql.as_str());
        let (succeeded, status) = match &tab.result {
            SqlResult::Query(q) => (true, decimal_with(q.rows.len() as u64, " rows")),
            SqlResult::Exec(e) => (true, decimal_with(e.rows_affected, " rows affected")),
            SqlResult::Error(e) => (false, e.message.clone()),
        };
        out.push(
            SummaryLine {
                succeeded,
                statement,
                execution_time: tab.execution_time.clone(),
                status,
            },
        );
        i += 1;
    }
    out
}

/// Title of the result tab at `idx`: `结果n (rows, time)`.
pub fn result_tab_title(idx: usize, tab: &SqlResultTab) -> (r: String)
    requires
        idx < u64::MAX,
    ensures
        r@ == "结果"@ + decimal((idx + 1) as nat) + " ("@ + tab.rows_count@ + ", "@ + tab.execution_time@
            + ")"@,
{
    let mut s = literal_string("结果");
    push_decimal(&mut s, idx as u64 + 1);
    push_str(&mut s, " (");
    push_str(&mut s, tab.rows_count.as_str());
    push_str(&mut s, ", ");
    push_str(&mut s, tab.execution_time.as_str());
    push_str(&mut s, ")");
    s
}

} // verus!

verus! {

/// Each line of the text trimmed.
pub open spec fn formatted_query(text: Seq<char>) -> Seq<char> {
    join(split_on(text, '\n').map_values(|l: Seq<char>| trim(l)), "\n"@)
}

/// The non-blank lines of the text, trimmed, on one line.
pub open spec fn compressed_query(text: Seq<char>) -> Seq<char> {
    join(
        lines(text).map_values(|l: Seq<char>| trim(l)).filter(|l: Seq<char>| l.len() > 0),
        " "@,
    )
}

fn trim_all(parts: &Vec<Vec<char>>, drop_blank: bool) -> (r: Vec<Vec<char>>)
    ensures
        !drop_blank ==> vecs_view(r@) == vecs_view(parts@).map_values(|l: Seq<char>| trim(l)),
        drop_blank ==> vecs_view(r@) == vecs_view(parts@).map_values(|l: Seq<char>| trim(l)).filter(
            |l: Seq<char>| l.len() > 0,
        ),
{
    let ghost trimmed = vecs_view(parts@).map_values(|l: Seq<char>| trim(l));
    let ghost keep = |l: Seq<char>| l.len() > 0;
    let mut out: Vec<Vec<char>> = Vec::new();
    let mut i: usize = 0;
    while i < parts.len()
        invariant
            i <= parts@.len(),
            trimmed == vecs_view(parts@).map_values(|l: Seq<char>| trim(l)),
            keep == (|l: Seq<char>| l.len() > 0),
            !drop_blank ==> vecs_view(out@) == trimmed.take(i as int),
            drop_blank ==> vecs_view(out@) == trimmed.take(i as int).filter(keep),
        decreases parts@.len() - i,
    {
        proof {
            trimmed.take(i as int).lemma_filter_push(trimmed[i as int], keep);
            assert(trimmed.take(i + 1) =~= trimmed.take(i as int).push(trimmed[i as int]));
        }
        let t = trim_chars(parts[i].as_slice());
        let ghost before = vecs_view(out@);
        if !drop_blank || t.len() > 0 {
            out.push(t);
            assert(vecs_view(out@) =~= before.push(trimmed[i as int]));
        } else {
            assert(vecs_view(out@) =~= before);
        }
        i += 1;
    }
    assert(trimmed.take(parts@.len() as int) =~= trimmed);
    out
}

/// Trims every line of the query (the Format button).
pub fn format_query_text(text: &str) -> (r: String)
    ensures
        r@ == formatted_query(text@),
{
    let c = chars_of(text);
    let parts = split_chars(c.as_slice(), '\n');
    let t = trim_all(&parts, false);
    let nl = chars_of("\n");
    let j = join_chars(&t, nl.as_slice());
    assert(t@.map_values(|p: Vec<char>| p@) =~= vecs_view(t@));
    string_from_chars(j.as_slice())
}

/// Puts the non-blank lines of the query, trimmed, on one line (the
/// Compress button).
pub fn compress_query_text(text: &str) -> (r: String)
    ensures
        r@ == compressed_query(text@),
{
    let c = chars_of(text);
    let ls = lines_chars(c.as_slice());
    let t = trim_all(&ls, true);
    let sp = chars_of(" ");
    let j = join_chars(&t, sp.as_slice());
    assert(t@.map_values(|p: Vec<char>| p@) =~= vecs_view(t@));
    string_from_chars(j.as_slice())
}

} // verus!

verus! {

/// First position of `x` in `s`.
pub open spec fn first_index(s: Seq<Seq<char>>, x: Seq<char>) -> Option<int>
    decreases s.len(),
{
    if s.len() == 0 {
        None
    } else {
        match first_index(s.drop_last(), x) {
            Some(i) => Some(i),
            None => if s.last() == x {
                Some(s.len() - 1)
            } else {
                None
            },
        }
    }
}

pub(crate) proof fn lemma_first_index_prefix(s: Seq<Seq<char>>, x: Seq<char>, n: int)
    requires
        0 <= n <= s.len(),
        first_index(s.take(n), x) is Some,
    ensures
        first_index(s, x) == first_index(s.take(n), x),
    decreases s.len(),
{
    if n < s.len() {
        assert(s.drop_last().take(n) =~= s.take(n));
        lemma_first_index_prefix(s.drop_last(), x, n);
    } else {
        assert(s.take(n) =~= s);
    }
}

/// Position of a database among the listed ones.
pub fn database_position(databases: &Vec<String>, name: &String) -> (r: Option<usize>)
    ensures
        r matches Some(i) ==> first_index(databases.deep_view(), name@) == Some(i as int),
        r is None ==> first_index(databases.deep_view(), name@) is None,
{
    let ghost s = databases.deep_view();
    let mut i: usize = 0;
    while i < databases.len()
        invariant
            i <= databases@.len(),
            s == databases.deep_view(),
            first_index(s.take(i as int), name@) is None,
        decreases databases@.len() - i,
    {
        assert(s.take(i + 1).drop_last() =~= s.take(i as int));
        if databases[i] == *name {
            proof {
                assert(s.take(i + 1).last() == name@);
                lemma_first_index_prefix(s, name@, i + 1);
            }
            return Some(i);
        }
        i += 1;
    }
    assert(s.take(databases@.len() as int) =~= s);
    None
}

/// What the database picker lists and which entry it selects.
#[derive(Debug)]
pub struct DropdownUpdate {
    pub items: Vec<String>,
    pub selected: Option<usize>,
}

/// The picker shows the databases, or a single placeholder when there are
/// none, and selects the current database where it is listed.
pub open spec fn dropdown_shows(
    u: DropdownUpdate,
    databases: Seq<Seq<char>>,
    current: Option<Seq<char>>,
    empty_label: Seq<char>,
) -> bool {
    &&& u.items.deep_view() == if databases.len() > 0 {
        databases
    } else {
        seq![empty_label]
    }
    &&& u.selected == if databases.len() > 0 {
        match current {
            Some(c) => match first_index(databases, c) {
                Some(i) => Some(i as usize),
                None => None,
            },
            None => None,
        }
    } else {
        None
    }
}

fn clone_strings(v: &Vec<String>) -> (r: Vec<String>)
    ensures
        r.deep_view() == v.deep_view(),
{
    let mut out: Vec<String> = Vec::new();
    let mut i: usize = 0;
    while i < v.len()
        invariant
            i <= v@.len(),
            out@.len() == i,
            forall|k: int| 0 <= k < i ==> (#[trigger] out@[k])@ == v@[k]@,
        decreases v@.len() - i,
    {
        out.push(v[i].clone());
        i += 1;
    }
    assert(out.deep_view() =~= v.deep_view());
    out
}

/// The picker's contents for a list of databases.
pub fn dropdown_for(databases: &Vec<String>, current: &Option<String>, empty_label: &str) -> (r:
    DropdownUpdate)
    ensures
        dropdown_shows(r, databases.deep_view(), current.deep_view(), empty_label@),
{
    if databases.len() > 0 {
        let items = clone_strings(databases);
        let selected = match current {
            Some(c) => database_position(databases, c),
            None => None,
        };
        DropdownUpdate { items, selected }
    } else {
        let items = vec![literal_string(empty_label)];
        assert(items.deep_view() =~= seq![empty_label@]);
        DropdownUpdate { items, selected: None }
    }
}

/// What to do when the picker is opened.
#[derive(Debug)]
pub enum LoadStart {
    /// A load is under way, or a finished load found nothing: leave it.
    Skip,
    /// The databases are known: show them.
    Show(DropdownUpdate),
    /// Show the placeholder and ask the server for the databases.
    Fetch(DropdownUpdate),
}

/// The SQL editor's database picker: whether the list is being loaded or
/// has been, the databases last listed, and the current database.
#[derive(Debug)]
pub struct DatabasePicker {
    pub loading: bool,
    pub loaded: bool,
    pub cache: Vec<String>,
    pub current: Option<String>,
}

impl DatabasePicker {
    /// A picker that has listed nothing yet.
    pub fn new(initial: Option<String>) -> (r: Self)
        ensures
            !r.loading,
            !r.loaded,
            r.cache@.len() == 0,
            r.current == initial,
    {
        DatabasePicker { loading: false, loaded: false, cache: Vec::new(), current: initial }
    }

    /// Decides what opening the picker does: nothing while loading, the
    /// known list once loaded, else a fetch.
    pub fn begin_load(&mut self) -> (r: LoadStart)
        ensures
            old(self).loading ==> r is Skip && *final(self) == *old(self),
            !old(self).loading && old(self).loaded ==> *final(self) == *old(self) && (if old(
                self,
            ).cache@.len() > 0 {
                (r matches LoadStart::Show(u) && dropdown_shows(
                    u,
                    old(self).cache.deep_view(),
                    old(self).current.deep_view(),
                    "No databases available"@,
                ))
            } else {
                r is Skip
            }),
            !old(self).loading && !old(self).loaded ==> {
                &&& final(self).loading
                &&& !final(self).loaded
                &&& final(self).cache == old(self).cache
                &&& final(self).current == old(self).current
                &&& (r matches LoadStart::Fetch(u) && u.items.deep_view() == seq![
                    "Loading databases..."@,
                ] && u.selected is None)
            },
    {
        if self.loading {
            return LoadStart::Skip;
        }
        if self.loaded {
            if self.cache.len() > 0 {
                return LoadStart::Show(
                    dropdown_for(&self.cache, &self.current, "No databases available"),
                );
            }
            return LoadStart::Skip;
        }
        self.loading = true;
        let items = vec![literal_string("Loading databases...")];
        assert(items.deep_view() =~= seq!["Loading databases..."@]);
        LoadStart::Fetch(DropdownUpdate { items, selected: None })
    }

    /// Listing the databases failed: the picker can try again.
    pub fn fetch_failed(&mut self)
        ensures
            !final(self).loading,
            final(self).loaded == old(self).loaded,
            final(self).cache == old(self).cache,
            final(self).current == old(self).current,
    {
        self.loading = false;
    }

    /// The server listed the databases: keep them and show them.
    pub fn fetch_done(&mut self, databases: Vec<String>) -> (r: DropdownUpdate)
        ensures
            !final(self).loading,
            final(self).loaded,
            final(self).cache.deep_view() == databases.deep_view(),
            final(self).current == old(self).current,
            dropdown_shows(
                r,
                databases.deep_view(),
                old(self).current.deep_view(),
                "No databases available"@,
            ),
    {
        let r = dropdown_for(&databases, &self.current, "No databases available");
        self.cache = databases;
        self.loaded = true;
        self.loading = false;
        r
    }

    /// The list to show again once it is loaded (on each render).
    pub fn pending_update(&self) -> (r: Option<DropdownUpdate>)
        ensures
            self.loaded && self.cache@.len() > 0 ==> (r matches Some(u) && dropdown_shows(
                u,
                self.cache.deep_view(),
                self.current.deep_view(),
                "No databases available"@,
            )),
            !(self.loaded && self.cache@.len() > 0) ==> r is None,
    {
        if self.loaded && self.cache.len() > 0 {
            Some(dropdown_for(&self.cache, &self.current, "No databases available"))
        } else {
            None
        }
    }

    /// Shows a list obtained elsewhere, and makes its current database the
    /// picker's when there is one.
    pub fn refresh(&mut self, databases: Vec<String>, current: Option<String>) -> (r:
        DropdownUpdate)
        ensures
            dropdown_shows(r, databases.deep_view(), current.deep_view(), "No databases"@),
            final(self).current == (if current is Some {
                current
            } else {
                old(self).current
            }),
            final(self).loading == old(self).loading,
            final(self).loaded == old(self).loaded,
            final(self).cache == old(self).cache,
    {
        let r = dropdown_for(&databases, &current, "No databases");
        if current.is_some() {
            self.current = current;
        }
        r
    }

    /// The user picked a database.
    pub fn select(&mut self, name: String)
        ensures
            final(self).current == Some(name),
            final(self).loading == old(self).loading,
            final(self).loaded == old(self).loaded,
            final(self).cache == old(self).cache,
    {
        self.current = Some(name);
    }
}

} // verus!

verus! {

/// Hint shown for a column: its type, ` - ` and its comment (empty when it
/// has none).
pub open spec fn column_doc(c: ColumnInfo) -> Seq<char> {
    c.data_type@ + " - "@ + match c.comment {
        Some(m) => m@,
        None => Seq::<char>::empty(),
    }
}

/// Completion hints for a table's columns.
pub open spec fn column_hint_pairs(cs: Seq<ColumnInfo>) -> Seq<(Seq<char>, Seq<char>)> {
    cs.map_values(|c: ColumnInfo| (c.name@, column_doc(c)))
}

/// Completion hints for the tables: `Table: name`.
pub open spec fn table_hint_pairs(ts: Seq<Seq<char>>) -> Seq<(Seq<char>, Seq<char>)> {
    ts.map_values(|t: Seq<char>| (t, "Table: "@ + t))
}

/// Columns per table, for the tables whose columns could be listed; a later
/// table of the same name replaces an earlier one.
pub open spec fn catalog_columns(
    tables: Seq<Seq<char>>,
    columns: Seq<Option<Vec<ColumnInfo>>>,
) -> Map<Seq<char>, Seq<(Seq<char>, Seq<char>)>>
    decreases tables.len(),
{
    if tables.len() == 0 || columns.len() != tables.len() {
        Map::empty()
    } else {
        let prev = catalog_columns(tables.drop_last(), columns.drop_last());
        match columns.last() {
            Some(cs) => prev.insert(tables.last(), column_hint_pairs(cs@)),
            None => prev,
        }
    }
}

fn column_hints_of(cs: &Vec<ColumnInfo>) -> (r: Vec<(String, String)>)
    ensures
        pairs_view(r@) == column_hint_pairs(cs@),
{
    let mut out: Vec<(String, String)> = Vec::new();
    let mut i: usize = 0;
    while i < cs.len()
        invariant
            i <= cs@.len(),
            out@.len() == i,
            forall|k: int|
                0 <= k < i ==> (#[trigger] out@[k]).0@ == cs@[k].name@ && out@[k].1@ == column_doc(
                    cs@[k],
                ),
        decreases cs@.len() - i,
    {
        let c = &cs[i];
        let mut doc = c.data_type.clone();
        push_str(&mut doc, " - ");
        match &c.comment {
            Some(m) => push_str(&mut doc, m.as_str()),
            None => {},
        }
        out.push((c.name.clone(), doc));
        i += 1;
    }
    assert(pairs_view(out@) =~= column_hint_pairs(cs@));
    out
}

/// The completion schema of a database: its tables, and the columns of each
/// table for which they could be listed (`None` where listing failed).
pub fn schema_for_database(tables: &Vec<String>, columns: &Vec<Option<Vec<ColumnInfo>>>) -> (r:
    SqlSchema)
    requires
        columns@.len() == tables@.len(),
    ensures
        r.table_hints() == table_hint_pairs(tables.deep_view()),
        r.column_hints().len() == 0,
        r.table_columns_map() == catalog_columns(tables.deep_view(), columns@),
{
    let mut items: Vec<(String, String)> = Vec::new();
    let mut i: usize = 0;
    while i < tables.len()
        invariant
            i <= tables@.len(),
            items@.len() == i,
            forall|k: int|
                0 <= k < i ==> (#[trigger] items@[k]).0@ == tables@[k]@ && items@[k].1@ == "Table: "@
                    + tables@[k]@,
        decreases tables@.len() - i,
    {
        let mut doc = literal_string("Table: ");
        push_str(&mut doc, tables[i].as_str());
        items.push((tables[i].clone(), doc));
        i += 1;
    }
    assert(pairs_view(items@) =~= table_hint_pairs(tables.deep_view()));
    let mut schema = SqlSchema::default().with_tables(items);
    let ghost ts = tables.deep_view();
    let mut j: usize = 0;
    while j < tables.len()
        invariant
            j <= tables@.len(),
            columns@.len() == tables@.len(),
            ts == tables.deep_view(),
            schema.table_hints() == table_hint_pairs(ts),
            schema.column_hints().len() == 0,
            schema.table_columns_map() == catalog_columns(ts.take(j as int), columns@.take(j as int)),
        decreases tables@.len() - j,
    {
        proof {
            assert(ts.take(j + 1).drop_last() =~= ts.take(j as int));
            assert(columns@.take(j + 1).drop_last() =~= columns@.take(j as int));
        }
        match &columns[j] {
            Some(cs) => {
                let hints = column_hints_of(cs);
                schema = schema.with_table_columns(tables[j].clone(), hints);
            },
            None => {},
        }
        j += 1;
    }
    assert(ts.take(tables@.len() as int) =~= ts);
    assert(columns@.take(tables@.len() as int) =~= columns@);
    schema
}

} // verus!

verus! {

/// Times the editor checks for a connection, a tenth of a second apart,
/// before it gives up loading a database's schema.
pub const CONNECT_RETRIES: u32 = 10;

/// Next step while waiting for a connection.
#[derive(Debug, Clone, Copy, PartialEq, Eq, Structural)]
pub enum WaitStep {
    /// Connected: load the schema.
    Proceed,
    /// Wait a tenth of a second and check again.
    Retry,
    /// Still not connected after the last check.
    GiveUp,
}

/// Decides the next step after `retries` waits, given whether a connection
/// is up now.
pub fn connection_wait_step(retries: u32, connected: bool) -> (r: WaitStep)
    ensures
        connected ==> r == WaitStep::Proceed,
        !connected && retries < 10 ==> r == WaitStep::Retry,
        !connected && retries >= 10 ==> r == WaitStep::GiveUp,
{
    if connected {
        WaitStep::Proceed
    } else if retries < CONNECT_RETRIES {
        WaitStep::Retry
    } else {
        WaitStep::GiveUp
    }
}

} // verus!

verus! {

/// What the results panel shows.
#[derive(Debug, Clone, Copy, PartialEq, Eq, Structural)]
pub enum ResultPanel {
    /// No result yet: "Execute a query to see results".
    Empty,
    /// The summary of the run.
    Summary,
    /// The table of the result at this position.
    Result(usize),
    /// A position past the last result: nothing.
    Nothing,
}

/// The results side of the SQL editor: the result tabs of the last run, the
/// selected tab (0 for the summary, `i + 1` for the result at `i`) and the
/// status line.
#[derive(Debug)]
pub struct RunView {
    pub tabs: Vec<SqlResultTab>,
    pub active_tab: usize,
    pub status: String,
}

impl RunView {
    /// Before any run.
    pub fn new() -> (r: Self)
        ensures
            r.tabs@.len() == 0,
            r.active_tab == 0,
            r.status@ == "Ready to execute query"@,
    {
        RunView { tabs: Vec::new(), active_tab: 0, status: literal_string("Ready to execute query") }
    }

    /// A run starts: the result tabs are cleared and the summary selected.
    pub fn begin_run(&mut self)
        ensures
            final(self).tabs@.len() == 0,
            final(self).active_tab == 0,
            final(self).status == old(self).status,
    {
        self.tabs = Vec::new();
        self.active_tab = 0;
    }

    /// The run stopped before producing results: the status says why and
    /// the tabs stay as they are.
    pub fn run_failed(&mut self, failure: &RunFailure)
        ensures
            final(self).status@ == failure_text(*failure),
            final(self).tabs == old(self).tabs,
            final(self).active_tab == old(self).active_tab,
    {
        self.status = failure.message();
    }

    /// The server answered: with no result the status says so and the tabs
    /// stay; otherwise the tabs show the results in order and the status
    /// gives the totals.
    pub fn run_finished(&mut self, sql: &str, results: Vec<SqlResult>)
        requires
            labels_fit(sql@, results@.len()),
            results@.len() < usize::MAX,
            elapsed_total(results@) <= exact_ms_limit(),
            query_rows_total(results@) <= u64::MAX,
        ensures
            final(self).active_tab == old(self).active_tab,
            results@.len() == 0 ==> {
                &&& final(self).status@ == failure_text(RunFailure::NoResults)
                &&& final(self).tabs == old(self).tabs
            },
            results@.len() > 0 ==> {
                &&& final(self).status@ == run_status_text(results@)
                &&& final(self).tabs@.len() == results@.len()
                &&& forall|i: int|
                    0 <= i < results@.len() ==> tab_shows(
                        #[trigger] final(self).tabs@[i],
                        statement_label_spec(statements(sql@), i as nat),
                        results@[i],
                    )
            },
    {
        match finish_run(sql, results) {
            Ok(rep) => {
                self.tabs = rep.tabs;
                self.status = rep.status;
            },
            Err(f) => {
                self.status = f.message();
            },
        }
    }

    /// A result tab was clicked.
    pub fn select_result(&mut self, index: usize)
        ensures
            final(self).active_tab == index,
            final(self).tabs == old(self).tabs,
            final(self).status == old(self).status,
    {
        self.active_tab = index;
    }

    /// What the results panel shows.
    pub fn panel(&self) -> (r: ResultPanel)
        ensures
            r == (if self.tabs@.len() == 0 {
                ResultPanel::Empty
            } else if self.active_tab == 0 {
                ResultPanel::Summary
            } else if self.active_tab - 1 < self.tabs@.len() {
                ResultPanel::Result((self.active_tab - 1) as usize)
            } else {
                ResultPanel::Nothing
            }),
    {
        if self.tabs.len() == 0 {
            ResultPanel::Empty
        } else if self.active_tab == 0 {
            ResultPanel::Summary
        } else if self.active_tab - 1 < self.tabs.len() {
            ResultPanel::Result(self.active_tab - 1)
        } else {
            ResultPanel::Nothing
        }
    }
}

} // verus!
