use onehup::sql_run::{ResultPanel, RunView};
use onehup::connection::ColumnInfo;
use onehup::sql_run::{
    check_before_run, compress_query_text, connection_wait_step, database_position, dropdown_for,
    finish_run, format_query_text, make_result_tab, result_tab_title, result_tabs,
    schema_for_database, split_statements, statement_label, summarize, summary_heading,
    summary_lines, time_text, DatabasePicker, ErrorOutput, ExecOutput, LoadStart, QueryOutput,
    ResultTable, RunFailure, SqlResult, WaitStep,
};

fn s(x: &str) -> String {
    x.to_string()
}

fn query(rows: usize, ms: u64) -> SqlResult {
    SqlResult::Query(QueryOutput {
        columns: vec![s("id"), s("name")],
        rows: (0..rows).map(|i| vec![Some(i.to_string()), None]).collect(),
        elapsed_ms: ms,
    })
}

fn exec(n: u64, ms: u64) -> SqlResult {
    SqlResult::Exec(ExecOutput { rows_affected: n, elapsed_ms: ms, message: None })
}

fn error(m: &str) -> SqlResult {
    SqlResult::Error(ErrorOutput { message: s(m) })
}

#[test]
fn statements_are_trimmed_and_blank_ones_dropped() {
    assert_eq!(split_statements(" select 1 ;\n ; update t set a=1;  "), vec![s("select 1"), s("update t set a=1")]);
    assert!(split_statements(" ;; ").is_empty());
}

#[test]
fn labels_are_cut_at_fifty_bytes() {
    let long = "x".repeat(60);
    let stmts = vec![s("select 1"), long.clone()];
    assert_eq!(statement_label(&stmts, 0), "select 1");
    assert_eq!(statement_label(&stmts, 1), format!("{}...", "x".repeat(50)));
    assert_eq!(statement_label(&stmts, 2), "Statement 3");
    let exact = "y".repeat(50);
    assert_eq!(statement_label(&[exact.clone()], 0), exact);
}

#[test]
fn query_tab_shows_rows_and_nulls() {
    let tab = make_result_tab(s("select"), query(2, 7));
    assert_eq!(tab.sql, "select");
    assert_eq!(tab.execution_time, "7ms");
    assert_eq!(tab.rows_count, "2 rows");
    assert_eq!(tab.table.columns, vec![s("id"), s("name")]);
    assert_eq!(tab.table.rows, vec![vec![s("0"), s("NULL")], vec![s("1"), s("NULL")]]);
    assert_eq!(tab.table.cell(1, 0), "1");
    assert_eq!(tab.table.cell(5, 0), "");
}

#[test]
fn exec_and_error_tabs() {
    let tab = make_result_tab(s("update"), exec(3, 12));
    assert_eq!(tab.execution_time, "12ms");
    assert_eq!(tab.rows_count, "3 rows affected");
    assert_eq!(tab.table.columns, vec![s("Status"), s("Rows Affected")]);
    assert_eq!(tab.table.rows, vec![vec![s("Success"), s("3")]]);
    let with_msg = SqlResult::Exec(ExecOutput { rows_affected: 0, elapsed_ms: 1, message: Some(s("done")) });
    let tab = make_result_tab(s("x"), with_msg);
    assert_eq!(tab.table.rows, vec![vec![s("done"), s("0")]]);
    let tab = make_result_tab(s("bad"), error("syntax error"));
    assert_eq!(tab.execution_time, "Error");
    assert_eq!(tab.rows_count, "Error");
    assert_eq!(tab.table.columns, vec![s("Error")]);
    assert_eq!(tab.table.rows, vec![vec![s("syntax error")]]);
}

#[test]
fn one_tab_per_result_in_order() {
    let tabs = result_tabs("select 1; update t set a = 1", vec![query(1, 1), exec(2, 2), error("e")]);
    assert_eq!(tabs.len(), 3);
    assert_eq!(tabs[0].sql, "select 1");
    assert_eq!(tabs[1].sql, "update t set a = 1");
    assert_eq!(tabs[2].sql, "Statement 3");
}

#[test]
fn run_checks_before_running() {
    assert!(matches!(check_before_run(false, "select 1"), Some(RunFailure::NotConnected)));
    assert!(matches!(check_before_run(true, "  \n "), Some(RunFailure::EmptyScript)));
    assert!(check_before_run(true, "select 1").is_none());
}

#[test]
fn failure_messages() {
    assert_eq!(RunFailure::NotConnected.message(), "Not connected to database");
    assert_eq!(RunFailure::EmptyScript.message(), "No SQL statements to execute");
    assert_eq!(RunFailure::NoConnection.message(), "No active connection");
    assert_eq!(RunFailure::ExecuteFailed(s("boom")).message(), "Failed to execute script: boom");
    assert_eq!(RunFailure::NoResults.message(), "No results");
}

#[test]
fn finished_run_reports_totals() {
    let rep = finish_run("select a; delete from t", vec![query(3, 10), exec(5, 4)]).unwrap();
    assert_eq!(rep.status, "Executed 2 statement(s), 3 total rows in 14.00ms");
    assert_eq!(rep.tabs.len(), 2);
    assert!(matches!(finish_run("select 1", vec![]), Err(RunFailure::NoResults)));
}

#[test]
fn summary_counts() {
    let tabs = result_tabs("a; b; c", vec![query(3, 10), exec(5, 4), error("x")]);
    let sm = summarize(&tabs);
    assert_eq!(sm.statement_count, 3);
    assert_eq!(sm.success_count, 2);
    assert_eq!(sm.error_count, 1);
    assert_eq!(sm.total_rows, 8);
    assert_eq!(sm.total_time_ms, 14);
    assert_eq!(summary_heading(3), "共 3 条语句");
    assert_eq!(time_text(14), "14.00ms");
}

#[test]
fn summary_lines_per_statement() {
    let tabs = result_tabs("a; b", vec![query(3, 10), error("bad thing")]);
    let lines = summary_lines(&tabs);
    assert_eq!(lines.len(), 2);
    assert!(lines[0].succeeded);
    assert_eq!(lines[0].statement, "语句1: a");
    assert_eq!(lines[0].execution_time, "10ms");
    assert_eq!(lines[0].status, "3 rows");
    assert!(!lines[1].succeeded);
    assert_eq!(lines[1].status, "bad thing");
    assert_eq!(result_tab_title(0, &tabs[0]), "结果1 (3 rows, 10ms)");
}

#[test]
fn query_text_formatting() {
    assert_eq!(format_query_text("  select *\n   from t  \n"), "select *\nfrom t\n");
    assert_eq!(compress_query_text("select *\n\n   from t\r\n where a = 1\n"), "select * from t where a = 1");
}

#[test]
fn dropdown_lists_databases() {
    let dbs = vec![s("a"), s("b"), s("b")];
    assert_eq!(database_position(&dbs, &s("b")), Some(1));
    assert_eq!(database_position(&dbs, &s("z")), None);
    let u = dropdown_for(&dbs, &Some(s("b")), "none");
    assert_eq!(u.items, dbs);
    assert_eq!(u.selected, Some(1));
    let u = dropdown_for(&vec![], &Some(s("b")), "No databases");
    assert_eq!(u.items, vec![s("No databases")]);
    assert_eq!(u.selected, None);
}

#[test]
fn picker_loads_once() {
    let mut p = DatabasePicker::new(Some(s("shop")));
    match p.begin_load() {
        LoadStart::Fetch(u) => assert_eq!(u.items, vec![s("Loading databases...")]),
        other => panic!("unexpected {:?}", other),
    }
    assert!(matches!(p.begin_load(), LoadStart::Skip));
    let u = p.fetch_done(vec![s("mysql"), s("shop")]);
    assert_eq!(u.selected, Some(1));
    assert!(p.loaded && !p.loading);
    match p.begin_load() {
        LoadStart::Show(u) => assert_eq!(u.items, vec![s("mysql"), s("shop")]),
        other => panic!("unexpected {:?}", other),
    }
    assert!(p.pending_update().is_some());
    p.select(s("mysql"));
    assert_eq!(p.current, Some(s("mysql")));
    let u = p.refresh(vec![], None);
    assert_eq!(u.items, vec![s("No databases")]);
    assert_eq!(p.current, Some(s("mysql")));
}

#[test]
fn picker_fetch_failure_allows_retry() {
    let mut p = DatabasePicker::new(None);
    assert!(matches!(p.begin_load(), LoadStart::Fetch(_)));
    p.fetch_failed();
    assert!(!p.loading && !p.loaded);
    assert!(matches!(p.begin_load(), LoadStart::Fetch(_)));
    let u = p.fetch_done(vec![]);
    assert_eq!(u.items, vec![s("No databases available")]);
    assert!(matches!(p.begin_load(), LoadStart::Skip));
    assert!(p.pending_update().is_none());
}

#[test]
fn schema_built_from_catalog() {
    let tables = vec![s("users"), s("orders")];
    let cols = vec![
        Some(vec![ColumnInfo { name: s("id"), data_type: s("int"), is_nullable: false, comment: Some(s("key")) }]),
        None,
    ];
    let schema = schema_for_database(&tables, &cols);
    let users: Vec<char> = "users".chars().collect();
    let got = schema.table_columns(&users).cloned();
    assert_eq!(got, Some(vec![(s("id"), s("int - key"))]));
    let orders: Vec<char> = "orders".chars().collect();
    assert!(schema.table_columns(&orders).is_none());
}

#[test]
fn waiting_for_connection() {
    assert_eq!(connection_wait_step(0, true), WaitStep::Proceed);
    assert_eq!(connection_wait_step(3, false), WaitStep::Retry);
    assert_eq!(connection_wait_step(10, false), WaitStep::GiveUp);
}

#[test]
fn result_table_cell_outside_is_empty() {
    let t = ResultTable { columns: vec![s("a")], rows: vec![vec![s("1")]] };
    assert_eq!(t.cell(0, 0), "1");
    assert_eq!(t.cell(0, 1), "");
}

#[test]
fn run_view_resets_and_fills() {
    let mut v = RunView::new();
    assert_eq!(v.status, "Ready to execute query");
    assert_eq!(v.panel(), ResultPanel::Empty);
    v.begin_run();
    v.run_finished("select 1; select 2", vec![query(1, 2), exec(3, 4)]);
    assert_eq!(v.tabs.len(), 2);
    assert_eq!(v.status, "Executed 2 statement(s), 1 total rows in 6.00ms");
    assert_eq!(v.panel(), ResultPanel::Summary);
    v.select_result(2);
    assert_eq!(v.panel(), ResultPanel::Result(1));
    v.select_result(5);
    assert_eq!(v.panel(), ResultPanel::Nothing);
    v.begin_run();
    assert!(v.tabs.is_empty());
    assert_eq!(v.active_tab, 0);
    v.run_failed(&RunFailure::NotConnected);
    assert_eq!(v.status, "Not connected to database");
    assert!(v.tabs.is_empty());
    v.run_finished("select 1", vec![]);
    assert_eq!(v.status, "No results");
    assert!(v.tabs.is_empty());
}
