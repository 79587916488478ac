use onehup::connection::ColumnInfo;
use onehup::sql_run::{ErrorOutput, ExecOutput, QueryOutput, SqlResult};
use onehup::table_view::{
    table_data_content_type, table_data_query, table_data_title, DataLoadFailure, DataTabState,
    TableStructureEditor,
};
use onehup::tabs::TabContentType;

fn s(x: &str) -> String {
    x.to_string()
}

#[test]
fn data_tab_query_and_title() {
    assert_eq!(table_data_query("shop", "users"), "SELECT * FROM `shop`.`users` LIMIT 1000");
    assert_eq!(table_data_title("shop", "users"), "shop.users - Data");
    assert_eq!(table_data_content_type("shop", "users"), TabContentType::TableData(s("shop.users")));
}

#[test]
fn data_tab_loads_rows() {
    let mut st = DataTabState::new();
    assert_eq!(st.status_msg, "Loading...");
    st.apply_load(Ok(SqlResult::Query(QueryOutput {
        columns: vec![s("id")],
        rows: vec![vec![Some(s("1"))], vec![None]],
        elapsed_ms: 3,
    })));
    assert_eq!(st.status_msg, "Loaded 2 rows");
    assert_eq!(st.table.columns, vec![s("id")]);
    assert_eq!(st.table.rows, vec![vec![s("1")], vec![s("NULL")]]);
    st.apply_load(Ok(SqlResult::Error(ErrorOutput { message: s("bad") })));
    assert_eq!(st.status_msg, "Query error: bad");
    assert_eq!(st.table.rows.len(), 2);
    st.apply_load(Ok(SqlResult::Exec(ExecOutput { rows_affected: 1, elapsed_ms: 1, message: None })));
    assert_eq!(st.status_msg, "Unexpected result type");
    st.apply_load(Err(DataLoadFailure::Plugin(s("p"))));
    assert_eq!(st.status_msg, "Failed to get plugin: p");
    st.apply_load(Err(DataLoadFailure::Connection(s("c"))));
    assert_eq!(st.status_msg, "Connection failed: c");
    st.apply_load(Err(DataLoadFailure::Query(s("q"))));
    assert_eq!(st.status_msg, "Query failed: q");
}

#[test]
fn structure_editor_texts() {
    let ed = TableStructureEditor::new(s("shop"), s("users"));
    assert_eq!(ed.title(), "users - Structure");
    assert_eq!(ed.heading(), "Table Structure: users");
    assert_eq!(ed.content_type(), TabContentType::TableForm(s("users")));
    assert_eq!(ed.status_msg, "Table structure loading not yet implemented with new connection pool");
    assert!(!ed.should_show_load_button());
}

#[test]
fn add_then_delete_restores() {
    let mut ed = TableStructureEditor::new(s("shop"), s("users"));
    ed.add_field();
    ed.add_field();
    assert_eq!(ed.fields.len(), 2);
    assert_eq!(ed.fields[1].id, 1);
    assert_eq!(ed.fields[1].data_type, "VARCHAR(255)");
    assert!(ed.fields[1].nullable);
    assert_eq!(ed.status_msg, "Added new field (unsaved)");
    let before: Vec<usize> = ed.fields.iter().map(|f| f.id).collect();
    ed.add_field();
    let added = ed.fields[2].id;
    ed.delete_field(added);
    assert_eq!(ed.fields.iter().map(|f| f.id).collect::<Vec<_>>(), before);
    assert_eq!(ed.status_msg, "Deleted field (unsaved)");
    ed.status_msg = s("x");
    ed.delete_field(99);
    assert_eq!(ed.fields.len(), 2);
    assert_eq!(ed.status_msg, "x");
}

#[test]
fn loaded_columns_become_fields() {
    let mut ed = TableStructureEditor::new(s("shop"), s("users"));
    ed.populate_from_loaded_columns();
    assert_eq!(ed.status_msg, "No columns to load");
    ed.columns_loaded = true;
    ed.loaded_columns = vec![
        ColumnInfo { name: s("id"), data_type: s("int"), is_nullable: false, comment: None },
        ColumnInfo { name: s("email"), data_type: s("text"), is_nullable: true, comment: None },
    ];
    assert!(ed.should_show_load_button());
    ed.populate_from_loaded_columns();
    assert_eq!(ed.status_msg, "Loaded 2 existing columns");
    assert_eq!(ed.fields.len(), 2);
    assert_eq!(ed.fields[1].name, "email");
    assert!(ed.fields[1].nullable && !ed.fields[0].nullable);
    assert_eq!(ed.next_id, 2);
}

#[test]
fn saving_reports_blank_fields() {
    let mut ed = TableStructureEditor::new(s("shop"), s("users"));
    ed.add_field();
    ed.handle_save();
    assert_eq!(ed.status_msg, "Error: Field 1 has empty name");
    ed.fields[0].name = s("age");
    ed.fields[0].data_type = s("  ");
    ed.handle_save();
    assert_eq!(ed.status_msg, "Error: Field 'age' has empty data type");
    ed.fields[0].data_type = s("INT");
    ed.handle_save();
    assert_eq!(ed.status_msg, "Save not yet implemented with new connection pool");
}
