use onehup::tabs::TabIcon;
use onehup::connection::{DatabaseType, DbConnectionConfig};
use onehup::workspace::ActiveConnection;
use onehup::storage::StoredConnection;
use onehup::tabs::{TabContainer, TabContentType};
use onehup::tree::DbTreeViewEvent;
use onehup::workspace::{
    apply_tree_event, connection_details, connection_heading, database_tab_content_type, dock_id,
    failure_message, handle_new_query, layout_needs_reset, open_or_activate, status_is_error,
    test_result, toggle_panel_visible, workspace_config, workspace_stored_connection,
    AppConnections, ConnectFailure, ConnectionInfo, SettingsTabContent, TreeEventOutcome,
    WorkspaceStatus,
};

fn s(x: &str) -> String {
    x.to_string()
}

fn ids(c: &TabContainer) -> Vec<String> {
    c.tabs().iter().map(|t| t.id().to_string()).collect()
}

fn info(id: Option<i64>, db: Option<&str>) -> ConnectionInfo {
    ConnectionInfo {
        id,
        name: s("prod"),
        db_type: DatabaseType::PostgreSQL,
        host: s("db.local"),
        port: 5432,
        username: s("admin"),
        password: s("pw"),
        database: db.map(s),
    }
}

#[test]
fn tree_events_open_tabs_once() {
    let mut tc = TabContainer::new();
    let r = apply_tree_event(&mut tc, DbTreeViewEvent::OpenTableData { database: s("shop"), table: s("users") });
    assert!(matches!(r, TreeEventOutcome::TabShown));
    assert_eq!(ids(&tc), vec![s("table-data-shop-users")]);
    assert_eq!(tc.tabs()[0].title(), "shop.users - Data");
    assert_eq!(tc.tabs()[0].content_type(), &TabContentType::TableData(s("shop.users")));
    apply_tree_event(&mut tc, DbTreeViewEvent::OpenViewData { database: s("shop"), view: s("v") });
    assert_eq!(tc.active_index(), 1);
    apply_tree_event(&mut tc, DbTreeViewEvent::OpenTableData { database: s("shop"), table: s("users") });
    assert_eq!(tc.tabs().len(), 2);
    assert_eq!(tc.active_index(), 0);
    apply_tree_event(&mut tc, DbTreeViewEvent::OpenTableStructure { database: s("shop"), table: s("users") });
    assert_eq!(tc.tabs()[2].id(), "table-structure-shop-users");
    assert_eq!(tc.tabs()[2].title(), "users - Structure");
    assert_eq!(tc.tabs()[2].content_type(), &TabContentType::TableForm(s("users")));
}

#[test]
fn tree_events_query_and_connect() {
    let mut tc = TabContainer::new();
    match apply_tree_event(&mut tc, DbTreeViewEvent::CreateNewQuery { database: s("shop") }) {
        TreeEventOutcome::QueryOpened(d) => assert_eq!(d, "shop"),
        other => panic!("unexpected {:?}", other),
    }
    assert_eq!(tc.tabs()[0].id(), "sql-editor-shop-1");
    assert_eq!(tc.tabs()[0].title(), "shop - Query 1");
    match apply_tree_event(&mut tc, DbTreeViewEvent::ConnectToConnection { id: s("3"), name: s("c") }) {
        TreeEventOutcome::Connect(id, name) => {
            assert_eq!(id, "3");
            assert_eq!(name, "c");
        }
        other => panic!("unexpected {:?}", other),
    }
    assert_eq!(tc.tabs().len(), 1);
}

#[test]
fn new_query_tabs_are_numbered() {
    let mut tc = TabContainer::new();
    handle_new_query(&mut tc);
    handle_new_query(&mut tc);
    assert_eq!(ids(&tc), vec![s("sql-editor-1"), s("sql-editor-2")]);
    assert_eq!(tc.tabs()[1].title(), "Query 2");
    assert_eq!(tc.active_index(), 1);
    open_or_activate(&mut tc, s("sql-editor-1"), s("x"), TabContentType::SqlEditor);
    assert_eq!(tc.active_index(), 0);
    assert_eq!(tc.tabs().len(), 2);
}

#[test]
fn connections_lifecycle() {
    let mut app = AppConnections::new();
    assert_eq!(app.status_msg, "Not connected");
    assert!(app.connect_to_stored(None, "ghost").is_none());
    assert_eq!(app.status_msg, "Connection not found: ghost");
    let stored = StoredConnection {
        id: Some(4),
        name: s("prod"),
        db_type: DatabaseType::MySQL,
        host: s("h"),
        port: 3306,
        username: s("u"),
        password: s("p"),
        database: None,
        created_at: None,
        updated_at: None,
    };
    let (id, cfg) = app.connect_to_stored(Some(stored), "prod").unwrap();
    assert_eq!(id, "4");
    assert_eq!(cfg.id, "4");
    assert_eq!(app.active_connections.len(), 1);
    assert!(!app.active_connections[0].is_connected);
    app.connection_established(s("4"), "prod");
    assert!(app.active_connections[0].is_connected);
    assert_eq!(app.active_connection_id, Some(s("4")));
    assert_eq!(app.status_msg, "Connected to prod (1 active connections)");
    app.connection_failed(&s("4"), &ConnectFailure::Connection(s("reset")));
    assert!(app.active_connections.is_empty());
    assert_eq!(app.status_msg, "Connection failed: reset");
}

#[test]
fn failure_texts() {
    assert_eq!(failure_message(&ConnectFailure::Plugin(s("x"))), "Failed to get plugin: x");
    assert_eq!(failure_message(&ConnectFailure::Test(s("x"))), "Connection test failed: x");
    assert_eq!(failure_message(&ConnectFailure::Create(s("x"))), "Failed to create connection: x");
    assert_eq!(test_result(Ok(())), Ok(true));
    assert_eq!(test_result(Err(ConnectFailure::Connection(s("no")))), Err(s("Connection failed: no")));
}

#[test]
fn workspace_status_lines() {
    let mut st = WorkspaceStatus::new();
    assert_eq!(st.status_msg, "Not connected");
    st.connecting();
    assert_eq!(st.status_msg, "Connecting...");
    st.connected("prod");
    assert_eq!(st.status_msg, "Connected to prod");
    assert!(!status_is_error(&st.status_msg));
    st.failed(&ConnectFailure::Plugin(s("pg")));
    assert!(status_is_error(&st.status_msg));
    assert!(status_is_error("Connection failed: x"));
}

#[test]
fn connection_info_views() {
    let i = info(Some(9), Some("sales"));
    assert_eq!(connection_heading(&Some(info(None, None))), "Database Connection: prod");
    assert_eq!(connection_heading(&None), "Database Connection");
    let d = connection_details(&i);
    assert_eq!(d, vec![(s("Host:"), s("db.local")), (s("Port:"), s("5432")), (s("Username:"), s("admin")), (s("Database:"), s("sales"))]);
    assert_eq!(connection_details(&info(None, None)).len(), 3);
    assert_eq!(dock_id(&i), "db-dock-9");
    assert_eq!(dock_id(&info(None, None)), "db-dock-0");
    assert_eq!(database_tab_content_type(&i), TabContentType::Custom(s("database-prod")));
    let cfg = workspace_config(&i);
    assert_eq!(cfg.id, "9");
    assert_eq!(cfg.database, Some(s("sales")));
    let sc = workspace_stored_connection(&i);
    assert_eq!(sc.id, Some(9));
    assert_eq!(sc.db_type, DatabaseType::PostgreSQL);
}

#[test]
fn layout_versions() {
    assert!(!layout_needs_reset(Some(5)));
    assert!(layout_needs_reset(Some(4)));
    assert!(layout_needs_reset(None));
}

#[test]
fn toggling_panels() {
    let mut v = vec![s("a"), s("b"), s("a")];
    toggle_panel_visible(&mut v, s("a"));
    assert_eq!(v, vec![s("b")]);
    toggle_panel_visible(&mut v, s("c"));
    assert_eq!(v, vec![s("b"), s("c")]);
    toggle_panel_visible(&mut v, s("c"));
    assert_eq!(v, vec![s("b")]);
}

#[test]
fn settings_tab() {
    let t = SettingsTabContent::new();
    assert_eq!(t.title(), "设置");
    assert!(t.closeable());
    assert_eq!(t.content_type(), TabContentType::Custom(s("settings")));
    let (title, body) = t.texts();
    assert_eq!(title, "设置");
    assert_eq!(body, "应用程序设置和配置");
}

#[test]
fn connection_made_from_form() {
    let mut app = AppConnections::new();
    let cfg = DbConnectionConfig {
        id: s("7"),
        database_type: DatabaseType::MySQL,
        name: s("dev"),
        host: s("h"),
        port: 3306,
        username: s("u"),
        password: s("p"),
        database: None,
    };
    app.saved_connection_established(ActiveConnection {
        id: s("7"),
        name: s("dev"),
        db_type: DatabaseType::MySQL,
        config: cfg,
        is_connected: false,
    });
    assert_eq!(app.active_connections.len(), 1);
    assert!(app.active_connections[0].is_connected);
    assert_eq!(app.active_connection_id, Some(s("7")));
    assert_eq!(app.status_msg, "Connected to dev");
}

#[test]
fn tab_icons() {
    assert_eq!(SettingsTabContent::new().icon(), Some(TabIcon::Settings));
    assert_eq!(onehup::workspace::database_tab_icon(), Some(TabIcon::File));
    assert_eq!(onehup::home::home_tab_icon(), Some(TabIcon::LayoutDashboard));
    assert_eq!(onehup::table_view::table_data_icon(), Some(TabIcon::Folder));
    let ed = onehup::table_view::TableStructureEditor::new(s("d"), s("t"));
    assert_eq!(ed.icon(), Some(TabIcon::Settings));
}
