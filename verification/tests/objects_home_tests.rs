use onehup::connection::{DatabaseType, DbConnectionConfig};
use onehup::home::{
    connection_matches, database_tab_id, home_tab_content_type, test_outcome, toggled_theme,
    ConnectionType, HomeAction, HomePage, SavedConnection, ThemeMode,
};
use onehup::objects::{tab_label, DatabaseObjectsPanel, ObjectList, ObjectsFailure};
use onehup::tabs::TabContentType;

fn s(x: &str) -> String {
    x.to_string()
}

fn saved(id: Option<i64>, name: &str, host: &str, db: Option<&str>) -> SavedConnection {
    SavedConnection {
        id,
        name: s(name),
        db_type: DatabaseType::MySQL,
        connection_type: ConnectionType::Database,
        host: s(host),
        port: 3306,
        username: s("root"),
        password: s("pw"),
        database: db.map(s),
        created_at: None,
        updated_at: None,
    }
}

fn loaded_panel() -> DatabaseObjectsPanel {
    let mut p = DatabaseObjectsPanel::new();
    p.set_database(s("shop"));
    p.objects_loaded("shop", vec![s("Users"), s("orders"), s("user_roles")], vec![s("v1")], vec![], vec![s("p1"), s("p2")]);
    p
}

#[test]
fn panel_status_messages() {
    let mut p = DatabaseObjectsPanel::new();
    assert_eq!(p.status_msg, "Select a database to view objects");
    assert_eq!(p.active_tab, 0);
    p.set_database(s("shop"));
    assert_eq!(p.current_database, Some(s("shop")));
    assert_eq!(p.status_msg, "Loading objects for shop...");
    p.objects_loaded("shop", vec![s("t")], vec![], vec![], vec![]);
    assert_eq!(p.status_msg, "Loaded objects for shop");
    p.load_failed(&ObjectsFailure::Plugin(s("none")));
    assert_eq!(p.status_msg, "Failed to get plugin: none");
    p.load_failed(&ObjectsFailure::Connection(s("refused")));
    assert_eq!(p.status_msg, "Failed to get connection: refused");
    assert_eq!(p.tables, vec![s("t")]);
}

#[test]
fn tab_buttons_show_counts() {
    let mut p = loaded_panel();
    p.select_tab(3);
    let b = p.tab_buttons();
    assert_eq!(b, vec![(s("Tables (3)"), false), (s("Views (1)"), false), (s("Functions (0)"), false), (s("Procedures (2)"), true)]);
    assert_eq!(tab_label("Views", 12), "Views (12)");
}

#[test]
fn search_is_case_insensitive() {
    let p = loaded_panel();
    match p.object_list("USER") {
        ObjectList::Names(v) => assert_eq!(v, vec![s("Users"), s("user_roles")]),
        other => panic!("unexpected {:?}", other),
    }
    match p.object_list("") {
        ObjectList::Names(v) => assert_eq!(v.len(), 3),
        other => panic!("unexpected {:?}", other),
    }
    match p.object_list("zzz") {
        ObjectList::Empty(m) => assert_eq!(m, "No matching objects found"),
        other => panic!("unexpected {:?}", other),
    }
}

#[test]
fn empty_tab_says_so() {
    let mut p = loaded_panel();
    p.select_tab(2);
    match p.object_list("") {
        ObjectList::Empty(m) => assert_eq!(m, "No objects found"),
        other => panic!("unexpected {:?}", other),
    }
}

#[test]
fn search_finds_matches_example() {
    let p = loaded_panel();
    if let ObjectList::Names(v) = p.object_list("ord") {
        assert!(v.iter().all(|n| n.to_lowercase().contains("ord")));
        assert!(v.contains(&s("orders")));
    } else {
        panic!("expected names");
    }
}

#[test]
fn home_page_starts_empty() {
    let h = HomePage::new();
    assert_eq!(h.selected_filter, ConnectionType::All);
    assert!(h.connections.is_empty() && !h.form_open);
}

#[test]
fn cards_follow_search() {
    let mut h = HomePage::new();
    h.connections_loaded(vec![saved(Some(1), "Prod", "db.example.com", Some("sales")), saved(None, "Local", "localhost", None)]);
    h.select_connection(Some(1));
    let cards = h.connection_cards();
    assert_eq!(cards.len(), 2);
    assert_eq!(cards[0].element_id, "conn-card-1");
    assert_eq!(cards[0].badge, "DB");
    assert_eq!(cards[0].title, "Prod");
    assert_eq!(cards[0].address, "root@db.example.com:3306");
    assert_eq!(cards[0].database, Some(s("数据库: sales")));
    assert!(cards[0].selected);
    assert_eq!(cards[1].element_id, "conn-card-0");
    assert!(!cards[1].selected);
    h.set_search(s("SALES"));
    let cards = h.connection_cards();
    assert_eq!(cards.len(), 1);
    assert_eq!(cards[0].title, "Prod");
    h.set_search(s("nothing"));
    assert!(h.connection_cards().is_empty());
}

#[test]
fn connection_matching() {
    let c = saved(Some(1), "Prod", "Host", None);
    assert!(connection_matches(&c, &vec![]));
    assert!(connection_matches(&c, &"host".chars().collect()));
    assert!(!connection_matches(&c, &"HOST".chars().collect()));
}

#[test]
fn form_for_new_and_edited_connections() {
    let mut h = HomePage::new();
    h.connections_loaded(vec![saved(Some(5), "A", "h", None)]);
    assert!(matches!(h.new_connection(DatabaseType::PostgreSQL), HomeAction::ShowForm(DatabaseType::PostgreSQL)));
    assert!(h.form_open && h.editing_connection_id.is_none());
    h.cancel_form();
    assert!(!h.form_open);
    assert!(matches!(h.edit_selected(), HomeAction::Nothing));
    h.select_connection(Some(5));
    assert!(matches!(h.edit_selected(), HomeAction::ShowForm(DatabaseType::MySQL)));
    assert_eq!(h.editing_connection_id, Some(5));
    let cfg = DbConnectionConfig {
        id: s(""),
        database_type: DatabaseType::MySQL,
        name: s("A2"),
        host: s("h2"),
        port: 3307,
        username: s("u"),
        password: s("p"),
        database: Some(s("d")),
    };
    let rec = h.record_for(&cfg);
    assert_eq!(rec.id, Some(5));
    assert_eq!(rec.name, "A2");
    assert_eq!(rec.connection_type, ConnectionType::Database);
    let mut stored = rec;
    stored.created_at = Some(1);
    h.connection_saved(stored);
    assert_eq!(h.connections.len(), 1);
    assert_eq!(h.connections[0].name, "A2");
    assert!(!h.form_open && h.editing_connection_id.is_none());
    h.new_connection(DatabaseType::MySQL);
    let rec = h.record_for(&cfg);
    assert!(rec.id.is_none());
    let mut stored = rec;
    stored.id = Some(6);
    h.connection_saved(stored);
    assert_eq!(h.connections.len(), 2);
}

#[test]
fn home_helpers() {
    assert_eq!(test_outcome(true), Ok(true));
    assert_eq!(test_outcome(false), Err(s("测试连接失败")));
    assert_eq!(database_tab_id("prod"), "database-prod");
    assert_eq!(toggled_theme(ThemeMode::Light), ThemeMode::Dark);
    assert_eq!(toggled_theme(ThemeMode::Dark), ThemeMode::Light);
    assert_eq!(home_tab_content_type(), TabContentType::Custom(s("home")));
}

#[test]
fn sidebar_filter_is_recorded() {
    let mut h = HomePage::new();
    h.connections_loaded(vec![saved(Some(1), "A", "h", None)]);
    h.select_filter(ConnectionType::Redis);
    assert_eq!(h.selected_filter, ConnectionType::Redis);
    assert_eq!(h.connections.len(), 1);
}
