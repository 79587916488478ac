use onehup::connection::DatabaseType;
use onehup::storage::StoredConnection;
use onehup::tree::{
    create_initial_tree, db_node_to_tree_item, db_node_to_tree_item_recursive, find_node,
    ids_contain, ids_insert, ids_remove, ids_retain, kind_label_of, sort_nodes, DbNode,
    DbNodeType, DbTreeView, DbTreeViewEvent, MenuAction, MenuEntry, NodeIcon,
};

fn s(x: &str) -> String {
    x.to_string()
}

fn conn(id: i64, name: &str) -> StoredConnection {
    StoredConnection {
        id: Some(id),
        name: s(name),
        db_type: DatabaseType::MySQL,
        host: s("localhost"),
        port: 3306,
        username: s("root"),
        password: s(""),
        database: None,
        created_at: None,
        updated_at: None,
    }
}

fn node(id: &str, name: &str, t: DbNodeType) -> DbNode {
    DbNode::new(s(id), s(name), t)
}

#[test]
fn new_node_has_nothing_loaded() {
    let n = node("a", "A", DbNodeType::Table);
    assert!(!n.has_children && !n.children_loaded && n.children.is_empty() && n.parent_context.is_none());
    let n = n.with_children_flag(true);
    assert!(n.has_children);
}

#[test]
fn tree_item_placeholder_for_unloaded_children() {
    let n = node("db1", "shop", DbNodeType::Database).with_children_flag(true);
    let item = db_node_to_tree_item(&n);
    assert_eq!(item.id, "db1");
    assert_eq!(item.label, "shop");
    assert_eq!(item.children.len(), 1);
    assert_eq!(item.children[0].id, "db1_placeholder");
    assert_eq!(item.children[0].label, "Loading...");
    let leaf = db_node_to_tree_item(&node("t", "users", DbNodeType::Table));
    assert!(leaf.children.is_empty());
}

#[test]
fn tree_item_with_loaded_children() {
    let mut n = node("db1", "shop", DbNodeType::Database).with_children_flag(true);
    n.children_loaded = true;
    n.children = vec![node("t1", "users", DbNodeType::Table)];
    let item = db_node_to_tree_item(&n);
    assert_eq!(item.children.len(), 1);
    assert_eq!(item.children[0].label, "users");
}

#[test]
fn initial_tree_placeholder_when_empty() {
    let items = create_initial_tree(vec![]);
    assert_eq!(items.len(), 1);
    assert_eq!(items[0].id, "root");
    assert_eq!(items[0].label, "No Database Connected");
    let items = create_initial_tree(vec![node("1", "a", DbNodeType::Connection), node("2", "b", DbNodeType::Connection)]);
    assert_eq!(items.iter().map(|i| i.id.clone()).collect::<Vec<_>>(), vec![s("1"), s("2")]);
}

#[test]
fn id_sets() {
    let mut v: Vec<String> = vec![];
    ids_insert(&mut v, s("a"));
    ids_insert(&mut v, s("a"));
    ids_insert(&mut v, s("b"));
    assert_eq!(v.len(), 2);
    assert!(ids_contain(&v, &s("a")));
    ids_remove(&mut v, &s("a"));
    assert!(!ids_contain(&v, &s("a")));
    ids_insert(&mut v, s("c"));
    ids_retain(&mut v, &vec![s("c")]);
    assert_eq!(v, vec![s("c")]);
}

#[test]
fn nodes_sorted_by_id_stably() {
    let sorted = sort_nodes(vec![
        node("b", "1", DbNodeType::Table),
        node("a", "2", DbNodeType::Table),
        node("b", "3", DbNodeType::Table),
    ]);
    let names: Vec<String> = sorted.iter().map(|n| n.name.clone()).collect();
    assert_eq!(names, vec![s("2"), s("1"), s("3")]);
    assert_eq!(find_node(&sorted, &s("b")), Some(1));
    assert_eq!(find_node(&sorted, &s("z")), None);
}

#[test]
fn explorer_starts_with_connections() {
    let v = DbTreeView::new(&vec![conn(2, "second"), conn(1, "first")]);
    assert_eq!(v.items.len(), 2);
    assert_eq!(v.items[0].id, "1");
    assert_eq!(v.items[1].label, "second");
    assert!(v.loaded_children.is_empty() && v.loading_nodes.is_empty());
    let empty = DbTreeView::new(&vec![]);
    assert_eq!(empty.items[0].label, "No Database Connected");
}

#[test]
fn lazy_loading_marks_loading_once() {
    let mut v = DbTreeView::new(&vec![conn(1, "c")]);
    assert!(!v.lazy_load_children(s("1")));
    assert!(v.update_connection_node(s("1")));
    assert!(v.node(&s("1")).unwrap().has_children);
    assert!(ids_contain(&v.expanded_nodes, &s("1")));
    assert!(!v.lazy_load_children(s("1")));
    assert_eq!(v.item_label(&s("1"), "c"), "c (Loading...)");
    assert!(!v.update_connection_node(s("nope")));
}

#[test]
fn children_arrive_and_tree_is_rebuilt() {
    let mut v = DbTreeView::new(&vec![conn(1, "c")]);
    v.update_connection_node(s("1"));
    let mut db = node("1_db_shop", "shop", DbNodeType::Database).with_children_flag(true);
    db.parent_context = Some(s("1"));
    v.children_loaded(s("1"), vec![db]);
    assert!(ids_contain(&v.loaded_children, &s("1")));
    assert!(!ids_contain(&v.loading_nodes, &s("1")));
    assert!(v.node(&s("1_db_shop")).is_some());
    assert_eq!(v.items.len(), 1);
    assert_eq!(v.items[0].children.len(), 1);
    assert_eq!(v.items[0].children[0].label, "shop");
    assert_eq!(v.item_label(&s("1"), "c"), "c");
    assert!(v.expand_database("1", "shop"));
    assert!(!v.expand_database("1", "shop"));
    v.children_failed(s("1_db_shop"));
    assert!(!ids_contain(&v.loading_nodes, &s("1_db_shop")));
    v.set_connection_name(s("local"));
    v.select_item(s("1"));
    assert!(v.reload_children(s("1")));
    assert_eq!(v.connection_name, Some(s("local")));
    assert_eq!(v.selected_item, Some(s("1")));
}

#[test]
fn double_click_events() {
    let mut v = DbTreeView::new(&vec![conn(7, "prod")]);
    match v.handle_item_double_click(&s("7")) {
        Some(DbTreeViewEvent::ConnectToConnection { id, name }) => {
            assert_eq!(id, "7");
            assert_eq!(name, "prod");
        }
        other => panic!("unexpected {:?}", other),
    }
    v.update_connection_node(s("7"));
    let mut db = node("7_db_shop", "shop", DbNodeType::Database).with_children_flag(true);
    db.parent_context = Some(s("7"));
    v.children_loaded(s("7"), vec![db]);
    let mut t = node("7_db_shop_t_users", "users", DbNodeType::Table);
    t.parent_context = Some(s("shop"));
    v.children_loaded(s("7_db_shop"), vec![t]);
    match v.handle_item_double_click(&s("7_db_shop_t_users")) {
        Some(DbTreeViewEvent::OpenTableData { database, table }) => {
            assert_eq!(database, "shop");
            assert_eq!(table, "users");
        }
        other => panic!("unexpected {:?}", other),
    }
    assert_eq!(v.find_parent_database(&s("7_db_shop_t_users")), Some(s("shop")));
    assert_eq!(v.find_parent_database(&s("7_db_shop")), Some(s("shop")));
    assert!(v.handle_item_double_click(&s("7_db_shop")).is_none());
    assert!(v.handle_item_double_click(&s("unknown")).is_none());
}

#[test]
fn icons_by_kind() {
    let mut v = DbTreeView::new(&vec![conn(1, "c")]);
    assert_eq!(v.get_icon_for_node(&s("1"), false), NodeIcon::Building2);
    assert_eq!(v.get_icon_for_node(&s("zzz"), false), NodeIcon::File);
    v.update_connection_node(s("1"));
    let db = node("1_db_x", "x", DbNodeType::Database).with_children_flag(true);
    v.children_loaded(s("1"), vec![db]);
    assert_eq!(v.get_icon_for_node(&s("1_db_x"), true), NodeIcon::FolderOpen);
    assert_eq!(v.get_icon_for_node(&s("1_db_x"), false), NodeIcon::Folder);
    assert_eq!(kind_label_of(DbNodeType::TablesFolder), "TablesFolder");
    assert_eq!(kind_label_of(DbNodeType::Sequence), "Sequence");
}

#[test]
fn context_menus() {
    let mut v = DbTreeView::new(&vec![conn(1, "c")]);
    let m = v.context_menu(&s("1"));
    assert!(matches!(&m[0], MenuEntry::Label(t) if t == "Type: Connection"));
    assert!(matches!(&m[1], MenuEntry::Separator));
    assert!(matches!(&m[2], MenuEntry::Item(t, Some(MenuAction::Disconnect)) if t == "Disconnect"));
    assert!(matches!(&m[4], MenuEntry::Item(t, Some(MenuAction::RefreshNode(i))) if t == "Refresh Node" && i == "1"));
    assert_eq!(m.len(), 5);
    v.update_connection_node(s("1"));
    let mut db = node("1_db_shop", "shop", DbNodeType::Database).with_children_flag(true);
    db.parent_context = Some(s("1"));
    v.children_loaded(s("1"), vec![db]);
    let m = v.context_menu(&s("1_db_shop"));
    assert_eq!(m.len(), 8);
    assert!(matches!(&m[2], MenuEntry::Item(t, Some(MenuAction::NewQuery(d))) if t == "New Query" && d == "shop"));
    assert!(matches!(&m[4], MenuEntry::Item(t, Some(MenuAction::SetCurrentDatabase(d))) if t == "Set as Current Database" && d == "shop"));
    assert!(matches!(&m[6], MenuEntry::Item(t, Some(MenuAction::LoadChildren(i))) if t == "Load Children" && i == "1_db_shop"));
    assert!(v.context_menu(&s("missing")).is_empty());
}

#[test]
fn refresh_lists_databases_under_active_connection() {
    let mut v = DbTreeView::new(&vec![conn(1, "c")]);
    v.set_connection_name(s("local"));
    v.refresh_done(vec![s("a"), s("b")]);
    assert_eq!(v.items.len(), 1);
    assert_eq!(v.items[0].id, "conn_active:local");
    assert_eq!(v.items[0].label, "local");
    assert_eq!(v.items[0].children.len(), 2);
    assert_eq!(v.items[0].children[0].id, "db:a");
    assert_eq!(v.items[0].children[0].children[0].id, "db:a_placeholder");
    assert!(v.node(&s("1")).is_some());
    assert!(ids_contain(&v.loaded_children, &s("conn_active:local")));
}

#[test]
fn selection_and_expansion_are_recorded() {
    let mut v = DbTreeView::new(&vec![conn(1, "c")]);
    v.select_item(s("1"));
    assert_eq!(v.selected_item, Some(s("1")));
    v.sync_expanded(s("1"), true);
    assert!(ids_contain(&v.expanded_nodes, &s("1")));
    v.sync_expanded(s("1"), false);
    assert!(!ids_contain(&v.expanded_nodes, &s("1")));
}

#[test]
fn recursive_items_follow_expansion() {
    let mut parent = node("p", "P", DbNodeType::Database).with_children_flag(true);
    parent.children_loaded = true;
    parent.children = vec![node("c", "old name", DbNodeType::Table)];
    let mut stored_child = node("c", "C", DbNodeType::TablesFolder).with_children_flag(true);
    stored_child.children_loaded = false;
    let nodes = vec![stored_child];
    let expanded = vec![s("p")];
    let item = db_node_to_tree_item_recursive(&parent, &nodes, &expanded, 3);
    assert!(item.expanded);
    assert_eq!(item.children.len(), 1);
    assert_eq!(item.children[0].label, "C");
    assert!(!item.children[0].expanded);
    assert_eq!(item.children[0].children[0].id, "c_placeholder");
    let shallow = db_node_to_tree_item_recursive(&parent, &nodes, &expanded, 0);
    assert!(shallow.children.is_empty());
}
