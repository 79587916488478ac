use onehup::tabs::{ActivationChange, TabContainer, TabContentType, TabItem};

fn s(x: &str) -> String {
    x.to_string()
}

fn tab(id: &str, closeable: bool) -> TabItem {
    TabItem::new(s(id), format!("Title {}", id), closeable, TabContentType::Custom(s(id)))
}

fn ids(c: &TabContainer) -> Vec<String> {
    c.tabs().iter().map(|t| t.id().to_string()).collect()
}

#[test]
fn tab_item_accessors() {
    let t = TabItem::new(s("x"), s("X"), true, TabContentType::TableData(s("users")));
    assert_eq!(t.id(), "x");
    assert_eq!(t.title(), "X");
    assert!(t.closeable());
    assert_eq!(t.content_type(), &TabContentType::TableData(s("users")));
    assert!(TabContentType::TableData(s("a")) != TabContentType::TableForm(s("a")));
    assert!(TabContentType::SqlEditor == TabContentType::SqlEditor);
}

#[test]
fn adding_and_activating() {
    let mut c = TabContainer::new();
    assert_eq!(c.active_index(), 0);
    assert!(c.active_tab().is_none());
    c.add_tab(tab("a", true));
    c.add_tab(tab("b", true));
    assert_eq!(c.active_index(), 0);
    c.add_and_activate_tab(tab("c", true));
    assert_eq!(c.active_index(), 2);
    assert_eq!(c.active_tab().unwrap().id(), "c");
    assert_eq!(ids(&c), vec![s("a"), s("b"), s("c")]);
}

#[test]
fn closing_tabs() {
    let mut c = TabContainer::new();
    c.add_tab(tab("home", false));
    c.add_tab(tab("a", true));
    c.add_and_activate_tab(tab("b", true));
    c.close_tab(0);
    assert_eq!(ids(&c), vec![s("home"), s("a"), s("b")]);
    c.close_tab(2);
    assert_eq!(ids(&c), vec![s("home"), s("a")]);
    assert_eq!(c.active_index(), 1);
    c.close_tab_by_id("a");
    assert_eq!(ids(&c), vec![s("home")]);
    assert_eq!(c.active_index(), 0);
    c.close_tab_by_id("missing");
    c.close_tab(9);
    assert_eq!(ids(&c), vec![s("home")]);
}

#[test]
fn activation_reports_changes() {
    let mut c = TabContainer::new();
    c.add_tab(tab("a", true));
    c.add_tab(tab("b", true));
    assert_eq!(c.set_active_index(1), Some(ActivationChange { deactivated: Some(0), activated: 1 }));
    assert_eq!(c.set_active_index(5), None);
    assert_eq!(c.active_index(), 1);
    assert_eq!(c.set_active_by_id("a"), Some(ActivationChange { deactivated: Some(1), activated: 0 }));
    assert_eq!(c.set_active_by_id("zzz"), None);
}

#[test]
fn finding_by_content_type() {
    let mut c = TabContainer::new();
    c.add_tab(tab("a", true));
    c.add_tab(TabItem::new(s("q"), s("Query"), true, TabContentType::SqlEditor));
    assert!(c.has_tab_type(&TabContentType::SqlEditor));
    assert!(!c.has_tab_type(&TabContentType::QueryResult(s("1"))));
    assert_eq!(c.find_tab_by_type(&TabContentType::SqlEditor).unwrap().id(), "q");
    let r = c.activate_or_create(&TabContentType::SqlEditor, || tab("never", true));
    assert!(r.is_some());
    assert_eq!(c.active_index(), 1);
    assert_eq!(c.tabs().len(), 2);
    c.activate_or_create(&TabContentType::Custom(s("new")), || tab("new", true));
    assert_eq!(c.tabs().len(), 3);
    assert_eq!(c.active_index(), 2);
}

#[test]
fn moving_keeps_active_tab() {
    let mut c = TabContainer::new();
    for id in ["a", "b", "c", "d"] {
        c.add_tab(tab(id, true));
    }
    c.set_active_index(1);
    c.move_tab(0, 3);
    assert_eq!(ids(&c), vec![s("b"), s("c"), s("d"), s("a")]);
    assert_eq!(c.active_tab().unwrap().id(), "b");
    c.move_tab(3, 0);
    assert_eq!(ids(&c), vec![s("a"), s("b"), s("c"), s("d")]);
    assert_eq!(c.active_index(), 1);
    c.move_tab(1, 1);
    c.move_tab(1, 9);
    assert_eq!(ids(&c), vec![s("a"), s("b"), s("c"), s("d")]);
}

#[test]
fn dropping_activates_target() {
    let mut c = TabContainer::new();
    for id in ["a", "b", "c"] {
        c.add_tab(tab(id, true));
    }
    let r = c.drop_tab(0, 2);
    assert_eq!(ids(&c), vec![s("b"), s("c"), s("a")]);
    assert_eq!(c.active_index(), 2);
    assert!(r.is_some());
}

#[test]
fn overflow_menu() {
    let mut c = TabContainer::new().with_max_visible_tabs(2);
    for id in ["a", "b", "c", "d"] {
        c.add_tab(tab(id, true));
    }
    assert!(!c.overflow_menu_visible());
    c.toggle_overflow_menu();
    assert!(c.overflow_menu_visible());
    let o = c.overflow_entries();
    assert_eq!(o.iter().map(|e| e.index).collect::<Vec<_>>(), vec![2, 3]);
    assert_eq!(o[0].title, "Title c");
    c.select_overflow_tab(3);
    assert!(!c.overflow_menu_visible());
    assert_eq!(c.active_index(), 3);
    let bar = c.tab_bar_entries();
    assert_eq!(bar.len(), 4);
    assert!(bar[3].is_active && !bar[0].is_active);
    c.toggle_overflow_menu();
    c.hide_overflow_menu();
    assert!(!c.overflow_menu_visible());
    let plain = TabContainer::new();
    assert!(plain.overflow_entries().is_empty());
}

#[test]
fn menu_flag() {
    let mut c = TabContainer::new();
    c.set_show_menu(true);
    c.add_tab(tab("a", true));
    assert_eq!(c.tabs().len(), 1);
}
