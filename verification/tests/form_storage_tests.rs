use onehup::connection::{DatabaseType, DbConnectionConfig};
use onehup::form::{
    field_caption, parse_port, DbConnectionForm, DbConnectionFormEvent, DbFormConfig, FormField,
    FormFieldType, DEFAULT_PORT,
};
use onehup::storage::{
    connection_from_row, db_type_from_stored, db_type_to_stored, i64_to_string,
    port_from_stored, port_to_stored, ConnectionRow, KeyValue, StoredConnection,
};

fn s(x: &str) -> String {
    x.to_string()
}

#[test]
fn new_field_is_required_with_placeholder() {
    let f = FormField::new("UserName", "User", FormFieldType::Text);
    assert_eq!(f.name, "UserName");
    assert_eq!(f.label, "User");
    assert_eq!(f.placeholder, "Enter username");
    assert!(f.required);
    assert_eq!(f.default_value, "");
    let f = f.optional().placeholder("who").default("root");
    assert!(!f.required);
    assert_eq!(f.placeholder, "who");
    assert_eq!(f.default_value, "root");
}

#[test]
fn field_caption_marks_required() {
    let f = FormField::new("host", "Host", FormFieldType::Text);
    assert_eq!(field_caption(&f), "Host *");
    assert_eq!(field_caption(&f.optional()), "Host");
}

#[test]
fn mysql_form_defaults() {
    let c = DbFormConfig::mysql();
    assert_eq!(c.db_type, DatabaseType::MySQL);
    assert_eq!(c.title, "Connect to MySQL");
    let names: Vec<&str> = c.fields.iter().map(|f| f.name.as_str()).collect();
    assert_eq!(names, vec!["name", "host", "port", "username", "password", "database"]);
    assert_eq!(c.fields[2].field_type, FormFieldType::Number);
    assert_eq!(c.fields[2].default_value, "3306");
    assert_eq!(c.fields[4].field_type, FormFieldType::Password);
    assert!(!c.fields[5].required);
    let form = DbConnectionForm::new(c);
    assert_eq!(form.get_field_value("host"), "localhost");
    assert_eq!(form.get_field_value("nope"), "");
    assert!(form.validate().is_ok());
}

#[test]
fn postgres_form_requires_password() {
    let form = DbConnectionForm::new(DbFormConfig::postgres());
    assert_eq!(form.config.title, "Connect to PostgreSQL");
    assert_eq!(form.get_field_value("port"), "5432");
    assert_eq!(form.validate(), Err(s("Password is required")));
}

#[test]
fn generic_form_fields() {
    let c = DbFormConfig::generic(DatabaseType::PostgreSQL, s("Custom"));
    assert_eq!(c.title, "Custom");
    assert_eq!(c.fields[0].placeholder, "Enter name");
    assert_eq!(c.fields[0].default_value, "");
    assert!(!c.fields[5].required);
    let form = DbConnectionForm::new(c);
    assert_eq!(form.validate(), Err(s("Connection Name is required")));
}

#[test]
fn port_parsing_follows_u16() {
    assert_eq!(parse_port("3306"), Some(3306));
    assert_eq!(parse_port("+80"), Some(80));
    assert_eq!(parse_port("65535"), Some(65535));
    assert_eq!(parse_port("65536"), None);
    assert_eq!(parse_port(""), None);
    assert_eq!(parse_port("+"), None);
    assert_eq!(parse_port(" 80"), None);
    assert_eq!(parse_port("8a"), None);
    for p in [0u16, 1, 80, 3306, 65535] {
        assert_eq!(parse_port(&p.to_string()), Some(p));
        assert_eq!(p.to_string().parse::<u16>().ok(), parse_port(&p.to_string()));
    }
}

#[test]
fn build_connection_from_fields() {
    let mut form = DbConnectionForm::new(DbFormConfig::mysql());
    let c = form.build_connection();
    assert_eq!(c.id, "");
    assert_eq!(c.name, "Local MySQL");
    assert_eq!(c.port, 3306);
    assert_eq!(c.database, Some(s("ai_app")));
    form.set_field_value(2, s("abc"));
    form.set_field_value(5, s(""));
    let c = form.build_connection();
    assert_eq!(c.port, DEFAULT_PORT);
    assert_eq!(c.database, None);
}

#[test]
fn test_and_save_buttons() {
    let mut form = DbConnectionForm::new(DbFormConfig::mysql());
    match form.handle_test_connection() {
        Some(DbConnectionFormEvent::TestConnection(t, c)) => {
            assert_eq!(t, DatabaseType::MySQL);
            assert_eq!(c.username, "root");
        }
        other => panic!("unexpected {:?}", other),
    }
    assert!(form.is_testing);
    form.set_test_result(Ok(true));
    assert!(!form.is_testing);
    assert_eq!(form.test_result_message(), Some(s("✓ Connection successful!")));
    form.set_test_result(Ok(false));
    assert_eq!(form.test_result_message(), Some(s("✗ Connection failed")));
    form.set_test_result(Err(s("timeout")));
    assert_eq!(form.test_result_message(), Some(s("✗ timeout")));
    assert!(matches!(form.handle_save(), Some(DbConnectionFormEvent::Save(DatabaseType::MySQL, _))));
    assert!(matches!(form.handle_cancel(), DbConnectionFormEvent::Cancel));
}

#[test]
fn invalid_form_shows_error_instead() {
    let mut form = DbConnectionForm::new(DbFormConfig::mysql());
    form.set_field_value(1, s("   "));
    assert!(form.handle_test_connection().is_none());
    assert!(!form.is_testing);
    assert_eq!(form.test_result_message(), Some(s("✗ Host is required")));
    assert!(form.handle_save().is_none());
}

#[test]
fn switching_server_kind_resets_fields() {
    let mut form = DbConnectionForm::new(DbFormConfig::mysql());
    form.set_test_result(Ok(true));
    form.switch_db_type(DatabaseType::PostgreSQL);
    assert_eq!(form.current_db_type, DatabaseType::PostgreSQL);
    assert_eq!(form.get_field_value("username"), "postgres");
    assert!(form.test_result.is_none());
    assert_eq!(DatabaseType::PostgreSQL.as_str(), "PostgreSQL");
    assert_eq!(DatabaseType::MySQL.as_str(), "MySQL");
}

#[test]
fn stored_connection_round_trips() {
    let cfg = DbConnectionConfig {
        id: s(""),
        database_type: DatabaseType::PostgreSQL,
        name: s("pg"),
        host: s("h"),
        port: 5432,
        username: s("u"),
        password: s("p"),
        database: None,
    };
    let mut sc = StoredConnection::new(DatabaseType::PostgreSQL, cfg);
    assert!(sc.id.is_none() && sc.created_at.is_none());
    sc.id = Some(-42);
    let back = sc.to_db_connection();
    assert_eq!(back.id, "-42");
    assert_eq!(back.database_type, DatabaseType::PostgreSQL);
    assert_eq!(back.port, 5432);
    assert_eq!(back.database, None);
}

#[test]
fn signed_decimals() {
    assert_eq!(i64_to_string(0), "0");
    assert_eq!(i64_to_string(1234), "1234");
    assert_eq!(i64_to_string(-7), "-7");
    assert_eq!(i64_to_string(i64::MIN), i64::MIN.to_string());
    assert_eq!(i64_to_string(i64::MAX), i64::MAX.to_string());
}

#[test]
fn stored_type_names() {
    assert_eq!(db_type_to_stored(DatabaseType::MySQL), "MySQL");
    assert_eq!(db_type_to_stored(DatabaseType::PostgreSQL), "PostgreSQL");
    for t in [DatabaseType::MySQL, DatabaseType::PostgreSQL] {
        assert_eq!(db_type_from_stored(&db_type_to_stored(t)), t);
    }
    assert_eq!(db_type_from_stored("Oracle"), DatabaseType::MySQL);
}

#[test]
fn stored_ports() {
    for p in [0u16, 80, 65535] {
        assert_eq!(port_from_stored(port_to_stored(p)), p);
    }
    assert_eq!(port_from_stored(65536 + 80), 80);
    assert_eq!(port_from_stored(-1), (-1i64) as u16);
}

#[test]
fn row_to_connection() {
    let row = ConnectionRow {
        id: 3,
        name: s("n"),
        db_type: s("PostgreSQL"),
        host: s("h"),
        port: 5432,
        username: s("u"),
        password: s("p"),
        database: Some(s("d")),
        created_at: 10,
        updated_at: 11,
    };
    let c = connection_from_row(row);
    assert_eq!(c.id, Some(3));
    assert_eq!(c.db_type, DatabaseType::PostgreSQL);
    assert_eq!(c.port, 5432);
    assert_eq!(c.created_at, Some(10));
    assert_eq!(c.updated_at, Some(11));
}

#[test]
fn key_value_not_stored_yet() {
    let kv = KeyValue::new(s("theme"), s("dark"));
    assert!(kv.id.is_none());
    assert_eq!(kv.key, "theme");
    assert_eq!(kv.value, "dark");
}

#[test]
fn buttons_follow_testing_state() {
    let mut form = DbConnectionForm::new(DbFormConfig::mysql());
    assert_eq!(form.test_button_label(), "Test Connection");
    assert_eq!(form.save_button_label(), "Save & Connect");
    assert!(form.buttons_enabled());
    form.handle_test_connection();
    assert_eq!(form.test_button_label(), "Testing...");
    assert!(!form.buttons_enabled());
    form.set_test_result(Ok(true));
    assert!(form.buttons_enabled());
}
