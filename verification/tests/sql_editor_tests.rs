use onehup::sql_editor::{
    format_sql, hover_for_upper, keyword_of_upper, is_completion_trigger, minify_sql, sort_completions, sql_code_actions, sql_hover,
    uppercase_if_keyword, uppercase_keywords, ActionTarget, CompletionKind,
    DefaultSqlCompletionProvider, SqlCompletion, SqlSchema,
};

fn s(x: &str) -> String {
    x.to_string()
}

fn chars(x: &str) -> Vec<char> {
    x.chars().collect()
}

fn schema() -> SqlSchema {
    SqlSchema::default()
        .with_tables(vec![(s("users"), s("Table: users")), (s("orders"), s("Table: orders"))])
        .with_columns(vec![(s("id"), s("int")), (s("email"), s("text"))])
        .with_table_columns(s("users"), vec![(s("name"), s("varchar")), (s("age"), s("int"))])
}

#[test]
fn schema_builders() {
    let sc = schema();
    assert_eq!(sc.table_columns(&chars("users")).cloned(), Some(vec![(s("name"), s("varchar")), (s("age"), s("int"))]));
    assert!(sc.table_columns(&chars("orders")).is_none());
    let sc = sc.with_table_columns(s("users"), vec![(s("x"), s("y"))]);
    assert_eq!(sc.table_columns(&chars("users")).cloned(), Some(vec![(s("x"), s("y"))]));
}

#[test]
fn keyword_completion_after_prefix() {
    let p = DefaultSqlCompletionProvider::new(schema());
    let r = p.completions("sel", 3);
    assert_eq!(r.replace_start, 0);
    assert_eq!(r.replace_end, 3);
    let labels: Vec<&str> = r.items.iter().map(|i| i.label.as_str()).collect();
    assert_eq!(labels, vec!["SELECT"]);
    let item = &r.items[0];
    assert_eq!(item.kind, CompletionKind::Keyword);
    assert_eq!(item.new_text, "SELECT");
    assert_eq!(item.filter_text, "SEL");
    assert_eq!(item.documentation, Some(s("Query rows from table(s)")));
    assert_eq!(item.sort_text, "1_SELECT");
}

#[test]
fn table_completion_after_from() {
    let p = DefaultSqlCompletionProvider::new(schema());
    let text = "SELECT * FROM us";
    let r = p.completions(text, text.chars().count());
    assert_eq!(r.replace_start, 14);
    let labels: Vec<&str> = r.items.iter().map(|i| i.label.as_str()).collect();
    assert_eq!(labels, vec!["users"]);
    assert_eq!(r.items[0].kind, CompletionKind::Struct);
    assert_eq!(r.items[0].detail, Some(s("Table")));
    assert_eq!(r.items[0].filter_text, "us");
    assert_eq!(r.items[0].sort_text, "0_users");
}

#[test]
fn column_completion_after_dot() {
    let p = DefaultSqlCompletionProvider::new(schema());
    let text = "select users.a";
    let r = p.completions(text, text.chars().count());
    let found: Vec<(&str, Option<&str>)> = r.items.iter().map(|i| (i.label.as_str(), i.detail.as_deref())).collect();
    assert!(found.contains(&("age", Some("users.column"))));
    assert!(found.contains(&("AND", None)));
    assert!(found.contains(&("AVG(x)", None)));
    assert!(!found.iter().any(|(l, _)| *l == "name"));
}

#[test]
fn empty_word_offers_at_most_thirty_sorted() {
    let p = DefaultSqlCompletionProvider::new(schema());
    let r = p.completions("", 0);
    assert_eq!(r.items.len(), 30);
    let sorts: Vec<&str> = r.items.iter().map(|i| i.sort_text.as_str()).collect();
    let mut sorted = sorts.clone();
    sorted.sort();
    assert_eq!(sorts, sorted);
    assert_eq!(r.items[0].label, "email");
}

#[test]
fn sort_is_stable_by_sort_text() {
    let mk = |label: &str, sort: &str| SqlCompletion {
        label: s(label),
        kind: CompletionKind::Field,
        detail: None,
        new_text: s(label),
        filter_text: s(""),
        documentation: None,
        sort_text: s(sort),
    };
    let r = sort_completions(vec![mk("b", "1"), mk("a", "0"), mk("c", "1")]);
    let labels: Vec<&str> = r.iter().map(|i| i.label.as_str()).collect();
    assert_eq!(labels, vec!["a", "b", "c"]);
}

#[test]
fn completion_trigger() {
    assert!(is_completion_trigger("a"));
    assert!(!is_completion_trigger("select 1;"));
    assert!(is_completion_trigger(""));
}

#[test]
fn keywords_uppercased_outside_strings() {
    assert_eq!(uppercase_if_keyword(&chars("select")), chars("SELECT"));
    assert_eq!(uppercase_if_keyword(&chars("users")), chars("users"));
    assert_eq!(
        uppercase_keywords("select name from users where note = 'from here' and x=\"or\""),
        "SELECT name FROM users WHERE note = 'from here' AND x=\"or\""
    );
    assert_eq!(uppercase_keywords("select_1 from t"), "select_1 FROM t");
}

#[test]
fn minify_and_format() {
    assert_eq!(minify_sql("  select *\n\tfrom   t  "), "select * from t");
    assert_eq!(
        format_sql("SELECT a,\nb\n\n  FROM t\nWHERE x = 1\n"),
        "SELECT a,\n  b\nFROM t\nWHERE x = 1"
    );
}

#[test]
fn hover_docs() {
    assert_eq!(sql_hover("select"), Some(s("**SELECT**\n\nQuery rows from table(s)")));
    assert_eq!(sql_hover("count"), Some(s("**COUNT(*)**\n\nReturns the number of rows")));
    assert_eq!(sql_hover("from"), None);
    assert_eq!(sql_hover("nothing"), None);
}

#[test]
fn code_actions() {
    let acts = sql_code_actions(Some("select  a"), "select a\nfrom t");
    let got: Vec<(&str, &str, ActionTarget)> = acts.iter().map(|a| (a.title.as_str(), a.new_text.as_str(), a.target)).collect();
    assert_eq!(
        got,
        vec![
            ("Uppercase Keywords", "SELECT  a", ActionTarget::Selection),
            ("Minify SQL", "select a", ActionTarget::Selection),
            ("Format SQL", "select a\nfrom t", ActionTarget::Document),
        ]
    );
    let acts = sql_code_actions(None, "x");
    assert_eq!(acts.len(), 1);
    assert_eq!(acts[0].title, "Format SQL");
}

#[test]
fn empty_selection_offers_only_formatting() {
    let acts = sql_code_actions(Some(""), "select 1");
    assert_eq!(acts.len(), 1);
    assert_eq!(acts[0].title, "Format SQL");
}

#[test]
fn formatting_twice_changes_nothing() {
    let once = format_sql("  SELECT a,\n b  \n\nFROM t\r\n  WHERE x\n");
    assert_eq!(once, "SELECT a,\n  b\nFROM t\nWHERE x");
    assert_eq!(format_sql(&once), once);
}

#[test]
fn completion_offsets_are_bytes() {
    let p = DefaultSqlCompletionProvider::new(schema());
    // "é" takes two bytes: the cursor at byte 6 ends the text "é sel"
    let r = p.completions("é sel", 6);
    assert_eq!(r.replace_start, 3);
    assert_eq!(r.replace_end, 6);
    let labels: Vec<&str> = r.items.iter().map(|i| i.label.as_str()).collect();
    assert_eq!(labels, vec!["SELECT"]);
    // the editor looks at as many characters as the byte offset, so the
    // word found before byte 6 of "ééab" is its last three characters
    let r = p.completions("ééab", 6);
    assert_eq!(r.replace_start, 2);
}

#[test]
fn keywords_and_hover_of_upper_words() {
    assert_eq!(keyword_of_upper(&chars("SELECT")), Some(chars("SELECT")));
    assert_eq!(keyword_of_upper(&chars("select")), None);
    assert_eq!(keyword_of_upper(&chars("USERS")), None);
    assert_eq!(hover_for_upper(&chars("LIMIT")), Some(s("**LIMIT**\n\nLimit number of rows")));
    assert_eq!(hover_for_upper(&chars("MAX")), Some(s("**MAX(x)**\n\nMaximum value")));
    assert_eq!(hover_for_upper(&chars("max")), None);
}

#[test]
fn quoted_text_and_words_examples() {
    let a = "select x from t where a = ";
    let c = " and b";
    let whole = format!("{}'select from'{}", a, c);
    assert_eq!(uppercase_keywords(&whole), format!("{}'select from'{}", uppercase_keywords(a), uppercase_keywords(c)));
    assert_eq!(uppercase_keywords("x or y"), format!("{}{}{}", uppercase_keywords("x "), "OR", " y"));
}
