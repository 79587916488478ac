//! SQL editor assistance: schema hints, completion, hover text and the
//! text transformations offered as code actions.

use vstd::prelude::*;
use crate::text::{
    chars_eq, chars_of, lemma_lex_total, lemma_lex_trans, lex_le, lex_le_chars, push_str,
    starts_with, starts_with_chars, string_from_chars, upper_chars, contains_seq, contains_chars,
    trailing_word, trailing_word_len, last_index_of, rfind_char, sub_chars, ends_with,
    ends_with_chars, is_word_char, word_char, append_chars, join, words, words_chars, join_chars,
    lines, lines_chars, trim, trim_chars, trim_end, trim_end_chars, vecs_view,
    uppercase, trim_start, is_whitespace, split_on, strip_cr, is_ascii_char, is_ascii_lower,
    is_ascii_upper, is_ascii_digit_char,
};
use vstd::utf8::{decode_utf8, encode_utf8, is_char_boundary, valid_utf8};

verus! {

/// (name, documentation) pairs, as character sequences.
pub open spec fn pairs_view(v: Seq<(String, String)>) -> Seq<(Seq<char>, Seq<char>)> {
    v.map_values(|p: (String, String)| (p.0@, p.1@))
}

/// Simple schema hints to improve autocomplete suggestions.
///
/// `columns_by_table` maps a table name to its columns; a table occurs in it
/// at most once.
pub struct SqlSchema {
    tables: Vec<(String, String)>,
    columns: Vec<(String, String)>,
    columns_by_table: Vec<(String, Vec<(String, String)>)>,
}

/// Keys of an association list.
pub open spec fn assoc_keys<V>(s: Seq<(String, V)>) -> Seq<Seq<char>> {
    s.map_values(|p: (String, V)| p.0@)
}

/// The association list read as a map from table name to its columns.
pub open spec fn table_map(s: Seq<(String, Vec<(String, String)>)>) -> Map<
    Seq<char>,
    Seq<(Seq<char>, Seq<char>)>,
>
    decreases s.len(),
{
    if s.len() == 0 {
        Map::empty()
    } else {
        table_map(s.drop_last()).insert(s.last().0@, pairs_view(s.last().1@))
    }
}

impl SqlSchema {
    #[verifier::type_invariant]
    spec fn keys_unique(self) -> bool {
        assoc_keys(self.columns_by_table@).no_duplicates()
    }

    /// Known tables with their documentation.
    pub closed spec fn table_hints(self) -> Seq<(Seq<char>, Seq<char>)> {
        pairs_view(self.tables@)
    }

    /// Columns offered outside of a `table.` context.
    pub closed spec fn column_hints(self) -> Seq<(Seq<char>, Seq<char>)> {
        pairs_view(self.columns@)
    }

    /// Columns of each table.
    pub closed spec fn table_columns_map(self) -> Map<Seq<char>, Seq<(Seq<char>, Seq<char>)>> {
        table_map(self.columns_by_table@)
    }

    /// Replaces the table hints.
    pub fn with_tables(self, tables: Vec<(String, String)>) -> (r: Self)
        ensures
            r.table_hints() == pairs_view(tables@),
            r.column_hints() == self.column_hints(),
            r.table_columns_map() == self.table_columns_map(),
    {
        proof {
            use_type_invariant(&self);
        }
        SqlSchema { tables, columns: self.columns, columns_by_table: self.columns_by_table }
    }

    /// Replaces the global column hints.
    pub fn with_columns(self, columns: Vec<(String, String)>) -> (r: Self)
        ensures
            r.table_hints() == self.table_hints(),
            r.column_hints() == pairs_view(columns@),
            r.table_columns_map() == self.table_columns_map(),
    {
        proof {
            use_type_invariant(&self);
        }
        SqlSchema { tables: self.tables, columns, columns_by_table: self.columns_by_table }
    }

    /// Sets the columns of `table`, replacing what it had.
    pub fn with_table_columns(self, table: String, columns: Vec<(String, String)>) -> (r: Self)
        ensures
            r.table_hints() == self.table_hints(),
            r.column_hints() == self.column_hints(),
            r.table_columns_map() == self.table_columns_map().insert(table@, pairs_view(columns@)),
            r.table_columns_map().dom().finite(),
            r.table_columns_map().dom().len() == self.table_columns_map().dom().len() + if self.table_columns_map().contains_key(table@) {
                0int
            } else {
                1int
            },
    {
        proof {
            use_type_invariant(&self);
            lemma_table_map_finite(self.columns_by_table@);
        }
        let SqlSchema { tables, columns: cols, columns_by_table } = self;
        let mut entries = columns_by_table;
        let pos = find_table(&entries, &table);
        match pos {
            Some(i) => {
                let ghost before = entries@;
                entries.set(i, (table, columns));
                proof {
                    lemma_table_map_update(before, i as int, entries@[i as int]);
                    lemma_keys_update(before, i as int, entries@[i as int]);
                }
            },
            None => {
                let ghost before = entries@;
                entries.push((table, columns));
                proof {
                    assert(entries@.drop_last() =~= before);
                    assert(assoc_keys(entries@) =~= assoc_keys(before).push(entries@.last().0@));
                }
            },
        }
        SqlSchema { tables, columns: cols, columns_by_table: entries }
    }

    /// Columns recorded for `table`.
    pub fn table_columns(&self, table: &[char]) -> (r: Option<&Vec<(String, String)>>)
        ensures
            r is None <==> !self.table_columns_map().contains_key(table@),
            r matches Some(c) ==> pairs_view(c@) == self.table_columns_map()[table@],
    {
        proof {
            use_type_invariant(self);
        }
        let mut i: usize = 0;
        while i < self.columns_by_table.len()
            invariant
                i <= self.columns_by_table@.len(),
                assoc_keys(self.columns_by_table@).no_duplicates(),
                forall|k: int| 0 <= k < i ==> self.columns_by_table@[k].0@ != table@,
            decreases self.columns_by_table@.len() - i,
        {
            let key = chars_of(self.columns_by_table[i].0.as_str());
            if chars_eq(key.as_slice(), table) {
                proof {
                    lemma_table_map_lookup(self.columns_by_table@, i as int);
                }
                return Some(&self.columns_by_table[i].1);
            }
            i += 1;
        }
        proof {
            lemma_table_map_absent(self.columns_by_table@, table@);
        }
        None
    }
}

/// Copies (name, documentation) pairs.
pub(crate) fn clone_pairs(v: &Vec<(String, String)>) -> (r: Vec<(String, String)>)
    ensures
        pairs_view(r@) == pairs_view(v@),
{
    let mut r: Vec<(String, String)> = Vec::new();
    let mut i: usize = 0;
    while i < v.len()
        invariant
            i <= v@.len(),
            r@.len() == i,
            forall|k: int| 0 <= k < i ==> r@[k].0@ == v@[k].0@ && r@[k].1@ == v@[k].1@,
        decreases v@.len() - i,
    {
        r.push((v[i].0.clone(), v[i].1.clone()));
        i += 1;
    }
    assert(pairs_view(r@) =~= pairs_view(v@));
    r
}

impl Clone for SqlSchema {
    fn clone(&self) -> (r: Self)
        ensures
            r.table_hints() == self.table_hints(),
            r.column_hints() == self.column_hints(),
            r.table_columns_map() == self.table_columns_map(),
    {
        proof {
            use_type_invariant(self);
        }
        let mut entries: Vec<(String, Vec<(String, String)>)> = Vec::new();
        let mut i: usize = 0;
        while i < self.columns_by_table.len()
            invariant
                i <= self.columns_by_table@.len(),
                entries@.len() == i,
                forall|k: int|
                    0 <= k < i ==> entries@[k].0@ == self.columns_by_table@[k].0@ && pairs_view(
                        entries@[k].1@,
                    ) == pairs_view(self.columns_by_table@[k].1@),
            decreases self.columns_by_table@.len() - i,
        {
            let key = self.columns_by_table[i].0.clone();
            let cols = clone_pairs(&self.columns_by_table[i].1);
            entries.push((key, cols));
            i += 1;
        }
        proof {
            assert(assoc_keys(entries@) =~= assoc_keys(self.columns_by_table@));
            lemma_table_map_same(entries@, self.columns_by_table@);
        }
        SqlSchema {
            tables: clone_pairs(&self.tables),
            columns: clone_pairs(&self.columns),
            columns_by_table: entries,
        }
    }
}

proof fn lemma_table_map_finite(s: Seq<(String, Vec<(String, String)>)>)
    ensures
        table_map(s).dom().finite(),
    decreases s.len(),
{
    if s.len() > 0 {
        lemma_table_map_finite(s.drop_last());
    }
}

/// A schema knows the columns of finitely many tables.
pub proof fn lemma_schema_tables_finite(schema: SqlSchema)
    ensures
        schema.table_columns_map().dom().finite(),
{
    lemma_table_map_finite(schema.columns_by_table@);
}

proof fn lemma_table_map_same(
    a: Seq<(String, Vec<(String, String)>)>,
    b: Seq<(String, Vec<(String, String)>)>,
)
    requires
        a.len() == b.len(),
        forall|k: int|
            0 <= k < a.len() ==> a[k].0@ == b[k].0@ && pairs_view(a[k].1@) == pairs_view(b[k].1@),
    ensures
        table_map(a) == table_map(b),
    decreases a.len(),
{
    if a.len() > 0 {
        lemma_table_map_same(a.drop_last(), b.drop_last());
    }
}

impl Default for SqlSchema {
    fn default() -> (r: Self)
        ensures
            r.table_hints().len() == 0,
            r.column_hints().len() == 0,
            r.table_columns_map() == Map::<Seq<char>, Seq<(Seq<char>, Seq<char>)>>::empty(),
    {
        let r = SqlSchema { tables: Vec::new(), columns: Vec::new(), columns_by_table: Vec::new() };
        assert(assoc_keys(r.columns_by_table@) =~= Seq::<Seq<char>>::empty());
        r
    }
}

fn find_table(entries: &Vec<(String, Vec<(String, String)>)>, table: &String) -> (r: Option<usize>)
    ensures
        r matches Some(i) ==> i < entries@.len() && entries@[i as int].0@ == table@,
        r is None ==> forall|k: int| 0 <= k < entries@.len() ==> entries@[k].0@ != table@,
{
    let t = chars_of(table.as_str());
    let mut i: usize = 0;
    while i < entries.len()
        invariant
            i <= entries@.len(),
            t@ == table@,
            forall|k: int| 0 <= k < i ==> entries@[k].0@ != table@,
        decreases entries@.len() - i,
    {
        let key = chars_of(entries[i].0.as_str());
        if chars_eq(key.as_slice(), t.as_slice()) {
            return Some(i);
        }
        i += 1;
    }
    None
}

proof fn lemma_table_map_absent(s: Seq<(String, Vec<(String, String)>)>, key: Seq<char>)
    requires
        forall|k: int| 0 <= k < s.len() ==> s[k].0@ != key,
    ensures
        !table_map(s).contains_key(key),
    decreases s.len(),
{
    if s.len() > 0 {
        lemma_table_map_absent(s.drop_last(), key);
    }
}

proof fn lemma_table_map_lookup(s: Seq<(String, Vec<(String, String)>)>, i: int)
    requires
        0 <= i < s.len(),
        assoc_keys(s).no_duplicates(),
    ensures
        table_map(s).contains_key(s[i].0@),
        table_map(s)[s[i].0@] == pairs_view(s[i].1@),
    decreases s.len(),
{
    if i < s.len() - 1 {
        assert(assoc_keys(s.drop_last()) =~= assoc_keys(s).drop_last());
        lemma_table_map_lookup(s.drop_last(), i);
        assert(assoc_keys(s)[i] != assoc_keys(s)[s.len() - 1]);
    }
}

proof fn lemma_keys_update(
    s: Seq<(String, Vec<(String, String)>)>,
    i: int,
    e: (String, Vec<(String, String)>),
)
    requires
        0 <= i < s.len(),
        assoc_keys(s).no_duplicates(),
        e.0@ == s[i].0@,
    ensures
        assoc_keys(s.update(i, e)).no_duplicates(),
        assoc_keys(s.update(i, e)) == assoc_keys(s),
{
    assert(assoc_keys(s.update(i, e)) =~= assoc_keys(s));
}

proof fn lemma_table_map_update(
    s: Seq<(String, Vec<(String, String)>)>,
    i: int,
    e: (String, Vec<(String, String)>),
)
    requires
        0 <= i < s.len(),
        assoc_keys(s).no_duplicates(),
        e.0@ == s[i].0@,
    ensures
        table_map(s.update(i, e)) == table_map(s).insert(e.0@, pairs_view(e.1@)),
    decreases s.len(),
{
    let t = s.update(i, e);
    if i == s.len() - 1 {
        assert(t.drop_last() =~= s.drop_last());
        assert forall|k: int| 0 <= k < s.len() - 1 implies s.drop_last()[k].0@ != e.0@ by {
            assert(assoc_keys(s)[k] != assoc_keys(s)[i]);
        }
        lemma_table_map_absent(s.drop_last(), e.0@);
        assert(table_map(t) =~= table_map(s).insert(e.0@, pairs_view(e.1@)));
    } else {
        assert(t.drop_last() =~= s.drop_last().update(i, e));
        assert(assoc_keys(s.drop_last()) =~= assoc_keys(s).drop_last());
        lemma_table_map_update(s.drop_last(), i, e);
        assert(assoc_keys(s)[i] != assoc_keys(s)[s.len() - 1]);
        assert(table_map(t) =~= table_map(s).insert(e.0@, pairs_view(e.1@)));
    }
}

} // verus!

verus! {

/// Built-in SQL keywords offered for completion.
pub open spec fn sql_keywords() -> Seq<Seq<char>> {
    seq![
        "SELECT"@, "INSERT"@, "UPDATE"@, "DELETE"@, "CREATE"@, "ALTER"@, "DROP"@, "FROM"@,
        "WHERE"@, "JOIN"@, "LEFT"@, "RIGHT"@, "INNER"@, "GROUP"@, "ORDER"@, "BY"@, "HAVING"@,
        "LIMIT"@, "OFFSET"@, "VALUES"@, "INTO"@, "AND"@, "OR"@, "NOT"@, "IN"@, "EXISTS"@,
        "BETWEEN"@, "LIKE"@, "IS"@, "NULL"@, "AS"@, "DISTINCT"@, "UNION"@, "ALL"@, "ON"@,
    ]
}

/// Built-in SQL functions with their documentation.
pub open spec fn sql_functions() -> Seq<(Seq<char>, Seq<char>)> {
    seq![
        ("COUNT(*)"@, "Returns the number of rows"@),
        ("SUM(x)"@, "Sum of values"@),
        ("AVG(x)"@, "Average value"@),
        ("MIN(x)"@, "Minimum value"@),
        ("MAX(x)"@, "Maximum value"@),
        ("NOW()"@, "Current timestamp"@),
    ]
}

/// Documentation of the main keywords.
pub open spec fn sql_keyword_docs() -> Seq<(Seq<char>, Seq<char>)> {
    seq![
        ("SELECT"@, "Query rows from table(s)"@),
        ("INSERT"@, "Insert new rows"@),
        ("UPDATE"@, "Update existing rows"@),
        ("DELETE"@, "Delete rows"@),
        ("WHERE"@, "Filter rows with predicates"@),
        ("JOIN"@, "Combine rows from tables"@),
        ("GROUP"@, "Group rows for aggregation"@),
        ("ORDER"@, "Sort result set"@),
        ("LIMIT"@, "Limit number of rows"@),
    ]
}

fn keyword_list() -> (v: Vec<&'static str>)
    ensures
        v@.map_values(|s: &str| s@) == sql_keywords(),
{
    let v = vec![
        "SELECT", "INSERT", "UPDATE", "DELETE", "CREATE", "ALTER", "DROP", "FROM", "WHERE",
        "JOIN", "LEFT", "RIGHT", "INNER", "GROUP", "ORDER", "BY", "HAVING", "LIMIT", "OFFSET",
        "VALUES", "INTO", "AND", "OR", "NOT", "IN", "EXISTS", "BETWEEN", "LIKE", "IS", "NULL",
        "AS", "DISTINCT", "UNION", "ALL", "ON",
    ];
    assert(v@.map_values(|s: &str| s@) =~= sql_keywords());
    v
}

} // verus!

verus! {

fn function_list() -> (v: Vec<(&'static str, &'static str)>)
    ensures
        v@.map_values(|p: (&str, &str)| (p.0@, p.1@)) == sql_functions(),
{
    let v = vec![
        ("COUNT(*)", "Returns the number of rows"),
        ("SUM(x)", "Sum of values"),
        ("AVG(x)", "Average value"),
        ("MIN(x)", "Minimum value"),
        ("MAX(x)", "Maximum value"),
        ("NOW()", "Current timestamp"),
    ];
    assert(v@.map_values(|p: (&str, &str)| (p.0@, p.1@)) =~= sql_functions());
    v
}

fn keyword_doc_list() -> (v: Vec<(&'static str, &'static str)>)
    ensures
        v@.map_values(|p: (&str, &str)| (p.0@, p.1@)) == sql_keyword_docs(),
{
    let v = vec![
        ("SELECT", "Query rows from table(s)"),
        ("INSERT", "Insert new rows"),
        ("UPDATE", "Update existing rows"),
        ("DELETE", "Delete rows"),
        ("WHERE", "Filter rows with predicates"),
        ("JOIN", "Combine rows from tables"),
        ("GROUP", "Group rows for aggregation"),
        ("ORDER", "Sort result set"),
        ("LIMIT", "Limit number of rows"),
    ];
    assert(v@.map_values(|p: (&str, &str)| (p.0@, p.1@)) =~= sql_keyword_docs());
    v
}

/// First entry of `entries` whose key is `key`, and its value.
pub open spec fn lookup(entries: Seq<(Seq<char>, Seq<char>)>, key: Seq<char>) -> Option<Seq<char>>
    decreases entries.len(),
{
    if entries.len() == 0 {
        None
    } else if entries[0].0 == key {
        Some(entries[0].1)
    } else {
        lookup(entries.drop_first(), key)
    }
}

/// Finds the documentation string of `key` in `entries`.
fn lookup_doc(entries: &Vec<(&'static str, &'static str)>, key: &[char]) -> (r: Option<String>)
    ensures
        r matches Some(d) ==> lookup(entries@.map_values(|p: (&str, &str)| (p.0@, p.1@)), key@)
            == Some(d@),
        r is None ==> lookup(entries@.map_values(|p: (&str, &str)| (p.0@, p.1@)), key@) is None,
{
    let ghost all = entries@.map_values(|p: (&str, &str)| (p.0@, p.1@));
    assert(all.subrange(0, all.len() as int) =~= all);
    let mut i: usize = 0;
    while i < entries.len()
        invariant
            i <= entries@.len(),
            all == entries@.map_values(|p: (&str, &str)| (p.0@, p.1@)),
            lookup(all, key@) == lookup(all.subrange(i as int, all.len() as int), key@),
        decreases entries@.len() - i,
    {
        let k = chars_of(entries[i].0);
        proof {
            assert(all.subrange(i as int, all.len() as int).drop_first() =~= all.subrange(
                i + 1,
                all.len() as int,
            ));
        }
        if chars_eq(k.as_slice(), key) {
            return Some(entries[i].1.to_owned());
        }
        i += 1;
    }
    None
}

/// Kind of a completion entry.
#[derive(Clone, Copy, Debug, PartialEq, Eq, Structural)]
pub enum CompletionKind {
    Keyword,
    Function,
    Struct,
    Field,
}

/// One completion entry.
#[derive(Debug)]
pub struct SqlCompletion {
    pub label: String,
    pub kind: CompletionKind,
    pub detail: Option<String>,
    pub new_text: String,
    pub filter_text: String,
    pub documentation: Option<String>,
    pub sort_text: String,
}

/// A completion entry with its strings as character sequences.
pub struct CompletionView {
    pub label: Seq<char>,
    pub kind: CompletionKind,
    pub detail: Option<Seq<char>>,
    pub new_text: Seq<char>,
    pub filter_text: Seq<char>,
    pub documentation: Option<Seq<char>>,
    pub sort_text: Seq<char>,
}

pub open spec fn opt_view(o: Option<String>) -> Option<Seq<char>> {
    match o {
        Some(s) => Some(s@),
        None => None,
    }
}

impl View for SqlCompletion {
    type V = CompletionView;

    open spec fn view(&self) -> CompletionView {
        CompletionView {
            label: self.label@,
            kind: self.kind,
            detail: opt_view(self.detail),
            new_text: self.new_text@,
            filter_text: self.filter_text@,
            documentation: opt_view(self.documentation),
            sort_text: self.sort_text@,
        }
    }
}

/// The completion entries as views.
pub open spec fn completions_view(v: Seq<SqlCompletion>) -> Seq<CompletionView> {
    v.map_values(|c: SqlCompletion| c@)
}

/// The part of `label` matching the typed word, used to filter entries.
pub open spec fn matched_prefix(label: Seq<char>, word: Seq<char>) -> Seq<char> {
    if word.len() > 0 && starts_with(uppercase(label), word) {
        label.subrange(0, if word.len() <= label.len() { word.len() as int } else { label.len() as int })
    } else {
        seq![]
    }
}

fn matched_prefix_of(label: &[char], word: &[char]) -> (r: String)
    ensures
        r@ == matched_prefix(label@, word@),
{
    if word.len() > 0 {
        let up = upper_chars(label);
        if starts_with_chars(up.as_slice(), word) {
            let n = if word.len() <= label.len() { word.len() } else { label.len() };
            let mut v: Vec<char> = Vec::new();
            let mut i: usize = 0;
            while i < n
                invariant
                    n <= label@.len(),
                    i <= n,
                    v@ == label@.subrange(0, i as int),
                decreases n - i,
            {
                v.push(label[i]);
                i += 1;
                assert(v@ =~= label@.subrange(0, i as int));
            }
            return string_from_chars(v.as_slice());
        }
    }
    String::new()
}

/// Whether an entry named `name` is offered for the typed word `word`.
pub open spec fn offered(name: Seq<char>, word: Seq<char>) -> bool {
    starts_with(name, word) || word.len() == 0
}

pub open spec fn keyword_entry(kw: Seq<char>, word: Seq<char>) -> CompletionView {
    CompletionView {
        label: kw,
        kind: CompletionKind::Keyword,
        detail: None,
        new_text: kw,
        filter_text: matched_prefix(kw, word),
        documentation: lookup(sql_keyword_docs(), kw),
        sort_text: "1_"@ + kw,
    }
}

/// Part of a function signature before its first `(`.
pub open spec fn is_first_index(s: Seq<char>, c: char, i: int) -> bool {
    0 <= i < s.len() && s[i] == c && forall|j: int| 0 <= j < i ==> s[j] != c
}

pub open spec fn before_char(s: Seq<char>, c: char) -> Seq<char> {
    if exists|i: int| is_first_index(s, c, i) {
        s.subrange(0, choose|i: int| is_first_index(s, c, i))
    } else {
        s
    }
}

fn before_char_of(s: &[char], c: char) -> (r: Vec<char>)
    ensures
        r@ == before_char(s@, c),
{
    let mut i: usize = 0;
    while i < s.len()
        invariant
            i <= s@.len(),
            forall|j: int| 0 <= j < i ==> s@[j] != c,
        decreases s@.len() - i,
    {
        if s[i] == c {
            proof {
                assert(is_first_index(s@, c, i as int));
                let k = choose|k: int| is_first_index(s@, c, k);
                assert(k == i);
            }
            let mut r: Vec<char> = Vec::new();
            let mut j: usize = 0;
            while j < i
                invariant
                    i < s@.len(),
                    j <= i,
                    r@ == s@.subrange(0, j as int),
                decreases i - j,
            {
                r.push(s[j]);
                j += 1;
                assert(r@ =~= s@.subrange(0, j as int));
            }
            return r;
        }
        i += 1;
    }
    let mut r: Vec<char> = Vec::new();
    let mut j: usize = 0;
    while j < s.len()
        invariant
            j <= s@.len(),
            r@ == s@.subrange(0, j as int),
        decreases s@.len() - j,
    {
        r.push(s[j]);
        j += 1;
        assert(r@ =~= s@.subrange(0, j as int));
    }
    assert(r@ =~= s@);
    r
}

pub open spec fn function_entry(f: Seq<char>, doc: Seq<char>, word: Seq<char>) -> CompletionView {
    CompletionView {
        label: f,
        kind: CompletionKind::Function,
        detail: None,
        new_text: f,
        filter_text: matched_prefix(f, word),
        documentation: Some(doc),
        sort_text: "2_"@ + f,
    }
}

pub open spec fn table_entry(t: Seq<char>, doc: Seq<char>, word: Seq<char>) -> CompletionView {
    CompletionView {
        label: t,
        kind: CompletionKind::Struct,
        detail: Some("Table"@),
        new_text: t,
        filter_text: matched_prefix(t, word),
        documentation: Some(doc),
        sort_text: "0_"@ + t,
    }
}

pub open spec fn column_entry(
    c: Seq<char>,
    doc: Seq<char>,
    detail: Seq<char>,
    word: Seq<char>,
) -> CompletionView {
    CompletionView {
        label: c,
        kind: CompletionKind::Field,
        detail: Some(detail),
        new_text: c,
        filter_text: matched_prefix(c, word),
        documentation: Some(doc),
        sort_text: "0_"@ + c,
    }
}

/// Keyword entries for the typed word.
pub open spec fn keyword_candidates(word: Seq<char>) -> Seq<CompletionView> {
    sql_keywords().filter_map(
        |kw: Seq<char>|
            if offered(kw, word) {
                Some(keyword_entry(kw, word))
            } else {
                None
            },
    )
}

/// Function entries for the typed word.
pub open spec fn function_candidates(word: Seq<char>) -> Seq<CompletionView> {
    sql_functions().filter_map(
        |p: (Seq<char>, Seq<char>)|
            if offered(before_char(p.0, '('), word) {
                Some(function_entry(p.0, p.1, word))
            } else {
                None
            },
    )
}

/// Table entries for the typed word.
pub open spec fn table_candidates(
    tables: Seq<(Seq<char>, Seq<char>)>,
    word: Seq<char>,
) -> Seq<CompletionView> {
    tables.filter_map(
        |p: (Seq<char>, Seq<char>)|
            if offered(uppercase(p.0), word) {
                Some(table_entry(p.0, p.1, word))
            } else {
                None
            },
    )
}

/// Column entries for the typed word, with the given detail text.
pub open spec fn column_candidates(
    columns: Seq<(Seq<char>, Seq<char>)>,
    detail: Seq<char>,
    word: Seq<char>,
) -> Seq<CompletionView> {
    columns.filter_map(
        |p: (Seq<char>, Seq<char>)|
            if offered(uppercase(p.0), word) {
                Some(column_entry(p.0, p.1, detail, word))
            } else {
                None
            },
    )
}

fn make_entry(
    label: &str,
    kind: CompletionKind,
    detail: Option<String>,
    filter_text: String,
    documentation: Option<String>,
    sort_prefix: &str,
) -> (r: SqlCompletion)
    ensures
        r@ == (CompletionView {
            label: label@,
            kind,
            detail: opt_view(detail),
            new_text: label@,
            filter_text: filter_text@,
            documentation: opt_view(documentation),
            sort_text: sort_prefix@ + label@,
        }),
{
    let mut sort_text = String::new();
    push_str(&mut sort_text, sort_prefix);
    push_str(&mut sort_text, label);
    SqlCompletion {
        label: label.to_owned(),
        kind,
        detail,
        new_text: label.to_owned(),
        filter_text,
        documentation,
        sort_text,
    }
}

fn push_keyword_candidates(out: &mut Vec<SqlCompletion>, word: &[char])
    ensures
        completions_view(final(out)@) == completions_view(old(out)@) + keyword_candidates(word@),
{
    let kws = keyword_list();
    let docs = keyword_doc_list();
    let ghost f = |kw: Seq<char>|
        if offered(kw, word@) {
            Some(keyword_entry(kw, word@))
        } else {
            None
        };
    let ghost base = completions_view(out@);
    let mut i: usize = 0;
    while i < kws.len()
        invariant
            i <= kws@.len(),
            kws@.map_values(|s: &str| s@) == sql_keywords(),
            docs@.map_values(|p: (&str, &str)| (p.0@, p.1@)) == sql_keyword_docs(),
            f == (|kw: Seq<char>|
                if offered(kw, word@) {
                    Some(keyword_entry(kw, word@))
                } else {
                    None
                }),
            completions_view(out@) == base + sql_keywords().take(i as int).filter_map(f),
        decreases kws@.len() - i,
    {
        let kw = kws[i];
        let kwc = chars_of(kw);
        proof {
            assert(sql_keywords().take(i + 1).drop_last() =~= sql_keywords().take(i as int));
            assert(kw@ == sql_keywords()[i as int]);
        }
        let ghost before = out@;
        if starts_with_chars(kwc.as_slice(), word) || word.len() == 0 {
            let filter = matched_prefix_of(kwc.as_slice(), word);
            let doc = lookup_doc(&docs, kwc.as_slice());
            let e = make_entry(kw, CompletionKind::Keyword, None, filter, doc, "1_");
            out.push(e);
            proof {
                assert(completions_view(out@) =~= completions_view(before).push(e@));
            }
        }
        i += 1;
    }
    assert(sql_keywords().take(kws@.len() as int) =~= sql_keywords());
}

} // verus!

verus! {

fn push_function_candidates(out: &mut Vec<SqlCompletion>, word: &[char])
    ensures
        completions_view(final(out)@) == completions_view(old(out)@) + function_candidates(word@),
{
    let fns = function_list();
    let ghost f = |p: (Seq<char>, Seq<char>)|
        if offered(before_char(p.0, '('), word@) {
            Some(function_entry(p.0, p.1, word@))
        } else {
            None
        };
    let ghost base = completions_view(out@);
    let mut i: usize = 0;
    while i < fns.len()
        invariant
            i <= fns@.len(),
            fns@.map_values(|p: (&str, &str)| (p.0@, p.1@)) == sql_functions(),
            f == (|p: (Seq<char>, Seq<char>)|
                if offered(before_char(p.0, '('), word@) {
                    Some(function_entry(p.0, p.1, word@))
                } else {
                    None
                }),
            completions_view(out@) == base + sql_functions().take(i as int).filter_map(f),
        decreases fns@.len() - i,
    {
        let (func, doc) = fns[i];
        let fc = chars_of(func);
        proof {
            assert(sql_functions().take(i + 1).drop_last() =~= sql_functions().take(i as int));
            assert((func@, doc@) == sql_functions()[i as int]);
        }
        let name = before_char_of(fc.as_slice(), '(');
        let ghost before = out@;
        if starts_with_chars(name.as_slice(), word) || word.len() == 0 {
            let filter = matched_prefix_of(fc.as_slice(), word);
            let e = make_entry(
                func,
                CompletionKind::Function,
                None,
                filter,
                Some(doc.to_owned()),
                "2_",
            );
            out.push(e);
            proof {
                assert(completions_view(out@) =~= completions_view(before).push(e@));
            }
        }
        i += 1;
    }
    assert(sql_functions().take(fns@.len() as int) =~= sql_functions());
}

fn push_table_candidates(out: &mut Vec<SqlCompletion>, tables: &Vec<(String, String)>, word: &[char])
    ensures
        completions_view(final(out)@) == completions_view(old(out)@) + table_candidates(
            pairs_view(tables@),
            word@,
        ),
{
    let ghost all = pairs_view(tables@);
    let ghost f = |p: (Seq<char>, Seq<char>)|
        if offered(uppercase(p.0), word@) {
            Some(table_entry(p.0, p.1, word@))
        } else {
            None
        };
    let ghost base = completions_view(out@);
    let mut i: usize = 0;
    while i < tables.len()
        invariant
            i <= tables@.len(),
            all == pairs_view(tables@),
            f == (|p: (Seq<char>, Seq<char>)|
                if offered(uppercase(p.0), word@) {
                    Some(table_entry(p.0, p.1, word@))
                } else {
                    None
                }),
            completions_view(out@) == base + all.take(i as int).filter_map(f),
        decreases tables@.len() - i,
    {
        let tc = chars_of(tables[i].0.as_str());
        proof {
            assert(all.take(i + 1).drop_last() =~= all.take(i as int));
        }
        let up = upper_chars(tc.as_slice());
        let ghost before = out@;
        if starts_with_chars(up.as_slice(), word) || word.len() == 0 {
            let filter = matched_prefix_of(tc.as_slice(), word);
            let mut detail = String::new();
            push_str(&mut detail, "Table");
            let e = make_entry(
                tables[i].0.as_str(),
                CompletionKind::Struct,
                Some(detail),
                filter,
                Some(tables[i].1.clone()),
                "0_",
            );
            out.push(e);
            proof {
                assert(completions_view(out@) =~= completions_view(before).push(e@));
            }
        }
        i += 1;
    }
    assert(all.take(tables@.len() as int) =~= all);
}

fn push_column_candidates(
    out: &mut Vec<SqlCompletion>,
    columns: &Vec<(String, String)>,
    detail: &[char],
    word: &[char],
)
    ensures
        completions_view(final(out)@) == completions_view(old(out)@) + column_candidates(
            pairs_view(columns@),
            detail@,
            word@,
        ),
{
    let ghost all = pairs_view(columns@);
    let ghost f = |p: (Seq<char>, Seq<char>)|
        if offered(uppercase(p.0), word@) {
            Some(column_entry(p.0, p.1, detail@, word@))
        } else {
            None
        };
    let ghost base = completions_view(out@);
    let mut i: usize = 0;
    while i < columns.len()
        invariant
            i <= columns@.len(),
            all == pairs_view(columns@),
            f == (|p: (Seq<char>, Seq<char>)|
                if offered(uppercase(p.0), word@) {
                    Some(column_entry(p.0, p.1, detail@, word@))
                } else {
                    None
                }),
            completions_view(out@) == base + all.take(i as int).filter_map(f),
        decreases columns@.len() - i,
    {
        let cc = chars_of(columns[i].0.as_str());
        proof {
            assert(all.take(i + 1).drop_last() =~= all.take(i as int));
        }
        let up = upper_chars(cc.as_slice());
        let ghost before = out@;
        if starts_with_chars(up.as_slice(), word) || word.len() == 0 {
            let filter = matched_prefix_of(cc.as_slice(), word);
            let e = make_entry(
                columns[i].0.as_str(),
                CompletionKind::Field,
                Some(string_from_chars(detail)),
                filter,
                Some(columns[i].1.clone()),
                "0_",
            );
            out.push(e);
            proof {
                assert(completions_view(out@) =~= completions_view(before).push(e@));
            }
        }
        i += 1;
    }
    assert(all.take(columns@.len() as int) =~= all);
}

} // verus!

verus! {

/// Entries whose sort text is `k`, in their order.
pub open spec fn with_text(s: Seq<CompletionView>, k: Seq<char>) -> Seq<CompletionView> {
    s.filter(|x: CompletionView| x.sort_text == k)
}

/// Ordered by sort text.
pub open spec fn sorted_by_text(s: Seq<CompletionView>) -> bool {
    forall|i: int, j: int| 0 <= i < j < s.len() ==> lex_le(s[i].sort_text, s[j].sort_text)
}

/// `r` is `s` sorted by sort text, entries with equal sort text keeping their
/// relative order (what a stable sort produces).
pub open spec fn sorts_stably(r: Seq<CompletionView>, s: Seq<CompletionView>) -> bool {
    &&& sorted_by_text(r)
    &&& r.len() == s.len()
    &&& forall|k: Seq<char>| #[trigger] with_text(r, k) == with_text(s, k)
}

proof fn lemma_insert_sorted(r: Seq<CompletionView>, p: int, x: CompletionView)
    requires
        sorted_by_text(r),
        0 <= p <= r.len(),
        forall|q: int| 0 <= q < p ==> lex_le(r[q].sort_text, x.sort_text),
        p < r.len() ==> !lex_le(r[p].sort_text, x.sort_text),
    ensures
        sorted_by_text(r.insert(p, x)),
        forall|k: Seq<char>|
            #[trigger] with_text(r.insert(p, x), k) == if x.sort_text == k {
                with_text(r, k).push(x)
            } else {
                with_text(r, k)
            },
{
    broadcast use Seq::filter_distributes_over_add;

    let t = r.insert(p, x);
    // Everything from position p on sorts strictly after x.
    assert forall|q: int| p <= q < r.len() implies lex_le(x.sort_text, r[q].sort_text)
        && r[q].sort_text != x.sort_text by {
        lemma_lex_total(r[p].sort_text, x.sort_text);
        if q > p {
            lemma_lex_trans(x.sort_text, r[p].sort_text, r[q].sort_text);
        }
    }
    assert forall|i: int, j: int| 0 <= i < j < t.len() implies lex_le(
        t[i].sort_text,
        t[j].sort_text,
    ) by {
        if j < p {
        } else if j == p {
        } else if i < p {
            lemma_lex_trans(r[i].sort_text, x.sort_text, r[j - 1].sort_text);
        } else if i == p {
        } else {
        }
    }
    let front = r.take(p);
    let back = r.skip(p);
    assert(r =~= front + back);
    assert(t =~= front + seq![x] + back);
    assert forall|k: Seq<char>| #[trigger] with_text(t, k) == if x.sort_text == k {
        with_text(r, k).push(x)
    } else {
        with_text(r, k)
    } by {
        let pred = |y: CompletionView| y.sort_text == k;
        reveal_with_fuel(Seq::filter, 2);
        assert(seq![x].filter(pred) == if pred(x) { seq![x] } else { Seq::<CompletionView>::empty() }) by {
            assert(seq![x].drop_last() =~= Seq::<CompletionView>::empty());
        }
        if x.sort_text == k {
            back.lemma_all_neg_filter_empty(pred);
            assert(back.filter(pred) =~= Seq::<CompletionView>::empty());
            assert(with_text(t, k) =~= with_text(r, k).push(x));
        } else {
            assert(with_text(t, k) =~= with_text(r, k));
        }
    }
}

fn sorts_at_or_before(r: &Vec<SqlCompletion>, j: usize, key: &[char]) -> (b: bool)
    requires
        j < r@.len(),
    ensures
        b == lex_le(r@[j as int].sort_text@, key@),
{
    let other = chars_of(r[j].sort_text.as_str());
    lex_le_chars(other.as_slice(), key)
}

/// Stable sort of completion entries by their sort text.
pub fn sort_completions(items: Vec<SqlCompletion>) -> (r: Vec<SqlCompletion>)
    ensures
        sorts_stably(completions_view(r@), completions_view(items@)),
{
    let ghost input = completions_view(items@);
    let mut rest = items;
    let mut r: Vec<SqlCompletion> = Vec::new();
    let ghost mut i: int = 0;
    proof {
        assert(input.take(0) =~= Seq::<CompletionView>::empty());
        assert(completions_view(rest@) =~= input.skip(0));
        assert(completions_view(r@) =~= input.take(0));
    }
    while rest.len() > 0
        invariant
            0 <= i <= input.len(),
            completions_view(rest@) == input.skip(i),
            sorts_stably(completions_view(r@), input.take(i)),
        decreases rest@.len(),
    {
        let ghost old_rest = rest@;
        proof {
            assert(completions_view(old_rest).len() == old_rest.len());
            assert(input.skip(i).len() > 0);
            assert(completions_view(old_rest)[0] == input.skip(i)[0]);
        }
        let x = rest.remove(0);
        let key = chars_of(x.sort_text.as_str());
        let ghost rv = completions_view(r@);
        proof {
            assert(rest@ =~= old_rest.subrange(1, old_rest.len() as int));
            assert(x@ == input[i]);
            assert(completions_view(rest@) =~= completions_view(old_rest).subrange(
                1,
                old_rest.len() as int,
            ));
            assert(input.skip(i).subrange(1, input.skip(i).len() as int) =~= input.skip(i + 1));
        }
        let mut j: usize = 0;
        while j < r.len() && sorts_at_or_before(&r, j, key.as_slice())
            invariant
                j <= r@.len(),
                rv == completions_view(r@),
                key@ == x@.sort_text,
                forall|q: int| 0 <= q < j ==> lex_le(rv[q].sort_text, x@.sort_text),
            decreases r@.len() - j,
        {
            j += 1;
        }
        proof {
            lemma_insert_sorted(rv, j as int, x@);
        }
        let ghost xv = x@;
        r.insert(j, x);
        proof {
            assert(completions_view(r@) =~= rv.insert(j as int, xv));
            assert(input.take(i + 1) =~= input.take(i).push(xv));
            assert forall|k: Seq<char>| #[trigger]
                with_text(completions_view(r@), k) == with_text(input.take(i + 1), k) by {
                input.take(i).lemma_filter_push(xv, |y: CompletionView| y.sort_text == k);
            }
            i = i + 1;
        }
    }
    proof {
        assert(input.take(i) =~= input);
    }
    r
}

} // verus!

verus! {

/// The text between two byte positions of `text`'s UTF-8 encoding.
pub open spec fn byte_text(text: Seq<char>, lo: int, hi: int) -> Seq<char> {
    decode_utf8(encode_utf8(text).subrange(lo, hi))
}

/// Start (a byte position) of the word being typed before byte `offset`:
/// the editor looks at the first `offset` characters (all of them when
/// there are fewer), counts the word characters at their end, and steps
/// back that many from `offset`.
pub open spec fn word_start(text: Seq<char>, offset: int) -> int {
    let n = if offset < text.len() { offset } else { text.len() as int };
    offset - trailing_word(text.take(n)).len()
}

/// The word being typed before byte `offset`, upper-cased.
pub open spec fn current_word(text: Seq<char>, offset: int) -> Seq<char> {
    uppercase(byte_text(text, word_start(text, offset), offset))
}

/// Start of the 128 bytes before `offset` searched for a `table.` prefix.
pub open spec fn dot_window_start(offset: int) -> int {
    if offset >= 128 {
        offset - 128
    } else {
        0
    }
}

/// Byte positions at which the editor cuts the text are character
/// boundaries.
pub open spec fn completion_cuts_ok(text: Seq<char>, offset: int) -> bool {
    &&& 0 <= offset <= encode_utf8(text).len()
    &&& is_char_boundary(encode_utf8(text), offset)
    &&& is_char_boundary(encode_utf8(text), word_start(text, offset))
    &&& is_char_boundary(encode_utf8(text), dot_window_start(offset))
}

/// The upper-cased text names a place where a table is expected.
pub open spec fn after_table_keyword(before: Seq<char>) -> bool {
    contains_seq(before, " FROM "@) || contains_seq(before, " JOIN "@) || contains_seq(
        before,
        " INTO "@,
    ) || contains_seq(before, " TABLE "@)
}

/// The upper-cased text names a place where columns are expected.
pub open spec fn after_select(before: Seq<char>) -> bool {
    contains_seq(before, " SELECT "@)
}

/// The table named before the last `.` of `window`, when there is one.
pub open spec fn dot_table(window: Seq<char>) -> Option<Seq<char>> {
    match last_index_of(window, '.') {
        Some(d) => {
            let t = trailing_word(window.subrange(0, d));
            if t.len() > 0 {
                Some(t)
            } else {
                None
            }
        },
        None => None,
    }
}

/// Every entry offered at `offset`, before sorting.
pub open spec fn completion_candidates(
    schema: SqlSchema,
    text: Seq<char>,
    offset: int,
) -> Seq<CompletionView> {
    let word = current_word(text, offset);
    let before = uppercase(byte_text(text, 0, offset));
    let tables = if after_table_keyword(before) || word.len() == 0 {
        table_candidates(schema.table_hints(), word)
    } else {
        seq![]
    };
    let columns = match dot_table(byte_text(text, dot_window_start(offset), offset)) {
        Some(t) => if schema.table_columns_map().contains_key(t) {
            column_candidates(schema.table_columns_map()[t], t + ".column"@, word)
        } else {
            seq![]
        },
        None => if after_select(before) || word.len() == 0 {
            column_candidates(schema.column_hints(), "Column"@, word)
        } else {
            seq![]
        },
    };
    keyword_candidates(word) + function_candidates(word) + tables + columns
}

/// At most `n` first elements.
pub open spec fn first_n<A>(s: Seq<A>, n: int) -> Seq<A> {
    if s.len() <= n {
        s
    } else {
        s.take(n)
    }
}

fn dot_table_of(window: &[char]) -> (r: Option<Vec<char>>)
    ensures
        r matches Some(t) ==> dot_table(window@) == Some(t@),
        r is None ==> dot_table(window@) is None,
{
    match rfind_char(window, '.') {
        Some(d) => {
            let left = sub_chars(window, 0, d);
            let n = trailing_word_len(left.as_slice());
            if n > 0 {
                Some(sub_chars(left.as_slice(), left.len() - n, left.len()))
            } else {
                None
            }
        },
        None => None,
    }
}

/// The text of `text` between two byte positions that are character
/// boundaries.
fn text_between(text: &str, lo: usize, hi: usize) -> (r: Vec<char>)
    requires
        lo <= hi <= encode_utf8(text@).len(),
        is_char_boundary(encode_utf8(text@), lo as int),
        is_char_boundary(encode_utf8(text@), hi as int),
    ensures
        r@ == byte_text(text@, lo as int, hi as int),
{
    broadcast use vstd::utf8::encode_utf8_decode_utf8, vstd::utf8::encode_utf8_valid_utf8;

    let ghost b = encode_utf8(text@);
    let (_, tail) = text.split_at(lo);
    proof {
        lemma_boundary_in_suffix(b, lo as int, hi as int);
        assert(decode_utf8(encode_utf8(tail@)) == tail@);
    }
    let (mid, _) = tail.split_at(hi - lo);
    proof {
        assert(b.subrange(lo as int, b.len() as int).subrange(0, hi - lo) =~= b.subrange(
            lo as int,
            hi as int,
        ));
        assert(decode_utf8(encode_utf8(mid@)) == mid@);
    }
    chars_of(mid)
}

/// A character boundary of a text is one of its suffix from an earlier
/// boundary.
proof fn lemma_boundary_in_suffix(b: Seq<u8>, i: int, j: int)
    requires
        valid_utf8(b),
        0 <= i <= j <= b.len(),
        is_char_boundary(b, i),
        is_char_boundary(b, j),
    ensures
        is_char_boundary(b.subrange(i, b.len() as int), j - i),
{
    let t = b.subrange(i, b.len() as int);
    vstd::utf8::valid_utf8_split(b, i);
    if j == b.len() {
        vstd::utf8::is_char_boundary_start_end_of_seq(t);
    } else if j > i {
        vstd::utf8::is_char_boundary_iff_not_is_continuation_byte(b, j);
        vstd::utf8::is_char_boundary_iff_not_is_continuation_byte(t, j - i);
        assert(t[j - i] == b[j]);
    }
}

/// A completion request's answer: the range `replace_start..replace_end`
/// (byte offsets) that an accepted entry replaces, and the entries.
pub struct CompletionList {
    pub replace_start: usize,
    pub replace_end: usize,
    pub items: Vec<SqlCompletion>,
}

/// Completion provider using keyword, function and schema hints.
pub struct DefaultSqlCompletionProvider {
    schema: SqlSchema,
}

impl DefaultSqlCompletionProvider {
    pub fn new(schema: SqlSchema) -> (r: Self)
        ensures
            r.schema() == schema,
    {
        DefaultSqlCompletionProvider { schema }
    }

    /// The schema hints in use.
    pub closed spec fn schema(self) -> SqlSchema {
        self.schema
    }

    /// Entries offered at byte offset `offset` of `text`: at most the first
    /// 30 of the candidates in a stable order by sort text.
    pub fn completions(&self, text: &str, offset: usize) -> (r: CompletionList)
        requires
            completion_cuts_ok(text@, offset as int),
        ensures
            r.replace_start == word_start(text@, offset as int),
            r.replace_end == offset,
            exists|s: Seq<CompletionView>|
                sorts_stably(s, completion_candidates(self.schema(), text@, offset as int))
                    && completions_view(r.items@) == first_n(s, 30),
    {
        let chars = chars_of(text);
        let n = if offset < chars.len() {
            offset
        } else {
            chars.len()
        };
        let counted = sub_chars(chars.as_slice(), 0, n);
        assert(counted@ =~= text@.take(n as int));
        let wlen = trailing_word_len(counted.as_slice());
        let start = offset - wlen;
        let raw_word = text_between(text, start, offset);
        let word = upper_chars(raw_word.as_slice());
        proof {
            vstd::utf8::encode_utf8_valid_utf8(text@);
            vstd::utf8::is_char_boundary_start_end_of_seq(encode_utf8(text@));
        }
        let prefix = text_between(text, 0, offset);
        let before = upper_chars(prefix.as_slice());
        let lo = if offset >= 128 {
            offset - 128
        } else {
            0
        };
        let window = text_between(text, lo, offset);
        let from_kw = chars_of(" FROM ");
        let join_kw = chars_of(" JOIN ");
        let into_kw = chars_of(" INTO ");
        let table_kw = chars_of(" TABLE ");
        let select_kw = chars_of(" SELECT ");
        let suggest_tables = contains_chars(before.as_slice(), from_kw.as_slice())
            || contains_chars(before.as_slice(), join_kw.as_slice()) || contains_chars(
            before.as_slice(),
            into_kw.as_slice(),
        ) || contains_chars(before.as_slice(), table_kw.as_slice());
        let suggest_columns = contains_chars(before.as_slice(), select_kw.as_slice());
        let dot = dot_table_of(window.as_slice());
        let mut items: Vec<SqlCompletion> = Vec::new();
        push_keyword_candidates(&mut items, word.as_slice());
        push_function_candidates(&mut items, word.as_slice());
        let ghost after_fixed = completions_view(items@);
        if suggest_tables || word.len() == 0 {
            push_table_candidates(&mut items, &self.schema.tables, word.as_slice());
        }
        let ghost after_tables = completions_view(items@);
        match dot {
            Some(t) => {
                match self.schema.table_columns(t.as_slice()) {
                    Some(cols) => {
                        let mut detail = string_from_chars(t.as_slice());
                        push_str(&mut detail, ".column");
                        let detail_chars = chars_of(detail.as_str());
                        push_column_candidates(
                            &mut items,
                            cols,
                            detail_chars.as_slice(),
                            word.as_slice(),
                        );
                    },
                    None => {},
                }
            },
            None => {
                if suggest_columns || word.len() == 0 {
                    let detail = chars_of("Column");
                    push_column_candidates(
                        &mut items,
                        &self.schema.columns,
                        detail.as_slice(),
                        word.as_slice(),
                    );
                }
            },
        }
        proof {
            assert(completions_view(items@) =~= completion_candidates(
                self.schema(),
                text@,
                offset as int,
            ));
        }
        let mut sorted = sort_completions(items);
        let ghost s = completions_view(sorted@);
        sorted.truncate(30);
        proof {
            assert(completions_view(sorted@) =~= first_n(s, 30));
        }
        CompletionList { replace_start: start, replace_end: offset, items: sorted }
    }
}

} // verus!

verus! {

/// Whether a new input ending this way asks for completion: everything but
/// text ending in `;`.
pub fn is_completion_trigger(new_text: &str) -> (r: bool)
    ensures
        r == !ends_with(new_text@, seq![';']),
{
    let t = chars_of(new_text);
    let mut semi: Vec<char> = Vec::new();
    semi.push(';');
    assert(semi@ =~= seq![';']);
    !ends_with_chars(t.as_slice(), semi.as_slice())
}

/// The upper-case form of `word` when that is an SQL keyword, else `word`.
pub open spec fn uppercase_if_keyword_spec(word: Seq<char>) -> Seq<char> {
    if sql_keywords().contains(uppercase(word)) {
        uppercase(word)
    } else {
        word
    }
}

pub fn uppercase_if_keyword(word: &[char]) -> (r: Vec<char>)
    ensures
        r@ == uppercase_if_keyword_spec(word@),
{
    let upper = upper_chars(word);
    match keyword_of_upper(upper.as_slice()) {
        Some(k) => k,
        None => {
            let r = sub_chars(word, 0, word.len());
            assert(r@ =~= word@);
            r
        },
    }
}

/// The keyword an upper-cased word is, if it is one.
pub fn keyword_of_upper(w: &[char]) -> (r: Option<Vec<char>>)
    ensures
        sql_keywords().contains(w@) ==> (r matches Some(k) && k@ == w@),
        !sql_keywords().contains(w@) ==> r is None,
{
    let kws = keyword_list();
    let mut i: usize = 0;
    while i < kws.len()
        invariant
            i <= kws@.len(),
            kws@.map_values(|s: &str| s@) == sql_keywords(),
            forall|k: int| 0 <= k < i ==> sql_keywords()[k] != w@,
        decreases kws@.len() - i,
    {
        let k = chars_of(kws[i]);
        if chars_eq(k.as_slice(), w) {
            assert(sql_keywords()[i as int] == w@);
            assert(sql_keywords().contains(w@));
            return Some(k);
        }
        i += 1;
    }
    None
}

/// Scanner state while upper-casing keywords: text produced so far, the word
/// being read, whether inside a quoted string and which quote opened it.
pub struct KeywordScan {
    pub out: Seq<char>,
    pub word: Seq<char>,
    pub in_string: bool,
    pub quote: char,
}

/// Text of a finished word.
pub open spec fn flush_word(word: Seq<char>) -> Seq<char> {
    if word.len() > 0 {
        uppercase_if_keyword_spec(word)
    } else {
        seq![]
    }
}

/// One character through the scanner: outside quotes, words made of word
/// characters are upper-cased when they are keywords; quoted text (between a
/// `'` or `"` and the same quote) passes unchanged.
pub open spec fn keyword_scan_step(st: KeywordScan, ch: char) -> KeywordScan {
    if (ch == '\'' || ch == '"') && !st.in_string {
        KeywordScan {
            out: st.out + flush_word(st.word) + seq![ch],
            word: seq![],
            in_string: true,
            quote: ch,
        }
    } else if st.in_string && ch == st.quote {
        KeywordScan { out: st.out.push(ch), word: st.word, in_string: false, quote: st.quote }
    } else if st.in_string {
        KeywordScan { out: st.out.push(ch), ..st }
    } else if is_word_char(ch) {
        KeywordScan { word: st.word.push(ch), ..st }
    } else {
        KeywordScan { out: st.out + flush_word(st.word) + seq![ch], word: seq![], ..st }
    }
}

pub open spec fn keyword_scan(s: Seq<char>) -> KeywordScan
    decreases s.len(),
{
    if s.len() == 0 {
        KeywordScan { out: seq![], word: seq![], in_string: false, quote: ' ' }
    } else {
        keyword_scan_step(keyword_scan(s.drop_last()), s.last())
    }
}

/// `sql` with its keywords upper-cased outside quoted strings.
pub open spec fn uppercase_keywords_spec(sql: Seq<char>) -> Seq<char> {
    let st = keyword_scan(sql);
    st.out + flush_word(st.word)
}

fn flush(out: &mut Vec<char>, word: &Vec<char>)
    ensures
        final(out)@ == old(out)@ + flush_word(word@),
{
    if word.len() > 0 {
        let w = uppercase_if_keyword(word.as_slice());
        append_chars(out, w.as_slice());
    } else {
        assert(old(out)@ + flush_word(word@) =~= old(out)@);
    }
}

/// Upper-cases SQL keywords outside quoted strings.
pub fn uppercase_keywords(sql: &str) -> (r: String)
    ensures
        r@ == uppercase_keywords_spec(sql@),
{
    let s = chars_of(sql);
    let mut out: Vec<char> = Vec::new();
    let mut word: Vec<char> = Vec::new();
    let mut in_string = false;
    let mut quote = ' ';
    let mut i: usize = 0;
    assert(s@.take(0) =~= Seq::<char>::empty());
    while i < s.len()
        invariant
            i <= s@.len(),
            keyword_scan(s@.take(i as int)) == (KeywordScan {
                out: out@,
                word: word@,
                in_string,
                quote,
            }),
        decreases s@.len() - i,
    {
        assert(s@.take(i + 1).drop_last() =~= s@.take(i as int));
        let ch = s[i];
        if (ch == '\'' || ch == '"') && !in_string {
            flush(&mut out, &word);
            word = Vec::new();
            out.push(ch);
            in_string = true;
            quote = ch;
        } else if in_string && ch == quote {
            in_string = false;
            out.push(ch);
        } else if in_string {
            out.push(ch);
        } else if word_char(ch) {
            word.push(ch);
        } else {
            flush(&mut out, &word);
            word = Vec::new();
            out.push(ch);
        }
        i += 1;
        assert(keyword_scan(s@.take(i as int)).out =~= out@);
        assert(keyword_scan(s@.take(i as int)).word =~= word@);
    }
    assert(s@.take(s@.len() as int) =~= s@);
    flush(&mut out, &word);
    string_from_chars(out.as_slice())
}

/// `sql` squeezed onto one line: its words joined by single spaces.
pub fn minify_sql(sql: &str) -> (r: String)
    ensures
        r@ == join(words(sql@), seq![' ']),
{
    let s = chars_of(sql);
    let ws = words_chars(s.as_slice());
    let mut sep: Vec<char> = Vec::new();
    sep.push(' ');
    assert(sep@ =~= seq![' ']);
    let j = join_chars(&ws, sep.as_slice());
    string_from_chars(j.as_slice())
}

} // verus!

verus! {

/// Clause keywords that start a line at the outer level.
pub open spec fn starts_outer_clause(t: Seq<char>) -> bool {
    ||| starts_with(t, "FROM"@)
    ||| starts_with(t, "WHERE"@)
    ||| starts_with(t, "JOIN"@)
    ||| starts_with(t, "INNER"@)
    ||| starts_with(t, "LEFT"@)
    ||| starts_with(t, "RIGHT"@)
    ||| starts_with(t, "ORDER BY"@)
    ||| starts_with(t, "GROUP BY"@)
    ||| starts_with(t, "HAVING"@)
    ||| starts_with(t, "LIMIT"@)
}

/// Formatting state: text so far and current indentation level (0 or 1).
pub open spec fn format_step(acc: (Seq<char>, nat), line: Seq<char>) -> (Seq<char>, nat) {
    let t = trim(line);
    if t.len() == 0 {
        acc
    } else {
        let level: nat = if starts_outer_clause(t) { 0 } else { acc.1 };
        let indent = if level == 1 { "  "@ } else { seq![] };
        let next: nat = if starts_with(t, "SELECT"@) { 1 } else { level };
        (acc.0 + indent + t + seq!['\n'], next)
    }
}

pub open spec fn format_lines(ls: Seq<Seq<char>>) -> (Seq<char>, nat)
    decreases ls.len(),
{
    if ls.len() == 0 {
        (seq![], 0)
    } else {
        format_step(format_lines(ls.drop_last()), ls.last())
    }
}

/// `sql` re-indented: blank lines dropped, lines trimmed, lines after a
/// `SELECT` line indented by two spaces until a clause keyword such as
/// `FROM` or `WHERE`, trailing whitespace removed.
pub open spec fn format_sql_spec(sql: Seq<char>) -> Seq<char> {
    trim_end(format_lines(lines(sql)).0)
}

fn starts_with_str(t: &[char], p: &str) -> (r: bool)
    ensures
        r == starts_with(t@, p@),
{
    let pc = chars_of(p);
    starts_with_chars(t, pc.as_slice())
}

fn is_outer_clause(t: &[char]) -> (r: bool)
    ensures
        r == starts_outer_clause(t@),
{
    starts_with_str(t, "FROM") || starts_with_str(t, "WHERE") || starts_with_str(t, "JOIN")
        || starts_with_str(t, "INNER") || starts_with_str(t, "LEFT") || starts_with_str(t, "RIGHT")
        || starts_with_str(t, "ORDER BY") || starts_with_str(t, "GROUP BY") || starts_with_str(
        t,
        "HAVING",
    ) || starts_with_str(t, "LIMIT")
}

/// Re-indents an SQL text.
pub fn format_sql(sql: &str) -> (r: String)
    ensures
        r@ == format_sql_spec(sql@),
{
    let s = chars_of(sql);
    let ls = lines_chars(s.as_slice());
    let ghost lv = vecs_view(ls@);
    let mut out: Vec<char> = Vec::new();
    let mut level: usize = 0;
    let mut i: usize = 0;
    while i < ls.len()
        invariant
            i <= ls@.len(),
            lv == vecs_view(ls@),
            level <= 1,
            format_lines(lv.take(i as int)) == (out@, level as nat),
        decreases ls@.len() - i,
    {
        assert(lv.take(i + 1).drop_last() =~= lv.take(i as int));
        let t = trim_chars(ls[i].as_slice());
        if t.len() > 0 {
            if is_outer_clause(t.as_slice()) {
                level = 0;
            }
            if level == 1 {
                let ind = chars_of("  ");
                append_chars(&mut out, ind.as_slice());
            }
            append_chars(&mut out, t.as_slice());
            out.push('\n');
            if starts_with_str(t.as_slice(), "SELECT") {
                level = 1;
            }
        }
        i += 1;
        assert(format_lines(lv.take(i as int)).0 =~= out@);
    }
    assert(lv.take(ls@.len() as int) =~= lv);
    let r = trim_end_chars(out.as_slice());
    string_from_chars(r.as_slice())
}

/// The first function of `fs` whose name (before `(`) is `name`.
pub open spec fn function_named(fs: Seq<(Seq<char>, Seq<char>)>, name: Seq<char>) -> Option<
    (Seq<char>, Seq<char>),
>
    decreases fs.len(),
{
    if fs.len() == 0 {
        None
    } else if before_char(fs[0].0, '(') == name {
        Some(fs[0])
    } else {
        function_named(fs.drop_first(), name)
    }
}

/// Hover text for an upper-cased word: `**NAME**` and the documentation of
/// the keyword or function it names.
pub open spec fn hover_for_upper_spec(w: Seq<char>) -> Option<Seq<char>> {
    match lookup(sql_keyword_docs(), w) {
        Some(doc) => Some("**"@ + w + "**\n\n"@ + doc),
        None => match function_named(sql_functions(), w) {
            Some(f) => Some("**"@ + f.0 + "**\n\n"@ + f.1),
            None => None,
        },
    }
}

/// Hover text for the word under the cursor, compared upper-cased.
pub open spec fn hover_text(word: Seq<char>) -> Option<Seq<char>> {
    hover_for_upper_spec(uppercase(word))
}

/// Hover documentation for `word`.
pub fn sql_hover(word: &str) -> (r: Option<String>)
    ensures
        opt_view(r) == hover_text(word@),
{
    let wc = chars_of(word);
    let w = upper_chars(wc.as_slice());
    hover_for_upper(w.as_slice())
}

/// Hover documentation for a word already upper-cased.
pub fn hover_for_upper(w: &[char]) -> (r: Option<String>)
    ensures
        opt_view(r) == hover_for_upper_spec(w@),
{
    let docs = keyword_doc_list();
    match lookup_doc(&docs, w) {
        Some(doc) => {
            let mut s = String::new();
            push_str(&mut s, "**");
            let ws = string_from_chars(w);
            push_str(&mut s, ws.as_str());
            push_str(&mut s, "**\n\n");
            push_str(&mut s, doc.as_str());
            Some(s)
        },
        None => {
            let fns = function_list();
            let ghost all = fns@.map_values(|p: (&str, &str)| (p.0@, p.1@));
            assert(all.subrange(0, all.len() as int) =~= all);
            let mut i: usize = 0;
            while i < fns.len()
                invariant
                    i <= fns@.len(),
                    all == fns@.map_values(|p: (&str, &str)| (p.0@, p.1@)),
                    all == sql_functions(),
                    lookup(sql_keyword_docs(), w@) is None,
                    function_named(all, w@) == function_named(
                        all.subrange(i as int, all.len() as int),
                        w@,
                    ),
                decreases fns@.len() - i,
            {
                let (func, doc) = fns[i];
                let fc = chars_of(func);
                let name = before_char_of(fc.as_slice(), '(');
                proof {
                    assert(all.subrange(i as int, all.len() as int).drop_first() =~= all.subrange(
                        i + 1,
                        all.len() as int,
                    ));
                }
                if chars_eq(name.as_slice(), w) {
                    assert(all.subrange(i as int, all.len() as int)[0] == (func@, doc@));
                    let mut s = String::new();
                    push_str(&mut s, "**");
                    push_str(&mut s, func);
                    push_str(&mut s, "**\n\n");
                    push_str(&mut s, doc);
                    return Some(s);
                }
                i += 1;
            }
            None
        },
    }
}

/// Where a code action's new text goes.
#[derive(Clone, Copy, Debug, PartialEq, Eq, Structural)]
pub enum ActionTarget {
    /// The selected range.
    Selection,
    /// The whole document.
    Document,
}

/// A text edit offered as a code action.
#[derive(Debug)]
pub struct SqlCodeAction {
    pub title: String,
    pub new_text: String,
    pub target: ActionTarget,
}

/// The code actions offered for a document: with a selection that is not
/// empty, upper-casing its keywords and minifying it; always, formatting the
/// whole document.
pub fn sql_code_actions(selection: Option<&str>, document: &str) -> (r: Vec<SqlCodeAction>)
    ensures
        ({
            let format = (
                "Format SQL"@,
                format_sql_spec(document@),
                ActionTarget::Document,
            );
            let got = r@.map_values(|a: SqlCodeAction| (a.title@, a.new_text@, a.target));
            match selection {
                Some(sel) => if sel@.len() > 0 {
                    got == seq![
                        ("Uppercase Keywords"@, uppercase_keywords_spec(sel@), ActionTarget::Selection),
                        ("Minify SQL"@, join(words(sel@), seq![' ']), ActionTarget::Selection),
                        format,
                    ]
                } else {
                    got == seq![format]
                },
                None => got == seq![format],
            }
        }),
{
    let mut r: Vec<SqlCodeAction> = Vec::new();
    let chosen: Option<&str> = match selection {
        Some(sel) => {
            let c = chars_of(sel);
            if c.len() > 0 {
                Some(sel)
            } else {
                None
            }
        },
        None => None,
    };
    match chosen {
        Some(sel) => {
            let mut t1 = String::new();
            push_str(&mut t1, "Uppercase Keywords");
            r.push(
                SqlCodeAction {
                    title: t1,
                    new_text: uppercase_keywords(sel),
                    target: ActionTarget::Selection,
                },
            );
            let mut t2 = String::new();
            push_str(&mut t2, "Minify SQL");
            r.push(
                SqlCodeAction {
                    title: t2,
                    new_text: minify_sql(sel),
                    target: ActionTarget::Selection,
                },
            );
        },
        None => {},
    }
    let mut t3 = String::new();
    push_str(&mut t3, "Format SQL");
    r.push(
        SqlCodeAction {
            title: t3,
            new_text: format_sql(document),
            target: ActionTarget::Document,
        },
    );
    proof {
        let got = r@.map_values(|a: SqlCodeAction| (a.title@, a.new_text@, a.target));
        if chosen is Some {
            assert(got =~= seq![got[0], got[1], got[2]]);
        } else {
            assert(got =~= seq![got[0]]);
        }
    }
    r
}

} // verus!

verus! {

/// The trimmed lines that are not blank, in order.
pub open spec fn nonblank_trimmed(ls: Seq<Seq<char>>) -> Seq<Seq<char>>
    decreases ls.len(),
{
    if ls.len() == 0 {
        seq![]
    } else {
        let r = nonblank_trimmed(ls.drop_last());
        let t = trim(ls.last());
        if t.len() == 0 {
            r
        } else {
            r.push(t)
        }
    }
}

/// The lines that formatting writes for the trimmed, non-blank lines `ts`,
/// and the indentation level after them.
pub open spec fn formatted_lines(ts: Seq<Seq<char>>) -> (Seq<Seq<char>>, nat)
    decreases ts.len(),
{
    if ts.len() == 0 {
        (seq![], 0)
    } else {
        let prev = formatted_lines(ts.drop_last());
        let t = ts.last();
        let level: nat = if starts_outer_clause(t) { 0 } else { prev.1 };
        let indent = if level == 1 { "  "@ } else { seq![] };
        let next: nat = if starts_with(t, "SELECT"@) { 1 } else { level };
        (prev.0.push(indent + t), next)
    }
}

/// Each line followed by a line break.
pub open spec fn terminated(ls: Seq<Seq<char>>) -> Seq<char>
    decreases ls.len(),
{
    if ls.len() == 0 {
        seq![]
    } else {
        terminated(ls.drop_last()) + ls.last() + seq!['\n']
    }
}

proof fn lemma_format_lines_shape(ls: Seq<Seq<char>>)
    ensures
        format_lines(ls).0 == terminated(formatted_lines(nonblank_trimmed(ls)).0),
        format_lines(ls).1 == formatted_lines(nonblank_trimmed(ls)).1,
    decreases ls.len(),
{
    if ls.len() > 0 {
        lemma_format_lines_shape(ls.drop_last());
        let ts = nonblank_trimmed(ls.drop_last());
        let t = trim(ls.last());
        if t.len() > 0 {
            assert(nonblank_trimmed(ls).drop_last() =~= ts);
            assert(formatted_lines(nonblank_trimmed(ls)).0.drop_last() =~= formatted_lines(ts).0);
        }
    }
}

proof fn lemma_trim_start_shape(s: Seq<char>)
    ensures
        trim_start(s).len() > 0 ==> !is_whitespace(trim_start(s)[0]),
        exists|k: int| 0 <= k <= s.len() && trim_start(s) == #[trigger] s.subrange(k, s.len() as int),
    decreases s.len(),
{
    if s.len() > 0 && is_whitespace(s[0]) {
        lemma_trim_start_shape(s.drop_first());
        let k = choose|k: int|
            0 <= k <= s.drop_first().len() && trim_start(s.drop_first()) == #[trigger] s.drop_first().subrange(
                k,
                s.drop_first().len() as int,
            );
        assert(s.drop_first().subrange(k, s.drop_first().len() as int) =~= s.subrange(k + 1, s.len() as int));
    } else {
        assert(s.subrange(0, s.len() as int) =~= s);
    }
}

proof fn lemma_trim_end_shape(s: Seq<char>)
    ensures
        trim_end(s).len() > 0 ==> !is_whitespace(trim_end(s).last()),
        trim_end(s).len() <= s.len(),
        trim_end(s) == s.subrange(0, trim_end(s).len() as int),
    decreases s.len(),
{
    if s.len() > 0 && is_whitespace(s.last()) {
        lemma_trim_end_shape(s.drop_last());
        assert(s.drop_last().subrange(0, trim_end(s).len() as int) =~= s.subrange(0, trim_end(s).len() as int));
    } else {
        assert(s.subrange(0, s.len() as int) =~= s);
    }
}

/// A trimmed, non-blank text starts and ends with a character that is not
/// whitespace, and holds no character that the text did not hold.
proof fn lemma_trim_shape(s: Seq<char>, c: char)
    ensures
        trim(s).len() > 0 ==> !is_whitespace(trim(s)[0]) && !is_whitespace(trim(s).last()),
        !s.contains(c) ==> !trim(s).contains(c),
{
    lemma_trim_start_shape(s);
    let k = choose|k: int| 0 <= k <= s.len() && trim_start(s) == #[trigger] s.subrange(k, s.len() as int);
    let a = trim_start(s);
    lemma_trim_end_shape(a);
    if !s.contains(c) && trim(s).contains(c) {
        let j = choose|j: int| 0 <= j < trim(s).len() && trim(s)[j] == c;
        assert(trim(s)[j] == a[j]);
        assert(a[j] == s[k + j]);
    }
}

proof fn lemma_trim_fixed(t: Seq<char>)
    requires
        t.len() > 0,
        !is_whitespace(t[0]),
        !is_whitespace(t.last()),
    ensures
        trim(t) == t,
        trim("  "@ + t) == t,
{
    reveal_strlit("  ");
    let u = "  "@ + t;
    let v = u.drop_first();
    assert(v.drop_first() =~= t);
    assert(u[0] == ' ' && v[0] == ' ');
    assert(is_whitespace(u[0]) && is_whitespace(v[0]));
    assert(trim_start(u) == trim_start(v));
    assert(trim_start(v) == trim_start(t));
    assert(trim_start(t) == t);
}

proof fn lemma_split_parts_lack(s: Seq<char>, c: char)
    ensures
        forall|i: int| 0 <= i < split_on(s, c).len() ==> !(#[trigger] split_on(s, c)[i]).contains(c),
    decreases s.len(),
{
    if s.len() > 0 {
        lemma_split_parts_lack(s.drop_last(), c);
        crate::text::lemma_split_on_len(s.drop_last(), c);
        let r = split_on(s.drop_last(), c);
        if s.last() != c {
            let l = r.last().push(s.last());
            assert forall|i: int| 0 <= i < split_on(s, c).len() implies !(#[trigger] split_on(s, c)[i]).contains(c) by {
                if i == r.len() - 1 {
                    if l.contains(c) {
                        let j = choose|j: int| 0 <= j < l.len() && l[j] == c;
                        assert(r.last()[j] == c);
                    }
                }
            }
        }
    }
}

proof fn lemma_lines_lack_break(s: Seq<char>)
    ensures
        forall|i: int| 0 <= i < lines(s).len() ==> !(#[trigger] lines(s)[i]).contains('\n'),
{
    lemma_split_parts_lack(s, '\n');
    crate::text::lemma_split_on_len(s, '\n');
    let parts = split_on(s, '\n');
    assert forall|i: int| 0 <= i < lines(s).len() implies !(#[trigger] lines(s)[i]).contains('\n') by {
        if i < parts.len() - 1 {
            let l = strip_cr(parts[i]);
            assert(lines(s)[i] == l);
            if l.contains('\n') {
                let j = choose|j: int| 0 <= j < l.len() && l[j] == '\n';
                assert(parts[i][j] == '\n');
            }
        } else {
            assert(lines(s)[i] == parts[parts.len() - 1]);
        }
    }
}

proof fn lemma_nonblank_trimmed_shape(ls: Seq<Seq<char>>)
    requires
        forall|i: int| 0 <= i < ls.len() ==> !(#[trigger] ls[i]).contains('\n'),
    ensures
        forall|i: int|
            0 <= i < nonblank_trimmed(ls).len() ==> {
                let t = #[trigger] nonblank_trimmed(ls)[i];
                &&& t.len() > 0
                &&& !is_whitespace(t[0])
                &&& !is_whitespace(t.last())
                &&& !t.contains('\n')
            },
    decreases ls.len(),
{
    if ls.len() > 0 {
        assert forall|i: int| 0 <= i < ls.drop_last().len() implies !(#[trigger] ls.drop_last()[i]).contains('\n') by {
            assert(ls.drop_last()[i] == ls[i]);
        }
        lemma_nonblank_trimmed_shape(ls.drop_last());
        assert(ls.last() == ls[ls.len() - 1]);
        lemma_trim_shape(ls.last(), '\n');
        let r = nonblank_trimmed(ls.drop_last());
        let t = trim(ls.last());
        if t.len() > 0 {
            assert forall|i: int| 0 <= i < nonblank_trimmed(ls).len() implies {
                let u = #[trigger] nonblank_trimmed(ls)[i];
                &&& u.len() > 0
                &&& !is_whitespace(u[0])
                &&& !is_whitespace(u.last())
                &&& !u.contains('\n')
            } by {
                if i < r.len() {
                    assert(nonblank_trimmed(ls)[i] == r[i]);
                } else {
                    assert(nonblank_trimmed(ls)[i] == t);
                }
            }
        }
    }
}

proof fn lemma_formatted_lines_shape(ts: Seq<Seq<char>>)
    ensures
        formatted_lines(ts).0.len() == ts.len(),
        formatted_lines(ts).1 <= 1,
        forall|i: int|
            0 <= i < ts.len() ==> #[trigger] formatted_lines(ts).0[i] == ts[i]
                || formatted_lines(ts).0[i] == "  "@ + ts[i],
    decreases ts.len(),
{
    if ts.len() > 0 {
        lemma_formatted_lines_shape(ts.drop_last());
        let prev = formatted_lines(ts.drop_last()).0;
        let t = ts.last();
        assert forall|i: int|
            0 <= i < ts.len() implies #[trigger] formatted_lines(ts).0[i] == ts[i]
                || formatted_lines(ts).0[i] == "  "@ + ts[i] by {
            if i < ts.len() - 1 {
                assert(formatted_lines(ts).0[i] == prev[i]);
                assert(ts.drop_last()[i] == ts[i]);
            } else {
                assert(seq![] + t =~= t);
            }
        }
    }
}

proof fn lemma_split_alone(b: Seq<char>, c: char)
    requires
        !b.contains(c),
    ensures
        split_on(b, c) == seq![b],
    decreases b.len(),
{
    if b.len() > 0 {
        assert(b.last() == b[b.len() - 1]);
        assert(!b.drop_last().contains(c)) by {
            if b.drop_last().contains(c) {
                let j = choose|j: int| 0 <= j < b.drop_last().len() && b.drop_last()[j] == c;
                assert(b[j] == c);
            }
        }
        lemma_split_alone(b.drop_last(), c);
        assert(b.drop_last().push(b.last()) =~= b);
        assert(split_on(b, c) =~= seq![b]);
    } else {
        assert(b =~= seq![]);
    }
}

proof fn lemma_split_after(a: Seq<char>, b: Seq<char>, c: char)
    requires
        !b.contains(c),
    ensures
        split_on(a + seq![c] + b, c) == split_on(a, c).push(b),
    decreases b.len(),
{
    let s = a + seq![c] + b;
    if b.len() == 0 {
        assert(s.drop_last() =~= a);
        assert(b =~= seq![]);
        assert(split_on(s, c) =~= split_on(a, c).push(b));
    } else {
        assert(b.last() == b[b.len() - 1]);
        assert(!b.drop_last().contains(c)) by {
            if b.drop_last().contains(c) {
                let j = choose|j: int| 0 <= j < b.drop_last().len() && b.drop_last()[j] == c;
                assert(b[j] == c);
            }
        }
        lemma_split_after(a, b.drop_last(), c);
        assert(s.drop_last() =~= a + seq![c] + b.drop_last());
        assert(s.last() == b.last());
        assert(b.drop_last().push(b.last()) =~= b);
        assert(split_on(s, c) =~= split_on(a, c).push(b));
    }
}

proof fn lemma_split_join(o: Seq<Seq<char>>)
    requires
        o.len() > 0,
        forall|i: int| 0 <= i < o.len() ==> !(#[trigger] o[i]).contains('\n'),
    ensures
        split_on(join(o, seq!['\n']), '\n') == o,
    decreases o.len(),
{
    if o.len() == 1 {
        lemma_split_alone(o[0], '\n');
        assert(o =~= seq![o[0]]);
    } else {
        lemma_split_join(o.drop_last());
        lemma_split_after(join(o.drop_last(), seq!['\n']), o.last(), '\n');
        assert(o.drop_last().push(o.last()) =~= o);
    }
}

proof fn lemma_terminated_join(o: Seq<Seq<char>>)
    requires
        o.len() > 0,
    ensures
        terminated(o) == join(o, seq!['\n']) + seq!['\n'],
    decreases o.len(),
{
    if o.len() == 1 {
        assert(o.drop_last() =~= Seq::<Seq<char>>::empty());
        assert(terminated(o.drop_last()) == Seq::<char>::empty());
        assert(o.last() == o[0]);
        assert(terminated(o) =~= o[0] + seq!['\n']);
    } else {
        lemma_terminated_join(o.drop_last());
        assert(terminated(o) =~= join(o, seq!['\n']) + seq!['\n']);
    }
}

/// The trimmed, non-blank lines: not empty, with no whitespace at either
/// end and no line break.
pub open spec fn clean_lines(ts: Seq<Seq<char>>) -> bool {
    forall|i: int|
        0 <= i < ts.len() ==> {
            let t = #[trigger] ts[i];
            &&& t.len() > 0
            &&& !is_whitespace(t[0])
            &&& !is_whitespace(t.last())
            &&& !t.contains('\n')
        }
}

proof fn lemma_formatted_line_facts(ts: Seq<Seq<char>>, i: int)
    requires
        clean_lines(ts),
        0 <= i < ts.len(),
    ensures
        ({
            let l = formatted_lines(ts).0[i];
            &&& l.len() > 0
            &&& !is_whitespace(l.last())
            &&& !l.contains('\n')
            &&& trim(l) == ts[i]
            &&& (l == ts[i] || l == "  "@ + ts[i])
        }),
{
    reveal_strlit("  ");
    lemma_formatted_lines_shape(ts);
    let t = ts[i];
    let l = formatted_lines(ts).0[i];
    lemma_trim_fixed(t);
    if l != t {
        assert(l == "  "@ + t);
        assert(l.last() == t.last());
        if l.contains('\n') {
            let j = choose|j: int| 0 <= j < l.len() && l[j] == '\n';
            assert(j >= 2);
            assert(t[j - 2] == '\n');
        }
    }
}

proof fn lemma_nonblank_of_formatted(ts: Seq<Seq<char>>)
    requires
        clean_lines(ts),
    ensures
        nonblank_trimmed(formatted_lines(ts).0) == ts,
    decreases ts.len(),
{
    lemma_formatted_lines_shape(ts);
    if ts.len() > 0 {
        let d = ts.drop_last();
        assert(clean_lines(d)) by {
            assert forall|i: int| 0 <= i < d.len() implies {
                let t = #[trigger] d[i];
                &&& t.len() > 0
                &&& !is_whitespace(t[0])
                &&& !is_whitespace(t.last())
                &&& !t.contains('\n')
            } by {
                assert(d[i] == ts[i]);
            }
        }
        lemma_nonblank_of_formatted(d);
        let o = formatted_lines(ts).0;
        assert(o.drop_last() =~= formatted_lines(d).0);
        lemma_formatted_line_facts(ts, ts.len() - 1);
        assert(o.last() == o[ts.len() - 1]);
        assert(nonblank_trimmed(o) =~= ts);
    }
}

proof fn lemma_join_last(o: Seq<Seq<char>>)
    requires
        o.len() > 0,
        o.last().len() > 0,
    ensures
        join(o, seq!['\n']).len() > 0,
        join(o, seq!['\n']).last() == o.last().last(),
{
    if o.len() == 1 {
        assert(o.last() == o[0]);
    }
}

proof fn lemma_lines_of_join(o: Seq<Seq<char>>)
    requires
        o.len() > 0,
        forall|i: int| 0 <= i < o.len() ==> {
            &&& (#[trigger] o[i]).len() > 0
            &&& !is_whitespace(o[i].last())
            &&& !o[i].contains('\n')
        },
    ensures
        lines(join(o, seq!['\n'])) == o,
{
    lemma_split_join(o);
    let parts = split_on(join(o, seq!['\n']), '\n');
    assert(parts == o);
    assert(o.last() == o[o.len() - 1]);
    let ended = parts.drop_last().map_values(|l: Seq<char>| strip_cr(l));
    assert(ended =~= o.drop_last()) by {
        assert forall|i: int| 0 <= i < o.len() - 1 implies ended[i] == o.drop_last()[i] by {
            assert(!is_whitespace(o[i].last()));
            assert(o[i].last() != '\r');
        }
    }
    assert(o.drop_last().push(o.last()) =~= o);
}

/// Formatting gives lines that are not blank, end in a character that is
/// not whitespace and are indented by nothing or by two spaces; trimmed,
/// they are the trimmed non-blank lines of the input, in order; and
/// formatting the result again changes nothing.
pub proof fn law_format_sql(sql: Seq<char>)
    ensures
        ({
            let r = format_sql_spec(sql);
            &&& format_sql_spec(r) == r
            &&& r == join(lines(r), seq!['\n'])
            &&& lines(r).map_values(|l: Seq<char>| trim(l)) == nonblank_trimmed(lines(sql))
            &&& forall|i: int|
                0 <= i < lines(r).len() ==> {
                    let l = #[trigger] lines(r)[i];
                    &&& trim(l).len() > 0
                    &&& !is_whitespace(l.last())
                    &&& (l == trim(l) || l == "  "@ + trim(l))
                }
        }),
{
    let ls = lines(sql);
    let ts = nonblank_trimmed(ls);
    let o = formatted_lines(ts).0;
    let r = format_sql_spec(sql);
    lemma_format_lines_shape(ls);
    lemma_lines_lack_break(sql);
    lemma_nonblank_trimmed_shape(ls);
    lemma_formatted_lines_shape(ts);
    assert(clean_lines(ts));
    assert forall|i: int| 0 <= i < o.len() implies {
        &&& (#[trigger] o[i]).len() > 0
        &&& !is_whitespace(o[i].last())
        &&& !o[i].contains('\n')
        &&& trim(o[i]) == ts[i]
        &&& (o[i] == ts[i] || o[i] == "  "@ + ts[i])
    } by {
        lemma_formatted_line_facts(ts, i);
    }
    if o.len() == 0 {
        assert(terminated(o) == Seq::<char>::empty());
        assert(r == Seq::<char>::empty());
        crate::text::lemma_split_on_len(r, '\n');
        assert(split_on(r, '\n') =~= seq![Seq::<char>::empty()]);
        assert(lines(r) =~= Seq::<Seq<char>>::empty());
        assert(ts.len() == 0);
        assert(format_lines(lines(r)) == (Seq::<char>::empty(), 0nat));
    } else {
        let j = join(o, seq!['\n']);
        lemma_terminated_join(o);
        assert(o.last() == o[o.len() - 1]);
        lemma_join_last(o);
        assert(j + seq!['\n'] == terminated(o));
        assert((j + seq!['\n']).drop_last() =~= j);
        assert(is_whitespace('\n'));
        assert(trim_end(j + seq!['\n']) == trim_end(j));
        assert(r == j);
        lemma_lines_of_join(o);
        assert(lines(r) == o);
        lemma_nonblank_of_formatted(ts);
        lemma_format_lines_shape(o);
        assert(format_sql_spec(r) == r);
        assert(o.map_values(|l: Seq<char>| trim(l)) =~= ts);
    }
}

/// The scanner's state before any character.
pub open spec fn scan_start() -> KeywordScan {
    KeywordScan { out: seq![], word: seq![], in_string: false, quote: ' ' }
}

/// The scanner run over `s` from the state `st`.
pub open spec fn scan_from(st: KeywordScan, s: Seq<char>) -> KeywordScan
    decreases s.len(),
{
    if s.len() == 0 {
        st
    } else {
        keyword_scan_step(scan_from(st, s.drop_last()), s.last())
    }
}

proof fn lemma_scan_is_scan_from(s: Seq<char>)
    ensures
        keyword_scan(s) == scan_from(scan_start(), s),
    decreases s.len(),
{
    if s.len() > 0 {
        lemma_scan_is_scan_from(s.drop_last());
    }
}

proof fn lemma_scan_from_concat(st: KeywordScan, x: Seq<char>, y: Seq<char>)
    ensures
        scan_from(st, x + y) == scan_from(scan_from(st, x), y),
    decreases y.len(),
{
    if y.len() == 0 {
        assert(x + y =~= x);
    } else {
        lemma_scan_from_concat(st, x, y.drop_last());
        assert((x + y).drop_last() =~= x + y.drop_last());
        assert((x + y).last() == y.last());
    }
}

/// Two scanner states alike but for text `p` written before the first's
/// output.
pub open spec fn scan_shifted(a: KeywordScan, b: KeywordScan, p: Seq<char>) -> bool {
    &&& a.out == p + b.out
    &&& a.word == b.word
    &&& a.in_string == b.in_string
    &&& a.in_string ==> a.quote == b.quote
}

proof fn lemma_scan_shift(a: KeywordScan, b: KeywordScan, p: Seq<char>, y: Seq<char>)
    requires
        scan_shifted(a, b, p),
    ensures
        scan_shifted(scan_from(a, y), scan_from(b, y), p),
    decreases y.len(),
{
    if y.len() > 0 {
        lemma_scan_shift(a, b, p, y.drop_last());
        let a1 = scan_from(a, y.drop_last());
        let b1 = scan_from(b, y.drop_last());
        let a2 = keyword_scan_step(a1, y.last());
        let b2 = keyword_scan_step(b1, y.last());
        assert(a2.out =~= p + b2.out);
    }
}

proof fn lemma_scan_inside_string(st: KeywordScan, b: Seq<char>)
    requires
        st.in_string,
        !b.contains(st.quote),
    ensures
        scan_from(st, b) == (KeywordScan { out: st.out + b, ..st }),
    decreases b.len(),
{
    if b.len() == 0 {
        assert(st.out + b =~= st.out);
    } else {
        assert(!b.drop_last().contains(st.quote)) by {
            if b.drop_last().contains(st.quote) {
                let j = choose|j: int| 0 <= j < b.drop_last().len() && b.drop_last()[j] == st.quote;
                assert(b[j] == st.quote);
            }
        }
        lemma_scan_inside_string(st, b.drop_last());
        assert(b.last() == b[b.len() - 1]);
        assert((st.out + b.drop_last()).push(b.last()) =~= st.out + b);
    }
}

/// A quoted string passes through keyword upper-casing unchanged, and the
/// text before and after it are each upper-cased on their own.
pub proof fn law_quoted_text_unchanged(a: Seq<char>, q: char, b: Seq<char>, c: Seq<char>)
    requires
        q == '\'' || q == '"',
        !keyword_scan(a).in_string,
        !b.contains(q),
    ensures
        uppercase_keywords_spec(a + seq![q] + b + seq![q] + c) == uppercase_keywords_spec(a)
            + seq![q] + b + seq![q] + uppercase_keywords_spec(c),
{
    let s = a + seq![q] + b + seq![q] + c;
    lemma_scan_is_scan_from(s);
    lemma_scan_is_scan_from(a);
    lemma_scan_is_scan_from(c);
    let i = scan_start();
    let sa = scan_from(i, a);
    lemma_scan_from_concat(i, a, seq![q] + b + seq![q] + c);
    assert(s =~= a + (seq![q] + b + seq![q] + c));
    lemma_scan_from_concat(sa, seq![q], b + seq![q] + c);
    assert(seq![q] + b + seq![q] + c =~= seq![q] + (b + seq![q] + c));
    assert(seq![q].drop_last() =~= Seq::<char>::empty());
    let s1 = scan_from(sa, seq![q]);
    assert(seq![q].last() == q);
    assert(scan_from(sa, seq![q].drop_last()) == sa);
    assert(s1 == keyword_scan_step(sa, q));
    lemma_scan_from_concat(s1, b, seq![q] + c);
    assert(b + seq![q] + c =~= b + (seq![q] + c));
    lemma_scan_inside_string(s1, b);
    let s2 = scan_from(s1, b);
    lemma_scan_from_concat(s2, seq![q], c);
    let s3 = scan_from(s2, seq![q]);
    assert(scan_from(s2, seq![q].drop_last()) == s2);
    assert(s3 == keyword_scan_step(s2, q));
    let p = sa.out + flush_word(sa.word) + seq![q] + b + seq![q];
    assert(scan_shifted(s3, i, p)) by {
        assert(s3.out =~= p + i.out);
    }
    lemma_scan_shift(s3, i, p, c);
    let sc = scan_from(i, c);
    let fin = scan_from(s3, c);
    assert(fin.out + flush_word(fin.word) =~= p + (sc.out + flush_word(sc.word)));
    assert(uppercase_keywords_spec(s) =~= uppercase_keywords_spec(a) + seq![q] + b + seq![q]
        + uppercase_keywords_spec(c));
}

proof fn lemma_scan_word(st: KeywordScan, w: Seq<char>)
    requires
        !st.in_string,
        forall|i: int| 0 <= i < w.len() ==> is_word_char(#[trigger] w[i]) && w[i] != '\'' && w[i] != '"',
    ensures
        scan_from(st, w) == (KeywordScan { word: st.word + w, ..st }),
    decreases w.len(),
{
    if w.len() == 0 {
        assert(st.word + w =~= st.word);
    } else {
        lemma_scan_word(st, w.drop_last());
        assert(w.last() == w[w.len() - 1]);
        assert((st.word + w.drop_last()).push(w.last()) =~= st.word + w);
    }
}

/// Outside quoted strings, a word (word characters between separators)
/// becomes its upper-case form when that is an SQL keyword and stays as it
/// is otherwise; the text before and after it is upper-cased on its own.
pub proof fn law_word_uppercased_iff_keyword(a: Seq<char>, w: Seq<char>, d: char, c: Seq<char>)
    requires
        !keyword_scan(a).in_string,
        keyword_scan(a).word.len() == 0,
        w.len() > 0,
        forall|i: int| 0 <= i < w.len() ==> is_word_char(#[trigger] w[i]) && w[i] != '\'' && w[i] != '"',
        !is_word_char(d),
        d != '\'' && d != '"',
    ensures
        uppercase_keywords_spec(a + w + seq![d] + c) == uppercase_keywords_spec(a) + (if sql_keywords().contains(uppercase(w)) {
            uppercase(w)
        } else {
            w
        }) + seq![d] + uppercase_keywords_spec(c),
{
    let s = a + w + seq![d] + c;
    lemma_scan_is_scan_from(s);
    lemma_scan_is_scan_from(a);
    lemma_scan_is_scan_from(c);
    let i = scan_start();
    let sa = scan_from(i, a);
    assert(s =~= a + (w + (seq![d] + c)));
    lemma_scan_from_concat(i, a, w + (seq![d] + c));
    lemma_scan_from_concat(sa, w, seq![d] + c);
    lemma_scan_word(sa, w);
    let s1 = scan_from(sa, w);
    assert(sa.word + w =~= w);
    lemma_scan_from_concat(s1, seq![d], c);
    let s2 = scan_from(s1, seq![d]);
    assert(seq![d].last() == d);
    assert(seq![d].drop_last() =~= Seq::<char>::empty());
    assert(scan_from(s1, seq![d].drop_last()) == s1);
    assert(s2 == keyword_scan_step(s1, d));
    let p = sa.out + flush_word(w) + seq![d];
    assert(scan_shifted(s2, i, p)) by {
        assert(s2.out =~= p + i.out);
    }
    lemma_scan_shift(s2, i, p, c);
    let sc = scan_from(i, c);
    let fin = scan_from(s2, c);
    assert(fin.out + flush_word(fin.word) =~= p + (sc.out + flush_word(sc.word)));
    assert(sa.out + flush_word(sa.word) =~= sa.out);
}

/// Outside quoted strings, a word of ASCII letters is written as an SQL
/// keyword in capitals whatever the case it was typed in, when its capital
/// form is that keyword; any other word stays as typed.
pub proof fn law_keyword_in_any_case(a: Seq<char>, w: Seq<char>, d: char, c: Seq<char>)
    requires
        !keyword_scan(a).in_string,
        keyword_scan(a).word.len() == 0,
        w.len() > 0,
        forall|i: int| 0 <= i < w.len() ==> is_ascii_lower(#[trigger] w[i]) || is_ascii_upper(w[i]),
        is_ascii_char(d),
        !(is_ascii_lower(d) || is_ascii_upper(d) || is_ascii_digit_char(d) || d == '_'),
        d != '\'' && d != '"',
    ensures
        ({
            let k = w.map_values(|x: char| crate::text::ascii_upper(x));
            uppercase_keywords_spec(a + w + seq![d] + c) == uppercase_keywords_spec(a) + (if sql_keywords().contains(k) {
                k
            } else {
                w
            }) + seq![d] + uppercase_keywords_spec(c)
        }),
{
    assert forall|i: int| 0 <= i < w.len() implies is_word_char(#[trigger] w[i]) && w[i] != '\'' && w[i] != '"' by {
        assert(crate::text::is_ascii_char(w[i]));
    }
    assert(crate::text::is_ascii_text(w)) by {
        assert forall|i: int| 0 <= i < w.len() implies crate::text::is_ascii_char(#[trigger] w[i]) by {
            assert(is_ascii_lower(w[i]) || is_ascii_upper(w[i]));
        }
    }
    assert(!is_word_char(d));
    law_word_uppercased_iff_keyword(a, w, d, c);
}

proof fn lemma_trailing_word_short(s: Seq<char>)
    ensures
        trailing_word(s).len() <= s.len(),
    decreases s.len(),
{
    if s.len() > 0 {
        lemma_trailing_word_short(s.drop_last());
    }
}

proof fn lemma_char_at_least_nul(c: char)
    ensures
        '\0' <= c,
{
}

proof fn lemma_ascii_bytes(text: Seq<char>)
    requires
        crate::text::is_ascii_text(text),
    ensures
        vstd::utf8::is_ascii_chars(text),
        encode_utf8(text).len() == text.len(),
        forall|k: int| 0 <= k < text.len() ==> #[trigger] encode_utf8(text)[k] == text[k] as u8,
{
    assert forall|k: int| 0 <= k < text.len() implies '\0' <= #[trigger] text[k] <= '\u{7f}' by {
        assert(crate::text::is_ascii_char(text[k]));
        lemma_char_at_least_nul(text[k]);
    }
    vstd::utf8::is_ascii_chars_encode_utf8(text);
}

/// In ASCII text, byte positions are character positions.
proof fn lemma_ascii_byte_text(text: Seq<char>, lo: int, hi: int)
    requires
        crate::text::is_ascii_text(text),
        0 <= lo <= hi <= text.len(),
    ensures
        byte_text(text, lo, hi) == text.subrange(lo, hi),
        is_char_boundary(encode_utf8(text), lo),
{
    lemma_ascii_bytes(text);
    let sub = text.subrange(lo, hi);
    assert(crate::text::is_ascii_text(sub)) by {
        assert forall|k: int| 0 <= k < sub.len() implies crate::text::is_ascii_char(#[trigger] sub[k]) by {
            assert(sub[k] == text[lo + k]);
        }
    }
    lemma_ascii_bytes(sub);
    assert(encode_utf8(text).subrange(lo, hi) =~= encode_utf8(sub)) by {
        assert forall|k: int| 0 <= k < hi - lo implies encode_utf8(text).subrange(lo, hi)[k] == encode_utf8(sub)[k] by {
            assert(sub[k] == text[lo + k]);
        }
    }
    vstd::utf8::encode_utf8_decode_utf8(sub);
    vstd::utf8::encode_utf8_valid_utf8(text);
    if lo < text.len() {
        vstd::utf8::is_char_boundary_iff_not_is_continuation_byte(encode_utf8(text), lo);
        assert(crate::text::is_ascii_char(text[lo]));
        let cu: u32 = text[lo] as u32;
        assert(cu <= 127);
        assert((cu as u8) < 128) by (bit_vector)
            requires
                cu <= 127;
        assert(text[lo] as u8 == cu as u8);
    } else {
        vstd::utf8::is_char_boundary_start_end_of_seq(encode_utf8(text));
    }
}

/// After `from` (in any case, between spaces) in ASCII text before the
/// cursor, the tables whose names start with the word being typed are
/// offered, right after the keywords and functions; the word is compared
/// in capitals.
pub proof fn law_tables_offered_after_from(schema: SqlSchema, text: Seq<char>, offset: int, i: int)
    requires
        crate::text::is_ascii_text(text),
        0 <= offset <= text.len(),
        0 <= i,
        i + 6 <= offset,
        text.subrange(i, i + 6).map_values(|c: char| crate::text::ascii_upper(c)) == " FROM "@,
    ensures
        completion_cuts_ok(text, offset),
        current_word(text, offset) == text.subrange(word_start(text, offset), offset).map_values(
            |c: char| crate::text::ascii_upper(c),
        ),
        ({
            let w = current_word(text, offset);
            let cands = completion_candidates(schema, text, offset);
            let tables = table_candidates(schema.table_hints(), w);
            let a: int = keyword_candidates(w).len() as int + function_candidates(w).len() as int;
            cands.subrange(a, a + tables.len() as int) == tables
        }),
{
    reveal_strlit(" FROM ");
    let n = offset;
    let ws = word_start(text, offset);
    lemma_trailing_word_short(text.take(n));
    lemma_ascii_byte_text(text, ws, offset);
    lemma_ascii_byte_text(text, 0, offset);
    lemma_ascii_byte_text(text, dot_window_start(offset), offset);
    lemma_ascii_byte_text(text, offset, offset);
    lemma_ascii_bytes(text);
    let pre = text.subrange(0, offset);
    let wtext = text.subrange(ws, offset);
    assert(crate::text::is_ascii_text(pre)) by {
        assert forall|k: int| 0 <= k < pre.len() implies crate::text::is_ascii_char(#[trigger] pre[k]) by {
            assert(pre[k] == text[k]);
        }
    }
    assert(crate::text::is_ascii_text(wtext)) by {
        assert forall|k: int| 0 <= k < wtext.len() implies crate::text::is_ascii_char(#[trigger] wtext[k]) by {
            assert(wtext[k] == text[ws + k]);
        }
    }
    let before = uppercase(pre);
    assert(before.subrange(i, i + 6) =~= " FROM "@) by {
        assert forall|k: int| 0 <= k < 6 implies before.subrange(i, i + 6)[k] == " FROM "@[k] by {
            assert(text.subrange(i, i + 6).map_values(|c: char| crate::text::ascii_upper(c))[k]
                == crate::text::ascii_upper(text[i + k]));
        }
    }
    assert(crate::text::occurs_at(before, " FROM "@, i));
    assert(after_table_keyword(before));
    let w = current_word(text, offset);
    let cands = completion_candidates(schema, text, offset);
    let tables = table_candidates(schema.table_hints(), w);
    let a: int = keyword_candidates(w).len() as int + function_candidates(w).len() as int;
    assert(cands.subrange(a, a + tables.len() as int) =~= tables);
}

} // verus!
