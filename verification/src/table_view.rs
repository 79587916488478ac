//! Tabs about one table: its data, loaded with a bounded query, and its
//! structure, edited as a list of fields.

use vstd::prelude::*;
use crate::connection::ColumnInfo;
use crate::sql_run::{shown_rows, ResultTable, SqlResult};
use crate::tabs::{ContentTypeView, TabContentType, TabIcon};
use crate::text::{chars_of, decimal, push_decimal, push_str, trim, trim_chars};

verus! {

fn joined2(a: &str, b: &str) -> (r: String)
    ensures
        r@ == a@ + b@,
{
    let mut s = a.to_owned();
    push_str(&mut s, b);
    s
}

/// The query that loads a table's data: at most 1000 rows.
pub fn table_data_query(database: &str, table: &str) -> (r: String)
    ensures
        r@ == "SELECT * FROM `"@ + database@ + "`.`"@ + table@ + "` LIMIT 1000"@,
{
    let mut s = "SELECT * FROM `".to_owned();
    push_str(&mut s, database);
    push_str(&mut s, "`.`");
    push_str(&mut s, table);
    push_str(&mut s, "` LIMIT 1000");
    s
}

/// The title of a table's data tab.
pub fn table_data_title(database: &str, table: &str) -> (r: String)
    ensures
        r@ == database@ + "."@ + table@ + " - Data"@,
{
    let mut s = database.to_owned();
    push_str(&mut s, ".");
    push_str(&mut s, table);
    push_str(&mut s, " - Data");
    s
}

/// The content type of a table's data tab.
pub fn table_data_content_type(database: &str, table: &str) -> (r: TabContentType)
    ensures
        r@ == ContentTypeView::TableData(database@ + "."@ + table@),
{
    let mut s = database.to_owned();
    push_str(&mut s, ".");
    push_str(&mut s, table);
    TabContentType::TableData(s)
}

/// The icon of a table's data tab.
pub fn table_data_icon() -> (r: Option<TabIcon>)
    ensures
        r == Some(TabIcon::Folder),
{
    Some(TabIcon::Folder)
}

/// Why loading a table's data failed before the query ran.
#[derive(Debug)]
pub enum DataLoadFailure {
    Plugin(String),
    Connection(String),
    Query(String),
}

/// What a table's data tab shows after loading.
#[derive(Debug)]
pub struct DataTabState {
    pub table: ResultTable,
    pub status_msg: String,
}

/// The status line after a load.
pub open spec fn data_status(outcome: Result<SqlResult, DataLoadFailure>) -> Seq<char> {
    match outcome {
        Ok(SqlResult::Query(q)) => "Loaded "@ + decimal(q.rows@.len()) + " rows"@,
        Ok(SqlResult::Error(e)) => "Query error: "@ + e.message@,
        Ok(SqlResult::Exec(_)) => "Unexpected result type"@,
        Err(DataLoadFailure::Plugin(e)) => "Failed to get plugin: "@ + e@,
        Err(DataLoadFailure::Connection(e)) => "Connection failed: "@ + e@,
        Err(DataLoadFailure::Query(e)) => "Query failed: "@ + e@,
    }
}

impl DataTabState {
    /// A tab that has loaded nothing yet.
    pub fn new() -> (r: Self)
        ensures
            r.table.columns@.len() == 0,
            r.table.rows@.len() == 0,
            r.status_msg@ == "Loading..."@,
    {
        DataTabState {
            table: ResultTable { columns: Vec::new(), rows: Vec::new() },
            status_msg: "Loading...".to_owned(),
        }
    }

    /// Applies the outcome of a load: rows replace the table; anything else
    /// only sets the status line.
    pub fn apply_load(&mut self, outcome: Result<SqlResult, DataLoadFailure>)
        ensures
            final(self).status_msg@ == data_status(outcome),
            match outcome {
                Ok(SqlResult::Query(q)) => {
                    &&& final(self).table.columns.deep_view() == q.columns.deep_view()
                    &&& final(self).table.rows.deep_view() == shown_rows(q.rows.deep_view())
                },
                _ => final(self).table == old(self).table,
            },
    {
        match outcome {
            Ok(SqlResult::Query(q)) => {
                let n = q.rows.len();
                let tab = crate::sql_run::make_result_tab(String::new(), SqlResult::Query(q));
                let mut m = "Loaded ".to_owned();
                push_decimal(&mut m, n as u64);
                push_str(&mut m, " rows");
                self.table = tab.table;
                self.status_msg = m;
            },
            Ok(SqlResult::Error(e)) => {
                self.status_msg = joined2("Query error: ", e.message.as_str());
            },
            Ok(SqlResult::Exec(_)) => {
                self.status_msg = "Unexpected result type".to_owned();
            },
            Err(DataLoadFailure::Plugin(e)) => {
                self.status_msg = joined2("Failed to get plugin: ", e.as_str());
            },
            Err(DataLoadFailure::Connection(e)) => {
                self.status_msg = joined2("Connection failed: ", e.as_str());
            },
            Err(DataLoadFailure::Query(e)) => {
                self.status_msg = joined2("Query failed: ", e.as_str());
            },
        }
    }
}

} // verus!

verus! {

/// A field of the structure editor.
#[derive(Debug)]
pub struct FieldRow {
    pub id: usize,
    pub name: String,
    pub data_type: String,
    pub nullable: bool,
}

/// The table structure editor: its fields, the next field id, the status
/// line, and the columns read from the server.
#[derive(Debug)]
pub struct TableStructureEditor {
    pub database_name: String,
    pub table_name: String,
    pub fields: Vec<FieldRow>,
    pub next_id: usize,
    pub status_msg: String,
    pub columns_loaded: bool,
    pub loaded_columns: Vec<ColumnInfo>,
}

/// Field ids are distinct and below the next id.
pub open spec fn ids_fresh(fields: Seq<FieldRow>, next_id: nat) -> bool {
    &&& forall|i: int| 0 <= i < fields.len() ==> (#[trigger] fields[i]).id < next_id
    &&& forall|i: int, j: int|
        0 <= i < fields.len() && 0 <= j < fields.len() && i != j ==> (#[trigger] fields[i]).id
            != (#[trigger] fields[j]).id
}

/// Position of the first field with this id.
pub open spec fn field_position(fields: Seq<FieldRow>, id: usize) -> Option<int>
    decreases fields.len(),
{
    if fields.len() == 0 {
        None
    } else {
        match field_position(fields.drop_last(), id) {
            Some(i) => Some(i),
            None => if fields.last().id == id {
                Some(fields.len() - 1)
            } else {
                None
            },
        }
    }
}

/// The fields without the first one with this id.
pub open spec fn without_field(fields: Seq<FieldRow>, id: usize) -> Seq<FieldRow> {
    match field_position(fields, id) {
        Some(p) => fields.remove(p),
        None => fields,
    }
}

/// The first field whose name, or else whose type, is blank, as the error
/// shown for it.
pub open spec fn structure_error(fields: Seq<FieldRow>, from: nat) -> Option<Seq<char>>
    decreases fields.len(),
{
    if fields.len() == 0 {
        None
    } else if trim(fields[0].name@).len() == 0 {
        Some("Error: Field "@ + decimal(from + 1) + " has empty name"@)
    } else if trim(fields[0].data_type@).len() == 0 {
        Some("Error: Field '"@ + fields[0].name@ + "' has empty data type"@)
    } else {
        structure_error(fields.drop_first(), from + 1)
    }
}

proof fn lemma_field_position_prefix(fields: Seq<FieldRow>, id: usize, n: int)
    requires
        0 <= n <= fields.len(),
        field_position(fields.take(n), id) is Some,
    ensures
        field_position(fields, id) == field_position(fields.take(n), id),
    decreases fields.len(),
{
    if n < fields.len() {
        assert(fields.drop_last().take(n) =~= fields.take(n));
        lemma_field_position_prefix(fields.drop_last(), id, n);
    } else {
        assert(fields.take(n) =~= fields);
    }
}

proof fn lemma_field_position_none(fields: Seq<FieldRow>, id: usize)
    requires
        forall|i: int| 0 <= i < fields.len() ==> (#[trigger] fields[i]).id != id,
    ensures
        field_position(fields, id) is None,
    decreases fields.len(),
{
    if fields.len() > 0 {
        lemma_field_position_none(fields.drop_last(), id);
    }
}

impl TableStructureEditor {
    /// The ids are fresh.
    pub open spec fn wf(&self) -> bool {
        ids_fresh(self.fields@, self.next_id as nat)
    }

    /// An editor for a table, with no fields yet.
    pub fn new(database_name: String, table_name: String) -> (r: Self)
        ensures
            r.wf(),
            r.database_name == database_name,
            r.table_name == table_name,
            r.fields@.len() == 0,
            r.next_id == 0,
            !r.columns_loaded,
            r.loaded_columns@.len() == 0,
            r.status_msg@ == "Table structure loading not yet implemented with new connection pool"@,
    {
        TableStructureEditor {
            database_name,
            table_name,
            fields: Vec::new(),
            next_id: 0,
            status_msg: "Table structure loading not yet implemented with new connection pool".to_owned(),
            columns_loaded: false,
            loaded_columns: Vec::new(),
        }
    }

    /// The tab's title.
    pub fn title(&self) -> (r: String)
        ensures
            r@ == self.table_name@ + " - Structure"@,
    {
        joined2(self.table_name.as_str(), " - Structure")
    }

    /// The toolbar heading.
    pub fn heading(&self) -> (r: String)
        ensures
            r@ == "Table Structure: "@ + self.table_name@,
    {
        joined2("Table Structure: ", self.table_name.as_str())
    }

    /// The tab's icon: the settings icon.
    pub fn icon(&self) -> (r: Option<TabIcon>)
        ensures
            r == Some(TabIcon::Settings),
    {
        Some(TabIcon::Settings)
    }

    /// The tab's content type.
    pub fn content_type(&self) -> (r: TabContentType)
        ensures
            r@ == ContentTypeView::TableForm(self.table_name@),
    {
        TabContentType::TableForm(self.table_name.clone())
    }

    /// The Load Columns button shows when columns were read and no field is
    /// being edited.
    pub fn should_show_load_button(&self) -> (r: bool)
        ensures
            r == (self.columns_loaded && self.loaded_columns@.len() > 0 && self.fields@.len() == 0),
    {
        self.columns_loaded && self.loaded_columns.len() > 0 && self.fields.len() == 0
    }

    /// Adds an empty field of type `VARCHAR(255)`, nullable.
    pub fn add_field(&mut self)
        requires
            old(self).wf(),
            old(self).next_id < usize::MAX,
        ensures
            final(self).wf(),
            final(self).next_id == old(self).next_id + 1,
            final(self).fields@.len() == old(self).fields@.len() + 1,
            final(self).fields@.drop_last() == old(self).fields@,
            ({
                let f = final(self).fields@.last();
                &&& f.id == old(self).next_id
                &&& f.name@.len() == 0
                &&& f.data_type@ == "VARCHAR(255)"@
                &&& f.nullable
            }),
            final(self).status_msg@ == "Added new field (unsaved)"@,
    {
        let id = self.next_id;
        self.next_id = self.next_id + 1;
        let ghost before = self.fields@;
        self.fields.push(
            FieldRow { id, name: String::new(), data_type: "VARCHAR(255)".to_owned(), nullable: true },
        );
        assert(self.fields@.drop_last() =~= before);
        self.status_msg = "Added new field (unsaved)".to_owned();
    }

    /// Deletes the field with this id, if there is one.
    pub fn delete_field(&mut self, field_id: usize)
        requires
            old(self).wf(),
        ensures
            final(self).wf(),
            final(self).fields@ == without_field(old(self).fields@, field_id),
            final(self).next_id == old(self).next_id,
            field_position(old(self).fields@, field_id) is Some ==> final(self).status_msg@
                == "Deleted field (unsaved)"@,
            field_position(old(self).fields@, field_id) is None ==> final(self).status_msg
                == old(self).status_msg,
    {
        let ghost fs = self.fields@;
        let mut i: usize = 0;
        while i < self.fields.len()
            invariant
                i <= fs.len(),
                self.fields@ == fs,
                fs == old(self).fields@,
                ids_fresh(fs, self.next_id as nat),
                self.next_id == old(self).next_id,
                self.status_msg == old(self).status_msg,
                field_position(fs.take(i as int), field_id) is None,
            decreases fs.len() - i,
        {
            assert(fs.take(i + 1).drop_last() =~= fs.take(i as int));
            if self.fields[i].id == field_id {
                proof {
                    assert(fs.take(i + 1).last() == fs[i as int]);
                    lemma_field_position_prefix(fs, field_id, i + 1);
                }
                self.fields.remove(i);
                self.status_msg = "Deleted field (unsaved)".to_owned();
                proof {
                    let after = self.fields@;
                    assert forall|a: int, b: int|
                        0 <= a < after.len() && 0 <= b < after.len() && a != b implies (
                        #[trigger] after[a]).id != (#[trigger] after[b]).id by {
                        let a2 = if a < i { a } else { a + 1 };
                        let b2 = if b < i { b } else { b + 1 };
                        assert(after[a] == fs[a2]);
                        assert(after[b] == fs[b2]);
                    }
                    assert forall|a: int| 0 <= a < after.len() implies (#[trigger] after[a]).id
                        < self.next_id by {
                        let a2 = if a < i { a } else { a + 1 };
                        assert(after[a] == fs[a2]);
                    }
                }
                return;
            }
            i += 1;
        }
        assert(fs.take(fs.len() as int) =~= fs);
    }

    /// Replaces the fields with the columns read from the server, each with
    /// a new id; with no columns read, only says so.
    pub fn populate_from_loaded_columns(&mut self)
        requires
            old(self).wf(),
            old(self).next_id + old(self).loaded_columns@.len() <= usize::MAX,
        ensures
            final(self).wf(),
            old(self).loaded_columns@.len() == 0 ==> {
                &&& final(self).status_msg@ == "No columns to load"@
                &&& final(self).fields == old(self).fields
                &&& final(self).next_id == old(self).next_id
            },
            old(self).loaded_columns@.len() > 0 ==> {
                let cs = old(self).loaded_columns@;
                &&& final(self).fields@.len() == cs.len()
                &&& forall|i: int|
                    0 <= i < cs.len() ==> {
                        &&& (#[trigger] final(self).fields@[i]).id == old(self).next_id + i
                        &&& final(self).fields@[i].name@ == cs[i].name@
                        &&& final(self).fields@[i].data_type@ == cs[i].data_type@
                        &&& final(self).fields@[i].nullable == cs[i].is_nullable
                    }
                &&& final(self).next_id == old(self).next_id + cs.len()
                &&& final(self).status_msg@ == "Loaded "@ + decimal(cs.len()) + " existing columns"@
            },
            final(self).loaded_columns == old(self).loaded_columns,
    {
        if self.loaded_columns.len() == 0 {
            self.status_msg = "No columns to load".to_owned();
            return;
        }
        let start = self.next_id;
        let mut fields: Vec<FieldRow> = Vec::new();
        let mut i: usize = 0;
        while i < self.loaded_columns.len()
            invariant
                i <= self.loaded_columns@.len(),
                start + self.loaded_columns@.len() <= usize::MAX,
                self.loaded_columns == old(self).loaded_columns,
                start == old(self).next_id,
                fields@.len() == i,
                forall|k: int|
                    0 <= k < i ==> {
                        &&& (#[trigger] fields@[k]).id == start + k
                        &&& fields@[k].name@ == self.loaded_columns@[k].name@
                        &&& fields@[k].data_type@ == self.loaded_columns@[k].data_type@
                        &&& fields@[k].nullable == self.loaded_columns@[k].is_nullable
                    },
            decreases self.loaded_columns@.len() - i,
        {
            let c = &self.loaded_columns[i];
            fields.push(
                FieldRow {
                    id: start + i,
                    name: c.name.clone(),
                    data_type: c.data_type.clone(),
                    nullable: c.is_nullable,
                },
            );
            i += 1;
        }
        let n = fields.len();
        self.fields = fields;
        self.next_id = start + n;
        let mut m = "Loaded ".to_owned();
        push_decimal(&mut m, n as u64);
        push_str(&mut m, " existing columns");
        self.status_msg = m;
    }

    /// The Save button: reports the first blank field, or that saving is
    /// not available.
    pub fn handle_save(&mut self)
        requires
            old(self).fields@.len() < u64::MAX,
        ensures
            final(self).status_msg@ == match structure_error(old(self).fields@, 0) {
                Some(e) => e,
                None => "Save not yet implemented with new connection pool"@,
            },
            final(self).fields == old(self).fields,
            final(self).next_id == old(self).next_id,
    {
        let ghost fs = self.fields@;
        let mut i: usize = 0;
        assert(fs.skip(0) =~= fs);
        while i < self.fields.len()
            invariant
                i <= fs.len(),
                fs.len() < u64::MAX,
                self.fields@ == fs,
                self.fields == old(self).fields,
                self.next_id == old(self).next_id,
                structure_error(fs, 0) == structure_error(fs.skip(i as int), i as nat),
            decreases fs.len() - i,
        {
            assert(fs.skip(i as int).drop_first() =~= fs.skip(i + 1));
            assert(fs.skip(i as int)[0] == fs[i as int]);
            let name = chars_of(self.fields[i].name.as_str());
            let tn = trim_chars(name.as_slice());
            if tn.len() == 0 {
                let mut m = "Error: Field ".to_owned();
                push_decimal(&mut m, i as u64 + 1);
                push_str(&mut m, " has empty name");
                self.status_msg = m;
                return;
            }
            let dt = chars_of(self.fields[i].data_type.as_str());
            let td = trim_chars(dt.as_slice());
            if td.len() == 0 {
                let mut m = "Error: Field '".to_owned();
                push_str(&mut m, self.fields[i].name.as_str());
                push_str(&mut m, "' has empty data type");
                self.status_msg = m;
                return;
            }
            i += 1;
        }
        assert(fs.skip(i as int).len() == 0);
        self.status_msg = "Save not yet implemented with new connection pool".to_owned();
    }
}

/// Deleting the field just added gives back the fields as they were.
pub proof fn law_add_then_delete_restores(fields: Seq<FieldRow>, next_id: usize, added: FieldRow)
    requires
        ids_fresh(fields, next_id as nat),
        added.id == next_id,
    ensures
        without_field(fields.push(added), next_id) == fields,
{
    let s = fields.push(added);
    lemma_field_position_none(fields, next_id);
    assert(s.drop_last() =~= fields);
    assert(field_position(s, next_id) == Some(fields.len() as int));
    assert(s.remove(fields.len() as int) =~= fields);
}

} // verus!
