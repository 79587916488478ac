//! The connection form: its fields for each kind of server, the values
//! typed into them, validation, and what the buttons ask for.

use vstd::prelude::*;
use crate::connection::{DatabaseType, DbConnectionConfig};
use crate::sql_editor::pairs_view;
use crate::sql_run::first_index;
use crate::text::{
    chars_eq, chars_of, decimal, digit_char, lowercase, push_str, lower_string, trim, trim_chars,
};

verus! {

/// How a field is edited.
#[derive(Debug, Clone, Copy, PartialEq, Eq, Structural)]
pub enum FormFieldType {
    Text,
    Number,
    Password,
}

/// A field of the connection form.
#[derive(Debug)]
pub struct FormField {
    pub name: String,
    pub label: String,
    pub placeholder: String,
    pub field_type: FormFieldType,
    pub required: bool,
    pub default_value: String,
}

/// A form field as values.
pub struct FormFieldView {
    pub name: Seq<char>,
    pub label: Seq<char>,
    pub placeholder: Seq<char>,
    pub field_type: FormFieldType,
    pub required: bool,
    pub default_value: Seq<char>,
}

impl View for FormField {
    type V = FormFieldView;

    open spec fn view(&self) -> FormFieldView {
        FormFieldView {
            name: self.name@,
            label: self.label@,
            placeholder: self.placeholder@,
            field_type: self.field_type,
            required: self.required,
            default_value: self.default_value@,
        }
    }
}

/// The fields as values.
pub open spec fn fields_view(v: Seq<FormField>) -> Seq<FormFieldView> {
    v.map_values(|f: FormField| f@)
}

/// A required field with an empty default and the placeholder
/// `Enter <name in lower case>`.
pub open spec fn new_field(name: Seq<char>, label: Seq<char>, t: FormFieldType) -> FormFieldView {
    FormFieldView {
        name,
        label,
        placeholder: "Enter "@ + lowercase(name),
        field_type: t,
        required: true,
        default_value: Seq::<char>::empty(),
    }
}

/// A field with its placeholder and default given.
pub open spec fn field_with(
    name: Seq<char>,
    label: Seq<char>,
    t: FormFieldType,
    required: bool,
    placeholder: Seq<char>,
    default_value: Seq<char>,
) -> FormFieldView {
    FormFieldView { name, label, placeholder, field_type: t, required, default_value }
}

impl FormField {
    /// A required field with no default, whose placeholder asks for the
    /// field by its name.
    pub fn new(name: &str, label: &str, field_type: FormFieldType) -> (r: Self)
        ensures
            r@ == new_field(name@, label@, field_type),
    {
        let lower = lower_string(name);
        let mut placeholder = String::new();
        push_str(&mut placeholder, "Enter ");
        push_str(&mut placeholder, lower.as_str());
        FormField {
            placeholder,
            name: name.to_owned(),
            label: label.to_owned(),
            field_type,
            required: true,
            default_value: String::new(),
        }
    }

    /// The field, not required.
    pub fn optional(self) -> (r: Self)
        ensures
            r@ == (FormFieldView { required: false, ..self@ }),
    {
        let mut f = self;
        f.required = false;
        f
    }

    /// The field with another placeholder.
    pub fn placeholder(self, placeholder: &str) -> (r: Self)
        ensures
            r@ == (FormFieldView { placeholder: placeholder@, ..self@ }),
    {
        let mut f = self;
        f.placeholder = placeholder.to_owned();
        f
    }

    /// The field with a default value.
    pub fn default(self, value: &str) -> (r: Self)
        ensures
            r@ == (FormFieldView { default_value: value@, ..self@ }),
    {
        let mut f = self;
        f.default_value = value.to_owned();
        f
    }
}

/// The form for one kind of server.
#[derive(Debug)]
pub struct DbFormConfig {
    pub db_type: DatabaseType,
    pub title: String,
    pub fields: Vec<FormField>,
}

/// Fields of the MySQL form.
pub open spec fn mysql_fields() -> Seq<FormFieldView> {
    seq![
        field_with("name"@, "Connection Name"@, FormFieldType::Text, true, "My MySQL Database"@, "Local MySQL"@),
        field_with("host"@, "Host"@, FormFieldType::Text, true, "localhost"@, "localhost"@),
        field_with("port"@, "Port"@, FormFieldType::Number, true, "3306"@, "3306"@),
        field_with("username"@, "Username"@, FormFieldType::Text, true, "root"@, "root"@),
        field_with("password"@, "Password"@, FormFieldType::Password, true, "Enter password"@, "hf123456"@),
        field_with("database"@, "Database"@, FormFieldType::Text, false, "database name (optional)"@, "ai_app"@),
    ]
}

/// Fields of the PostgreSQL form.
pub open spec fn postgres_fields() -> Seq<FormFieldView> {
    seq![
        field_with("name"@, "Connection Name"@, FormFieldType::Text, true, "My PostgreSQL Database"@, "Local PostgreSQL"@),
        field_with("host"@, "Host"@, FormFieldType::Text, true, "localhost"@, "localhost"@),
        field_with("port"@, "Port"@, FormFieldType::Number, true, "5432"@, "5432"@),
        field_with("username"@, "Username"@, FormFieldType::Text, true, "postgres"@, "postgres"@),
        field_with("password"@, "Password"@, FormFieldType::Password, true, "Enter password"@, Seq::<char>::empty()),
        field_with("database"@, "Database"@, FormFieldType::Text, false, "database name (optional)"@, Seq::<char>::empty()),
    ]
}

/// Fields of a form for any server.
pub open spec fn generic_fields() -> Seq<FormFieldView> {
    seq![
        new_field("name"@, "Connection Name"@, FormFieldType::Text),
        new_field("host"@, "Host"@, FormFieldType::Text),
        new_field("port"@, "Port"@, FormFieldType::Number),
        new_field("username"@, "Username"@, FormFieldType::Text),
        new_field("password"@, "Password"@, FormFieldType::Password),
        FormFieldView { required: false, ..new_field("database"@, "Database"@, FormFieldType::Text) },
    ]
}

impl DbFormConfig {
    /// The MySQL form.
    pub fn mysql() -> (r: Self)
        ensures
            r.db_type == DatabaseType::MySQL,
            r.title@ == "Connect to MySQL"@,
            fields_view(r.fields@) == mysql_fields(),
    {
        let fields = vec![
            FormField::new("name", "Connection Name", FormFieldType::Text).placeholder(
                "My MySQL Database",
            ).default("Local MySQL"),
            FormField::new("host", "Host", FormFieldType::Text).placeholder("localhost").default(
                "localhost",
            ),
            FormField::new("port", "Port", FormFieldType::Number).placeholder("3306").default(
                "3306",
            ),
            FormField::new("username", "Username", FormFieldType::Text).placeholder("root").default(
                "root",
            ),
            FormField::new("password", "Password", FormFieldType::Password).placeholder(
                "Enter password",
            ).default("hf123456"),
            FormField::new("database", "Database", FormFieldType::Text).optional().placeholder(
                "database name (optional)",
            ).default("ai_app"),
        ];
        assert(fields_view(fields@) =~= mysql_fields());
        DbFormConfig { db_type: DatabaseType::MySQL, title: "Connect to MySQL".to_owned(), fields }
    }

    /// The PostgreSQL form.
    pub fn postgres() -> (r: Self)
        ensures
            r.db_type == DatabaseType::PostgreSQL,
            r.title@ == "Connect to PostgreSQL"@,
            fields_view(r.fields@) == postgres_fields(),
    {
        let fields = vec![
            FormField::new("name", "Connection Name", FormFieldType::Text).placeholder(
                "My PostgreSQL Database",
            ).default("Local PostgreSQL"),
            FormField::new("host", "Host", FormFieldType::Text).placeholder("localhost").default(
                "localhost",
            ),
            FormField::new("port", "Port", FormFieldType::Number).placeholder("5432").default(
                "5432",
            ),
            FormField::new("username", "Username", FormFieldType::Text).placeholder(
                "postgres",
            ).default("postgres"),
            FormField::new("password", "Password", FormFieldType::Password).placeholder(
                "Enter password",
            ),
            FormField::new("database", "Database", FormFieldType::Text).optional().placeholder(
                "database name (optional)",
            ),
        ];
        assert(fields_view(fields@) =~= postgres_fields());
        DbFormConfig {
            db_type: DatabaseType::PostgreSQL,
            title: "Connect to PostgreSQL".to_owned(),
            fields,
        }
    }

    /// A form with the usual fields and no defaults.
    pub fn generic(db_type: DatabaseType, title: String) -> (r: Self)
        ensures
            r.db_type == db_type,
            r.title == title,
            fields_view(r.fields@) == generic_fields(),
    {
        let fields = vec![
            FormField::new("name", "Connection Name", FormFieldType::Text),
            FormField::new("host", "Host", FormFieldType::Text),
            FormField::new("port", "Port", FormFieldType::Number),
            FormField::new("username", "Username", FormFieldType::Text),
            FormField::new("password", "Password", FormFieldType::Password),
            FormField::new("database", "Database", FormFieldType::Text).optional(),
        ];
        assert(fields_view(fields@) =~= generic_fields());
        DbFormConfig { db_type, title, fields }
    }
}

} // verus!

verus! {

/// What the form asks the workspace to do.
#[derive(Debug)]
pub enum DbConnectionFormEvent {
    TestConnection(DatabaseType, DbConnectionConfig),
    Save(DatabaseType, DbConnectionConfig),
    Cancel,
}

/// The value typed into the field `name`: that of the first field so named,
/// or empty.
pub open spec fn field_value(values: Seq<(Seq<char>, Seq<char>)>, name: Seq<char>) -> Seq<char> {
    match first_index(values.map_values(|p: (Seq<char>, Seq<char>)| p.0), name) {
        Some(i) => values[i].1,
        None => Seq::<char>::empty(),
    }
}

/// Value of an ASCII decimal digit.
pub open spec fn digit_value(c: char) -> nat {
    ((c as u32) - ('0' as u32)) as nat
}

pub open spec fn is_ascii_digit(c: char) -> bool {
    '0' <= c && c <= '9'
}

/// The number written by a sequence of decimal digits.
pub open spec fn digits_value(d: Seq<char>) -> nat
    decreases d.len(),
{
    if d.len() == 0 {
        0
    } else {
        digits_value(d.drop_last()) * 10 + digit_value(d.last())
    }
}

/// Every character is a decimal digit.
pub open spec fn all_digits(d: Seq<char>) -> bool {
    forall|i: int| 0 <= i < d.len() ==> is_ascii_digit(#[trigger] d[i])
}

/// The text after an optional leading `+`.
pub open spec fn unsigned_digits(s: Seq<char>) -> Seq<char> {
    if s.len() > 0 && s[0] == '+' {
        s.drop_first()
    } else {
        s
    }
}

/// The port that `str::parse::<u16>` reads: an optional `+`, then one or
/// more decimal digits, for a value that fits in 16 bits.
pub open spec fn parsed_port(s: Seq<char>) -> Option<u16> {
    let d = unsigned_digits(s);
    if d.len() > 0 && all_digits(d) && digits_value(d) <= 0xffff {
        Some(digits_value(d) as u16)
    } else {
        None
    }
}

proof fn lemma_digits_value_grows(d: Seq<char>, n: int)
    requires
        0 <= n <= d.len(),
        forall|i: int| 0 <= i < d.len() ==> is_ascii_digit(#[trigger] d[i]),
    ensures
        digits_value(d.take(n)) <= digits_value(d),
    decreases d.len(),
{
    if n < d.len() {
        assert(d.drop_last().take(n) =~= d.take(n));
        lemma_digits_value_grows(d.drop_last(), n);
        assert(forall|i: int|
            0 <= i < d.drop_last().len() ==> is_ascii_digit(#[trigger] d.drop_last()[i])) by {
            assert forall|i: int| 0 <= i < d.drop_last().len() implies is_ascii_digit(
                #[trigger] d.drop_last()[i],
            ) by {
                assert(d.drop_last()[i] == d[i]);
            }
        }
    } else {
        assert(d.take(n) =~= d);
    }
}

/// Reads a port as `str::parse::<u16>` does.
pub fn parse_port(s: &str) -> (r: Option<u16>)
    ensures
        r == parsed_port(s@),
{
    let c = chars_of(s);
    let start: usize = if c.len() > 0 && c[0] == '+' {
        1
    } else {
        0
    };
    let ghost d = unsigned_digits(s@);
    assert(d =~= c@.skip(start as int));
    if start >= c.len() {
        return None;
    }
    let mut v: u32 = 0;
    let mut i: usize = start;
    while i < c.len()
        invariant
            start <= i <= c@.len(),
            d == c@.skip(start as int),
            d == unsigned_digits(s@),
            d.len() > 0,
            forall|k: int| 0 <= k < i - start ==> is_ascii_digit(#[trigger] d[k]),
            v as nat == digits_value(d.take(i - start)),
            v <= 0xffff,
        decreases c@.len() - i,
    {
        let ch = c[i];
        assert(d[i - start] == ch);
        if !('0' <= ch && ch <= '9') {
            assert(!is_ascii_digit(d[i - start]));
            assert(!all_digits(d));
            return None;
        }
        proof {
            assert(d.take(i - start + 1).drop_last() =~= d.take(i - start));
            assert(d.take(i - start + 1).last() == ch);
        }
        let nv: u32 = v * 10 + ((ch as u32) - ('0' as u32));
        if nv > 0xffff {
            proof {
                let j = i - start + 1;
                assert(digits_value(d.take(j)) == nv);
                if all_digits(d) {
                    lemma_digits_value_grows(d, j);
                    assert(digits_value(d) > 0xffff);
                }
            }
            return None;
        }
        v = nv;
        i += 1;
    }
    assert(d.take(d.len() as int) =~= d);
    Some(v as u16)
}

/// Port used when the field does not hold one.
pub const DEFAULT_PORT: u16 = 3306;

/// The first required field left blank, as the error shown for it.
pub open spec fn validation_error(fields: Seq<FormFieldView>, values: Seq<(Seq<char>, Seq<char>)>) -> Option<
    Seq<char>,
>
    decreases fields.len(),
{
    if fields.len() == 0 {
        None
    } else if fields[0].required && trim(field_value(values, fields[0].name)).len() == 0 {
        Some(fields[0].label + " is required"@)
    } else {
        validation_error(fields.drop_first(), values)
    }
}

} // verus!

verus! {

/// The connection form's state: its configuration, the chosen server kind,
/// the value of each field, whether a test is running and the outcome of
/// the last test or check.
#[derive(Debug)]
pub struct DbConnectionForm {
    pub config: DbFormConfig,
    pub current_db_type: DatabaseType,
    pub field_values: Vec<(String, String)>,
    pub is_testing: bool,
    pub test_result: Option<Result<bool, String>>,
}

/// Each field starts with its default value.
pub open spec fn default_values(fields: Seq<FormFieldView>) -> Seq<(Seq<char>, Seq<char>)> {
    fields.map_values(|f: FormFieldView| (f.name, f.default_value))
}

fn initial_values(fields: &Vec<FormField>) -> (r: Vec<(String, String)>)
    ensures
        pairs_view(r@) == default_values(fields_view(fields@)),
{
    let mut out: Vec<(String, String)> = Vec::new();
    let mut i: usize = 0;
    while i < fields.len()
        invariant
            i <= fields@.len(),
            out@.len() == i,
            forall|k: int|
                0 <= k < i ==> (#[trigger] out@[k]).0@ == fields@[k].name@ && out@[k].1@
                    == fields@[k].default_value@,
        decreases fields@.len() - i,
    {
        out.push((fields[i].name.clone(), fields[i].default_value.clone()));
        i += 1;
    }
    assert(pairs_view(out@) =~= default_values(fields_view(fields@)));
    out
}

/// The connection the form describes.
pub open spec fn built_connection(t: DatabaseType, values: Seq<(Seq<char>, Seq<char>)>, c: DbConnectionConfig) -> bool {
    &&& c.id@ == Seq::<char>::empty()
    &&& c.database_type == t
    &&& c.name@ == field_value(values, "name"@)
    &&& c.host@ == field_value(values, "host"@)
    &&& c.port == match parsed_port(field_value(values, "port"@)) {
        Some(p) => p,
        None => 3306u16,
    }
    &&& c.username@ == field_value(values, "username"@)
    &&& c.password@ == field_value(values, "password"@)
    &&& c.database.deep_view() == if field_value(values, "database"@).len() == 0 {
        None
    } else {
        Some(field_value(values, "database"@))
    }
}

/// The line shown for a test outcome.
pub open spec fn test_message(r: Result<bool, String>) -> Seq<char> {
    match r {
        Ok(true) => "✓ Connection successful!"@,
        Ok(false) => "✗ Connection failed"@,
        Err(e) => "✗ "@ + e@,
    }
}

impl DbConnectionForm {
    /// The form for a configuration, with its fields at their defaults.
    pub fn new(config: DbFormConfig) -> (r: Self)
        ensures
            r.config == config,
            r.current_db_type == config.db_type,
            pairs_view(r.field_values@) == default_values(fields_view(config.fields@)),
            !r.is_testing,
            r.test_result is None,
    {
        let field_values = initial_values(&config.fields);
        let current_db_type = config.db_type;
        DbConnectionForm {
            config,
            current_db_type,
            field_values,
            is_testing: false,
            test_result: None,
        }
    }

    /// The value typed into a field.
    pub fn get_field_value(&self, field_name: &str) -> (r: String)
        ensures
            r@ == field_value(pairs_view(self.field_values@), field_name@),
    {
        let ghost vs = pairs_view(self.field_values@);
        let ghost keys = vs.map_values(|p: (Seq<char>, Seq<char>)| p.0);
        let wanted = chars_of(field_name);
        let mut i: usize = 0;
        while i < self.field_values.len()
            invariant
                i <= self.field_values@.len(),
                vs == pairs_view(self.field_values@),
                keys == vs.map_values(|p: (Seq<char>, Seq<char>)| p.0),
                first_index(keys.take(i as int), field_name@) is None,
                wanted@ == field_name@,
            decreases self.field_values@.len() - i,
        {
            assert(keys.take(i + 1).drop_last() =~= keys.take(i as int));
            let key = chars_of(self.field_values[i].0.as_str());
            if chars_eq(key.as_slice(), wanted.as_slice()) {
                proof {
                    assert(keys.take(i + 1).last() == field_name@);
                    crate::sql_run::lemma_first_index_prefix(keys, field_name@, i + 1);
                }
                return self.field_values[i].1.clone();
            }
            i += 1;
        }
        assert(keys.take(self.field_values@.len() as int) =~= keys);
        String::new()
    }

    /// Records what was typed into the field at `index`.
    pub fn set_field_value(&mut self, index: usize, value: String)
        requires
            index < old(self).field_values@.len(),
        ensures
            final(self).field_values@ == old(self).field_values@.update(
                index as int,
                (old(self).field_values@[index as int].0, value),
            ),
            final(self).config == old(self).config,
            final(self).current_db_type == old(self).current_db_type,
            final(self).is_testing == old(self).is_testing,
            final(self).test_result == old(self).test_result,
    {
        let name = self.field_values[index].0.clone();
        self.field_values.set(index, (name, value));
    }

    /// Switches to the form of another server kind: its fields at their
    /// defaults and no test outcome.
    pub fn switch_db_type(&mut self, db_type: DatabaseType)
        ensures
            final(self).current_db_type == db_type,
            fields_view(final(self).config.fields@) == match db_type {
                DatabaseType::MySQL => mysql_fields(),
                DatabaseType::PostgreSQL => postgres_fields(),
            },
            final(self).config.db_type == db_type,
            pairs_view(final(self).field_values@) == default_values(
                fields_view(final(self).config.fields@),
            ),
            final(self).test_result is None,
            final(self).is_testing == old(self).is_testing,
    {
        self.current_db_type = db_type;
        self.config = match db_type {
            DatabaseType::MySQL => DbFormConfig::mysql(),
            DatabaseType::PostgreSQL => DbFormConfig::postgres(),
        };
        self.field_values = initial_values(&self.config.fields);
        self.test_result = None;
    }

    /// The connection described by the fields; the port is 3306 when its
    /// field does not hold one.
    pub fn build_connection(&self) -> (r: DbConnectionConfig)
        ensures
            built_connection(self.current_db_type, pairs_view(self.field_values@), r),
    {
        let port_text = self.get_field_value("port");
        let port = match parse_port(port_text.as_str()) {
            Some(p) => p,
            None => DEFAULT_PORT,
        };
        let db = self.get_field_value("database");
        let database = if db.as_str().is_empty() {
            None
        } else {
            Some(db)
        };
        DbConnectionConfig {
            id: String::new(),
            database_type: self.current_db_type,
            name: self.get_field_value("name"),
            host: self.get_field_value("host"),
            port,
            username: self.get_field_value("username"),
            password: self.get_field_value("password"),
            database,
        }
    }

    /// Checks that every required field holds more than whitespace; the
    /// error names the first that does not.
    pub fn validate(&self) -> (r: Result<(), String>)
        ensures
            r is Ok <==> validation_error(
                fields_view(self.config.fields@),
                pairs_view(self.field_values@),
            ) is None,
            r matches Err(e) ==> Some(e@) == validation_error(
                fields_view(self.config.fields@),
                pairs_view(self.field_values@),
            ),
    {
        let ghost fs = fields_view(self.config.fields@);
        let ghost vs = pairs_view(self.field_values@);
        let mut i: usize = 0;
        assert(fs.skip(0) =~= fs);
        while i < self.config.fields.len()
            invariant
                i <= self.config.fields@.len(),
                fs == fields_view(self.config.fields@),
                vs == pairs_view(self.field_values@),
                validation_error(fs, vs) == validation_error(fs.skip(i as int), vs),
            decreases self.config.fields@.len() - i,
        {
            assert(fs.skip(i as int).drop_first() =~= fs.skip(i + 1));
            assert(fs.skip(i as int)[0] == fs[i as int]);
            let field = &self.config.fields[i];
            if field.required {
                let value = self.get_field_value(field.name.as_str());
                let c = chars_of(value.as_str());
                let t = trim_chars(c.as_slice());
                if t.len() == 0 {
                    let mut e = field.label.clone();
                    push_str(&mut e, " is required");
                    return Err(e);
                }
            }
            i += 1;
        }
        assert(fs.skip(i as int).len() == 0);
        Ok(())
    }

    /// The Test Connection button: shows the validation error, or marks a
    /// test as running and asks for it.
    pub fn handle_test_connection(&mut self) -> (r: Option<DbConnectionFormEvent>)
        ensures
            final(self).config == old(self).config,
            final(self).current_db_type == old(self).current_db_type,
            final(self).field_values == old(self).field_values,
            match validation_error(
                fields_view(old(self).config.fields@),
                pairs_view(old(self).field_values@),
            ) {
                Some(e) => {
                    &&& r is None
                    &&& (final(self).test_result matches Some(Err(m)) && m@ == e)
                    &&& final(self).is_testing == old(self).is_testing
                },
                None => {
                    &&& (r matches Some(DbConnectionFormEvent::TestConnection(t, c)) && t
                        == old(self).current_db_type && built_connection(
                        t,
                        pairs_view(old(self).field_values@),
                        c,
                    ))
                    &&& final(self).is_testing
                    &&& final(self).test_result == old(self).test_result
                },
            },
    {
        match self.validate() {
            Err(e) => {
                self.test_result = Some(Err(e));
                None
            },
            Ok(()) => {
                let connection = self.build_connection();
                self.is_testing = true;
                Some(DbConnectionFormEvent::TestConnection(self.current_db_type, connection))
            },
        }
    }

    /// The Save & Connect button: shows the validation error, or asks for
    /// the connection to be saved.
    pub fn handle_save(&mut self) -> (r: Option<DbConnectionFormEvent>)
        ensures
            final(self).config == old(self).config,
            final(self).current_db_type == old(self).current_db_type,
            final(self).field_values == old(self).field_values,
            final(self).is_testing == old(self).is_testing,
            match validation_error(
                fields_view(old(self).config.fields@),
                pairs_view(old(self).field_values@),
            ) {
                Some(e) => {
                    &&& r is None
                    &&& (final(self).test_result matches Some(Err(m)) && m@ == e)
                },
                None => {
                    &&& (r matches Some(DbConnectionFormEvent::Save(t, c)) && t
                        == old(self).current_db_type && built_connection(
                        t,
                        pairs_view(old(self).field_values@),
                        c,
                    ))
                    &&& final(self).test_result == old(self).test_result
                },
            },
    {
        match self.validate() {
            Err(e) => {
                self.test_result = Some(Err(e));
                None
            },
            Ok(()) => {
                let connection = self.build_connection();
                Some(DbConnectionFormEvent::Save(self.current_db_type, connection))
            },
        }
    }

    /// The Cancel button.
    pub fn handle_cancel(&self) -> (r: DbConnectionFormEvent)
        ensures
            r is Cancel,
    {
        DbConnectionFormEvent::Cancel
    }

    /// Records the outcome of a connection test.
    pub fn set_test_result(&mut self, result: Result<bool, String>)
        ensures
            !final(self).is_testing,
            final(self).test_result == Some(result),
            final(self).config == old(self).config,
            final(self).current_db_type == old(self).current_db_type,
            final(self).field_values == old(self).field_values,
    {
        self.is_testing = false;
        self.test_result = Some(result);
    }

    /// The line shown for the last test or check, if any.
    pub fn test_result_message(&self) -> (r: Option<String>)
        ensures
            match self.test_result {
                Some(t) => (r matches Some(m) && m@ == test_message(t)),
                None => r is None,
            },
    {
        match &self.test_result {
            Some(Ok(true)) => Some("✓ Connection successful!".to_owned()),
            Some(Ok(false)) => Some("✗ Connection failed".to_owned()),
            Some(Err(e)) => {
                let mut m = "✗ ".to_owned();
                push_str(&mut m, e.as_str());
                Some(m)
            },
            None => None,
        }
    }
}

impl DbConnectionForm {
    /// The Test button's text: `Testing...` while a test runs.
    pub fn test_button_label(&self) -> (r: String)
        ensures
            r@ == if self.is_testing {
                "Testing..."@
            } else {
                "Test Connection"@
            },
    {
        if self.is_testing {
            "Testing...".to_owned()
        } else {
            "Test Connection".to_owned()
        }
    }

    /// The Save button's text.
    pub fn save_button_label(&self) -> (r: String)
        ensures
            r@ == "Save & Connect"@,
    {
        "Save & Connect".to_owned()
    }

    /// The Test and Save buttons can be clicked unless a test runs.
    pub fn buttons_enabled(&self) -> (r: bool)
        ensures
            r == !self.is_testing,
    {
        !self.is_testing
    }
}

/// A field's caption: its label, with ` *` when it is required.
pub fn field_caption(field: &FormField) -> (r: String)
    ensures
        r@ == field.label@ + if field.required {
            " *"@
        } else {
            Seq::<char>::empty()
        },
{
    let mut s = field.label.clone();
    if field.required {
        push_str(&mut s, " *");
    }
    s
}

} // verus!

verus! {

proof fn lemma_decimal_digits(n: nat)
    ensures
        all_digits(decimal(n)),
        digits_value(decimal(n)) == n,
        decimal(n).len() > 0,
        decimal(n)[0] != '+',
    decreases n,
{
    if n < 10 {
        assert(digit_value(digit_char(n)) == n);
        assert(decimal(n).drop_last() =~= Seq::<char>::empty());
        assert(digits_value(decimal(n)) == digits_value(decimal(n).drop_last()) * 10
            + digit_value(decimal(n).last()));
    } else {
        lemma_decimal_digits(n / 10);
        let d = decimal(n);
        assert(d.drop_last() == decimal(n / 10));
        assert(digit_value(digit_char(n % 10)) == n % 10);
        assert(n == (n / 10) * 10 + n % 10) by (nonlinear_arith);
        assert(d.last() == digit_char(n % 10));
        assert(digits_value(d) == digits_value(d.drop_last()) * 10 + digit_value(d.last()));
        assert forall|i: int| 0 <= i < d.len() implies is_ascii_digit(#[trigger] d[i]) by {
            if i < d.len() - 1 {
                assert(d[i] == decimal(n / 10)[i]);
            }
        }
        assert(d[0] == decimal(n / 10)[0]);
    }
}

/// A port written in decimal reads back as the same port.
pub proof fn law_port_decimal_round_trip(p: u16)
    ensures
        parsed_port(decimal(p as nat)) == Some(p),
{
    lemma_decimal_digits(p as nat);
    assert(unsigned_digits(decimal(p as nat)) == decimal(p as nat));
}

} // verus!
