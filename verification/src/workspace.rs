//! The main window's decisions: which tab an explorer event opens, the new
//! query tab, the connections being opened, the connection status shown
//! while a database workspace connects, and which panels are hidden.

use vstd::prelude::*;
use crate::connection::{DatabaseType, DbConnectionConfig};
use crate::storage::{i64_to_string, signed_decimal, StoredConnection};
use crate::tabs::{ContentTypeView, TabContainer, TabContentType, TabIcon, TabItem, TabItemView};
use crate::text::{chars_of, contains_chars, contains_seq, decimal, push_decimal, push_str};
use crate::tree::DbTreeViewEvent;

verus! {

/// The tab an event asks for: its id, title and content type.
pub open spec fn tab_for(id: Seq<char>, title: Seq<char>, kind: ContentTypeView) -> TabItemView {
    TabItemView { id, title, closeable: true, content_type: kind }
}

/// The container after asking for a tab: the first tab with its id becomes
/// active, or the tab is added at the end and made active.
pub open spec fn opened(before: TabContainer, after: TabContainer, tab: TabItemView) -> bool {
    let s = before.tab_seq();
    if exists|i: int| 0 <= i < s.len() && s[i].id == tab.id {
        let i = choose|i: int|
            0 <= i < s.len() && s[i].id == tab.id && forall|k: int| 0 <= k < i ==> s[k].id != tab.id;
        after.tab_seq() == s && after.active() == i
    } else {
        after.tab_seq() == s.push(tab) && after.active() == s.len()
    }
}

/// Shows the tab with this id, adding it when it is not open.
pub fn open_or_activate(tc: &mut TabContainer, id: String, title: String, kind: TabContentType)
    requires
        old(tc).active_ok(),
    ensures
        final(tc).active_ok(),
        opened(*old(tc), *final(tc), tab_for(id@, title@, kind@)),
        final(tc).menu_shown() == old(tc).menu_shown(),
        final(tc).max_visible() == old(tc).max_visible(),
{
    let ghost tab = tab_for(id@, title@, kind@);
    match tc.set_active_by_id(id.as_str()) {
        Some(_) => {},
        None => {
            tc.add_and_activate_tab(TabItem::new(id, title, true, kind));
        },
    }
}

fn joined2(a: &str, b: &str) -> (r: String)
    ensures
        r@ == a@ + b@,
{
    let mut s = a.to_owned();
    push_str(&mut s, b);
    s
}

fn joined3(a: &str, b: &str, c: &str) -> (r: String)
    ensures
        r@ == a@ + b@ + c@,
{
    let mut s = a.to_owned();
    push_str(&mut s, b);
    push_str(&mut s, c);
    s
}

/// What the workspace does after an explorer event.
#[derive(Debug)]
pub enum TreeEventOutcome {
    /// Connect with the saved connection (id, name).
    Connect(String, String),
    /// A query tab on the database was added: its database list is to be
    /// loaded.
    QueryOpened(String),
    /// A data or structure tab was shown.
    TabShown,
}

/// Title and id of the query tab added for a database when `n` tabs are
/// open.
pub open spec fn db_query_tab(database: Seq<char>, n: nat) -> TabItemView {
    tab_for(
        "sql-editor-"@ + database + "-"@ + decimal(n + 1),
        database + " - Query "@ + decimal(n + 1),
        ContentTypeView::SqlEditor,
    )
}

/// The data tab of a table or view.
pub open spec fn data_tab(prefix: Seq<char>, database: Seq<char>, name: Seq<char>) -> TabItemView {
    tab_for(
        prefix + database + "-"@ + name,
        database + "."@ + name + " - Data"@,
        ContentTypeView::TableData(database + "."@ + name),
    )
}

/// The structure tab of a table.
pub open spec fn structure_tab(database: Seq<char>, table: Seq<char>) -> TabItemView {
    tab_for(
        "table-structure-"@ + database + "-"@ + table,
        table + " - Structure"@,
        ContentTypeView::TableForm(table),
    )
}

/// What applying an explorer event does: connecting asks for the
/// connection; a new query tab is added; a data or structure tab is shown.
pub open spec fn event_applied(
    event: DbTreeViewEvent,
    r: TreeEventOutcome,
    before: TabContainer,
    after: TabContainer,
) -> bool {
        match event {
            DbTreeViewEvent::ConnectToConnection { id, name } => r == TreeEventOutcome::Connect(
                id,
                name,
            ),
            DbTreeViewEvent::CreateNewQuery { database } => {
                &&& (r matches TreeEventOutcome::QueryOpened(d) && d == database)
                &&& after.tab_seq() == before.tab_seq().push(
                    db_query_tab(database@, before.tab_seq().len()),
                )
                &&& after.active() == before.tab_seq().len()
            },
            DbTreeViewEvent::OpenTableData { database, table } => r is TabShown && opened(
                before,
                after,
                data_tab("table-data-"@, database@, table@),
            ),
            DbTreeViewEvent::OpenViewData { database, view } => r is TabShown && opened(
                before,
                after,
                data_tab("view-data-"@, database@, view@),
            ),
            DbTreeViewEvent::OpenTableStructure { database, table } => r is TabShown && opened(
                before,
                after,
                structure_tab(database@, table@),
            ),
        }
}

/// Applies an explorer event to the tabs.
pub fn apply_tree_event(tc: &mut TabContainer, event: DbTreeViewEvent) -> (r: TreeEventOutcome)
    requires
        old(tc).active_ok(),
        old(tc).tab_seq().len() < u64::MAX,
    ensures
        final(tc).active_ok(),
        event_applied(event, r, *old(tc), *final(tc)),
{
    if matches!(event, DbTreeViewEvent::ConnectToConnection { .. }) {
        return connect_event(event);
    }
    apply_tab_event(tc, event)
}

fn connect_event(event: DbTreeViewEvent) -> (r: TreeEventOutcome)
    requires
        event is ConnectToConnection,
    ensures
        r == TreeEventOutcome::Connect(event->ConnectToConnection_id, event->ConnectToConnection_name),
{
    match event {
        DbTreeViewEvent::ConnectToConnection { id, name } => TreeEventOutcome::Connect(id, name),
        _ => TreeEventOutcome::TabShown,
    }
}

fn apply_tab_event(tc: &mut TabContainer, event: DbTreeViewEvent) -> (r: TreeEventOutcome)
    requires
        old(tc).active_ok(),
        old(tc).tab_seq().len() < u64::MAX,
        !(event is ConnectToConnection),
    ensures
        final(tc).active_ok(),
        event_applied(event, r, *old(tc), *final(tc)),
{
    match event {
        DbTreeViewEvent::ConnectToConnection { .. } => TreeEventOutcome::TabShown,
        DbTreeViewEvent::CreateNewQuery { database } => {
            let n = tc.tabs().len() as u64 + 1;
            let mut id = joined3("sql-editor-", database.as_str(), "-");
            push_decimal(&mut id, n);
            let mut title = joined2(database.as_str(), " - Query ");
            push_decimal(&mut title, n);
            tc.add_and_activate_tab(TabItem::new(id, title, true, TabContentType::SqlEditor));
            TreeEventOutcome::QueryOpened(database)
        },
        DbTreeViewEvent::OpenTableData { database, table } => {
            let id = joined3("table-data-", database.as_str(), "-");
            let mut id2 = id;
            push_str(&mut id2, table.as_str());
            let name = joined3(database.as_str(), ".", table.as_str());
            let title = joined2(name.as_str(), " - Data");
            open_or_activate(tc, id2, title, TabContentType::TableData(name));
            TreeEventOutcome::TabShown
        },
        DbTreeViewEvent::OpenViewData { database, view } => {
            let mut id = joined3("view-data-", database.as_str(), "-");
            push_str(&mut id, view.as_str());
            let name = joined3(database.as_str(), ".", view.as_str());
            let title = joined2(name.as_str(), " - Data");
            open_or_activate(tc, id, title, TabContentType::TableData(name));
            TreeEventOutcome::TabShown
        },
        DbTreeViewEvent::OpenTableStructure { database, table } => {
            let mut id = joined3("table-structure-", database.as_str(), "-");
            push_str(&mut id, table.as_str());
            let title = joined2(table.as_str(), " - Structure");
            open_or_activate(tc, id, title, TabContentType::TableForm(table));
            TreeEventOutcome::TabShown
        },
    }
}

/// The New Query button: adds `Query n` (id `sql-editor-n`) after the `n - 1`
/// open tabs and makes it active.
pub fn handle_new_query(tc: &mut TabContainer)
    requires
        old(tc).active_ok(),
        old(tc).tab_seq().len() < u64::MAX,
    ensures
        final(tc).active_ok(),
        final(tc).tab_seq() == old(tc).tab_seq().push(
            tab_for(
                "sql-editor-"@ + decimal(old(tc).tab_seq().len() + 1),
                "Query "@ + decimal(old(tc).tab_seq().len() + 1),
                ContentTypeView::SqlEditor,
            ),
        ),
        final(tc).active() == old(tc).tab_seq().len(),
{
    let n = tc.tabs().len() as u64 + 1;
    let mut id = "sql-editor-".to_owned();
    push_decimal(&mut id, n);
    let mut title = "Query ".to_owned();
    push_decimal(&mut title, n);
    tc.add_and_activate_tab(TabItem::new(id, title, true, TabContentType::SqlEditor));
}

} // verus!

verus! {

/// A connection the main window opened or is opening.
#[derive(Debug)]
pub struct ActiveConnection {
    pub id: String,
    pub name: String,
    pub db_type: DatabaseType,
    pub config: DbConnectionConfig,
    pub is_connected: bool,
}

/// The main window's connections, by id, the current one and the status
/// line.
#[derive(Debug)]
pub struct AppConnections {
    pub active_connections: Vec<ActiveConnection>,
    pub active_connection_id: Option<String>,
    pub status_msg: String,
}

/// The ids of the connections.
pub open spec fn conn_ids(v: Seq<ActiveConnection>) -> Seq<Seq<char>> {
    v.map_values(|c: ActiveConnection| c.id@)
}

/// No two connections share an id.
pub open spec fn conn_ids_unique(v: Seq<ActiveConnection>) -> bool {
    conn_ids(v).no_duplicates()
}

fn position_of_conn(v: &Vec<ActiveConnection>, id: &String) -> (r: Option<usize>)
    ensures
        r matches Some(i) ==> i < v@.len() && v@[i as int].id@ == id@,
        r is None ==> !conn_ids(v@).contains(id@),
{
    let mut i: usize = 0;
    while i < v.len()
        invariant
            i <= v@.len(),
            forall|k: int| 0 <= k < i ==> v@[k].id@ != id@,
        decreases v@.len() - i,
    {
        if v[i].id == *id {
            return Some(i);
        }
        i += 1;
    }
    assert(!conn_ids(v@).contains(id@)) by {
        if conn_ids(v@).contains(id@) {
            let k = choose|k: int| 0 <= k < conn_ids(v@).len() && conn_ids(v@)[k] == id@;
            assert(v@[k].id@ == id@);
        }
    }
    None
}

/// The connections after putting `c`: it replaces the one with its id, or
/// is added at the end.
pub open spec fn put_result(
    before: Seq<ActiveConnection>,
    c: ActiveConnection,
    after: Seq<ActiveConnection>,
) -> bool {
    match position_of_id_spec(before, c.id@) {
        Some(p) => after == before.update(p, c),
        None => after == before.push(c),
    }
}

/// The connection entry opened for a saved connection under `id`: not
/// connected yet, with the saved settings.
pub open spec fn entry_for_stored(c: ActiveConnection, s: StoredConnection, id: Seq<char>) -> bool {
    &&& c.id@ == id
    &&& c.name@ == s.name@
    &&& c.db_type == s.db_type
    &&& !c.is_connected
    &&& c.config.id@ == id
    &&& c.config.database_type == s.db_type
    &&& c.config.name@ == s.name@
    &&& c.config.host@ == s.host@
    &&& c.config.port == s.port
    &&& c.config.username@ == s.username@
    &&& c.config.password@ == s.password@
    &&& c.config.database.deep_view() == s.database.deep_view()
}

/// The status line while connecting.
pub open spec fn connected_text(name: Seq<char>, count: nat) -> Seq<char> {
    "Connected to "@ + name + " ("@ + decimal(count) + " active connections)"@
}

impl AppConnections {
    /// No connection yet.
    pub fn new() -> (r: Self)
        ensures
            r.active_connections@.len() == 0,
            r.active_connection_id is None,
            r.status_msg@ == "Not connected"@,
    {
        AppConnections {
            active_connections: Vec::new(),
            active_connection_id: None,
            status_msg: "Not connected".to_owned(),
        }
    }

    /// The ids are distinct.
    pub open spec fn wf(&self) -> bool {
        conn_ids_unique(self.active_connections@)
    }

    /// Adds a connection, replacing the one with its id.
    fn put(&mut self, c: ActiveConnection)
        requires
            old(self).wf(),
        ensures
            final(self).wf(),
            put_result(old(self).active_connections@, c, final(self).active_connections@),
            final(self).active_connection_id == old(self).active_connection_id,
            final(self).status_msg == old(self).status_msg,
    {
        let ghost before = self.active_connections@;
        let ghost cid = c.id@;
        match position_of_conn(&self.active_connections, &c.id) {
            Some(p) => {
                proof {
                    lemma_position_is_unique(before, p as int, cid);
                }
                self.active_connections.set(p, c);
                proof {
                    assert(conn_ids(self.active_connections@) =~= conn_ids(before));
                }
            },
            None => {
                self.active_connections.push(c);
                proof {
                    assert(conn_ids(self.active_connections@) =~= conn_ids(before).push(cid));
                }
            },
        }
    }

    /// Starts opening a saved connection: it is added, not yet connected,
    /// and its settings are returned; an unknown one only sets the status.
    pub fn connect_to_stored(&mut self, stored: Option<StoredConnection>, name: &str) -> (r: Option<
        (String, DbConnectionConfig),
    >)
        requires
            old(self).wf(),
            stored matches Some(s) ==> s.id is Some,
        ensures
            final(self).wf(),
            match stored {
                None => {
                    &&& r is None
                    &&& final(self).status_msg@ == "Connection not found: "@ + name@
                    &&& final(self).active_connections == old(self).active_connections
                },
                Some(s) => {
                    let id = signed_decimal(s.id->0 as int);
                    &&& (r matches Some((rid, config)) && rid@ == id && config.id@ == id
                        && config.name@ == s.name@ && config.host@ == s.host@ && config.port
                        == s.port && config.username@ == s.username@ && config.password@
                        == s.password@ && config.database.deep_view() == s.database.deep_view()
                        && config.database_type == s.db_type)
                    &&& conn_ids(final(self).active_connections@).contains(id)
                    &&& exists|c: ActiveConnection|
                        entry_for_stored(c, s, id) && #[trigger] put_result(
                            old(self).active_connections@,
                            c,
                            final(self).active_connections@,
                        )
                    &&& final(self).status_msg == old(self).status_msg
                },
            },
            final(self).active_connection_id == old(self).active_connection_id,
    {
        match stored {
            None => {
                let mut m = "Connection not found: ".to_owned();
                push_str(&mut m, name);
                self.status_msg = m;
                None
            },
            Some(s) => {
                let config = s.to_db_connection();
                let id_num: i64 = match s.id {
                    Some(v) => v,
                    None => 0,
                };
                let id = i64_to_string(id_num);
                let info_config = DbConnectionConfig {
                    id: config.id.clone(),
                    database_type: config.database_type,
                    name: config.name.clone(),
                    host: config.host.clone(),
                    port: config.port,
                    username: config.username.clone(),
                    password: config.password.clone(),
                    database: match &config.database {
                        Some(d) => Some(d.clone()),
                        None => None,
                    },
                };
                let info = ActiveConnection {
                    id: id.clone(),
                    name: config.name.clone(),
                    db_type: s.db_type,
                    config: info_config,
                    is_connected: false,
                };
                let ghost idv = id@;
                let ghost entry = info;
                self.put(info);
                assert(entry_for_stored(entry, s, idv));
                proof {
                    let v = self.active_connections@;
                    match position_of_id_spec(old(self).active_connections@, idv) {
                        Some(p) => {
                            assert(conn_ids(v)[p] == idv);
                        },
                        None => {
                            assert(conn_ids(v)[v.len() - 1] == idv);
                        },
                    }
                }
                Some((id, config))
            },
        }
    }

    /// A connection is up: it is marked connected and becomes the current
    /// one.
    pub fn connection_established(&mut self, id: String, name: &str)
        requires
            old(self).wf(),
        ensures
            final(self).wf(),
            conn_ids(final(self).active_connections@) == conn_ids(old(self).active_connections@),
            final(self).active_connections@.len() == old(self).active_connections@.len(),
            forall|i: int|
                0 <= i < final(self).active_connections@.len() ==> #[trigger] final(self).active_connections@[i] == (ActiveConnection {
                    is_connected: old(self).active_connections@[i].is_connected
                        || old(self).active_connections@[i].id@ == id@,
                    ..old(self).active_connections@[i]
                }),
            final(self).active_connection_id == Some(id),
            final(self).status_msg@ == connected_text(
                name@,
                old(self).active_connections@.len() as nat,
            ),
    {
        match position_of_conn(&self.active_connections, &id) {
            Some(p) => {
                let ghost before = self.active_connections@;
                let mut c = self.active_connections.remove(p);
                c.is_connected = true;
                self.active_connections.insert(p, c);
                proof {
                    lemma_position_is_unique(before, p as int, id@);
                    assert(conn_ids(self.active_connections@) =~= conn_ids(before));
                    assert forall|i: int| 0 <= i < self.active_connections@.len() implies #[trigger] self.active_connections@[i]
                        == (ActiveConnection {
                        is_connected: before[i].is_connected || before[i].id@ == id@,
                        ..before[i]
                    }) by {
                        if i != p {
                            assert(self.active_connections@[i] == before[i]);
                            assert(conn_ids(before)[i] != conn_ids(before)[p as int]);
                        }
                    }
                }
            },
            None => {
                proof {
                    assert forall|i: int| 0 <= i < self.active_connections@.len() implies #[trigger] self.active_connections@[i]
                        == (ActiveConnection {
                        is_connected: self.active_connections@[i].is_connected
                            || self.active_connections@[i].id@ == id@,
                        ..self.active_connections@[i]
                    }) by {
                        if self.active_connections@[i].id@ == id@ {
                            assert(conn_ids(self.active_connections@)[i] == id@);
                        }
                    }
                }
            },
        }
        let n = self.active_connections.len();
        let mut m = "Connected to ".to_owned();
        push_str(&mut m, name);
        push_str(&mut m, " (");
        push_decimal(&mut m, n as u64);
        push_str(&mut m, " active connections)");
        self.status_msg = m;
        self.active_connection_id = Some(id);
    }

    /// Opening a connection failed: it is dropped and the reason shown.
    pub fn connection_failed(&mut self, id: &String, failure: &ConnectFailure)
        requires
            old(self).wf(),
        ensures
            final(self).wf(),
            !conn_ids(final(self).active_connections@).contains(id@),
            forall|s: Seq<char>|
                s != id@ ==> (#[trigger] conn_ids(final(self).active_connections@).contains(s)
                    <==> conn_ids(old(self).active_connections@).contains(s)),
            final(self).status_msg@ == failure_text(*failure),
            final(self).active_connection_id == old(self).active_connection_id,
    {
        match position_of_conn(&self.active_connections, id) {
            Some(p) => {
                let ghost before = self.active_connections@;
                self.active_connections.remove(p);
                proof {
                    lemma_position_is_unique(before, p as int, id@);
                    let after = self.active_connections@;
                    assert(conn_ids(after) =~= conn_ids(before).remove(p as int));
                    assert(conn_ids(after).no_duplicates()) by {
                        assert forall|a: int, b: int|
                            0 <= a < conn_ids(after).len() && 0 <= b < conn_ids(after).len() && a != b
                                implies conn_ids(after)[a] != conn_ids(after)[b] by {
                            let a2 = if a < p { a } else { a + 1 };
                            let b2 = if b < p { b } else { b + 1 };
                            assert(conn_ids(after)[a] == conn_ids(before)[a2]);
                            assert(conn_ids(after)[b] == conn_ids(before)[b2]);
                        }
                    }
                    assert(!conn_ids(after).contains(id@)) by {
                        if conn_ids(after).contains(id@) {
                            let k = choose|k: int| 0 <= k < conn_ids(after).len() && conn_ids(after)[k] == id@;
                            let k2 = if k < p { k } else { k + 1 };
                            assert(conn_ids(before)[k2] == id@);
                            assert(conn_ids(before)[p as int] == id@);
                            assert(conn_ids(before)[k2] != conn_ids(before)[p as int]);
                        }
                    }
                    assert forall|s: Seq<char>| s != id@ implies (#[trigger] conn_ids(after).contains(s)
                        <==> conn_ids(before).contains(s)) by {
                        if conn_ids(after).contains(s) {
                            let k = choose|k: int| 0 <= k < conn_ids(after).len() && conn_ids(after)[k] == s;
                            let k2 = if k < p { k } else { k + 1 };
                            assert(conn_ids(before)[k2] == s);
                        }
                        if conn_ids(before).contains(s) {
                            let k = choose|k: int| 0 <= k < conn_ids(before).len() && conn_ids(before)[k] == s;
                            assert(k != p);
                            let k2 = if k < p { k } else { k - 1 };
                            assert(conn_ids(after)[k2] == s);
                        }
                    }
                }
            },
            None => {},
        }
        self.status_msg = failure_message(failure);
    }

    /// A connection made from the form is up: it is added as connected and
    /// becomes the current one.
    pub fn saved_connection_established(&mut self, connection: ActiveConnection)
        requires
            old(self).wf(),
        ensures
            final(self).wf(),
            conn_ids(final(self).active_connections@).contains(connection.id@),
            put_result(
                old(self).active_connections@,
                (ActiveConnection { is_connected: true, ..connection }),
                final(self).active_connections@,
            ),
            final(self).active_connection_id == Some(connection.id),
            final(self).status_msg@ == "Connected to "@ + connection.name@,
    {
        let id = connection.id.clone();
        let mut m = "Connected to ".to_owned();
        push_str(&mut m, connection.name.as_str());
        let mut c = connection;
        c.is_connected = true;
        let ghost idv = c.id@;
        self.put(c);
        proof {
            let v = self.active_connections@;
            match position_of_id_spec(old(self).active_connections@, idv) {
                Some(p) => {
                    assert(conn_ids(v)[p] == idv);
                },
                None => {
                    assert(conn_ids(v)[v.len() - 1] == idv);
                },
            }
        }
        self.status_msg = m;
        self.active_connection_id = Some(id);
    }
}

/// The position of the connection with this id.
pub open spec fn position_of_id_spec(v: Seq<ActiveConnection>, id: Seq<char>) -> Option<int> {
    if conn_ids(v).contains(id) {
        Some(choose|i: int| 0 <= i < v.len() && v[i].id@ == id)
    } else {
        None
    }
}

proof fn lemma_position_is_unique(v: Seq<ActiveConnection>, p: int, id: Seq<char>)
    requires
        conn_ids_unique(v),
        0 <= p < v.len(),
        v[p].id@ == id,
    ensures
        position_of_id_spec(v, id) == Some(p),
{
    assert(conn_ids(v)[p] == id);
    assert(conn_ids(v).contains(id));
    assert(v[p].id@ == id);
    let c = position_of_id_spec(v, id)->0;
    assert(0 <= c < v.len() && v[c].id@ == id);
    assert(conn_ids(v)[c] == id);
    if c != p {
        assert(conn_ids(v)[c] != conn_ids(v)[p]);
    }
}

/// Why opening or testing a connection failed.
#[derive(Debug)]
pub enum ConnectFailure {
    /// No driver for the server kind.
    Plugin(String),
    /// The server refused or could not be reached.
    Connection(String),
    /// The connection was made but did not answer.
    Test(String),
    /// No connection could be made for the test.
    Create(String),
}

/// The message for a failure.
pub open spec fn failure_text(f: ConnectFailure) -> Seq<char> {
    match f {
        ConnectFailure::Plugin(e) => "Failed to get plugin: "@ + e@,
        ConnectFailure::Connection(e) => "Connection failed: "@ + e@,
        ConnectFailure::Test(e) => "Connection test failed: "@ + e@,
        ConnectFailure::Create(e) => "Failed to create connection: "@ + e@,
    }
}

/// The message for a failure.
pub fn failure_message(f: &ConnectFailure) -> (r: String)
    ensures
        r@ == failure_text(*f),
{
    match f {
        ConnectFailure::Plugin(e) => joined2("Failed to get plugin: ", e.as_str()),
        ConnectFailure::Connection(e) => joined2("Connection failed: ", e.as_str()),
        ConnectFailure::Test(e) => joined2("Connection test failed: ", e.as_str()),
        ConnectFailure::Create(e) => joined2("Failed to create connection: ", e.as_str()),
    }
}

/// The outcome a connection test reports to the form.
pub fn test_result(outcome: Result<(), ConnectFailure>) -> (r: Result<bool, String>)
    ensures
        outcome is Ok ==> r == Ok::<bool, String>(true),
        outcome matches Err(f) ==> (r matches Err(m) && m@ == failure_text(f)),
{
    match outcome {
        Ok(()) => Ok(true),
        Err(f) => Err(failure_message(&f)),
    }
}

} // verus!

verus! {

/// A connection a database workspace or tab is opened for.
#[derive(Debug)]
pub struct ConnectionInfo {
    pub id: Option<i64>,
    pub name: String,
    pub db_type: DatabaseType,
    pub host: String,
    pub port: u16,
    pub username: String,
    pub password: String,
    pub database: Option<String>,
}

/// The id under which a workspace registers its connection: the stored id
/// in decimal, 0 when there is none.
pub open spec fn workspace_connection_id(info: ConnectionInfo) -> Seq<char> {
    signed_decimal(
        match info.id {
            Some(i) => i as int,
            None => 0,
        },
    )
}

fn copy_opt(o: &Option<String>) -> (r: Option<String>)
    ensures
        r == *o,
{
    match o {
        Some(s) => Some(s.clone()),
        None => None,
    }
}

/// The settings a workspace connects with.
pub fn workspace_config(info: &ConnectionInfo) -> (r: DbConnectionConfig)
    ensures
        r.id@ == workspace_connection_id(*info),
        r.database_type == info.db_type,
        r.name == info.name,
        r.host == info.host,
        r.port == info.port,
        r.username == info.username,
        r.password == info.password,
        r.database == info.database,
{
    let id = match info.id {
        Some(i) => i,
        None => 0,
    };
    DbConnectionConfig {
        id: i64_to_string(id),
        database_type: info.db_type,
        name: info.name.clone(),
        host: info.host.clone(),
        port: info.port,
        username: info.username.clone(),
        password: info.password.clone(),
        database: copy_opt(&info.database),
    }
}

/// The saved connection the workspace's explorer starts from.
pub fn workspace_stored_connection(info: &ConnectionInfo) -> (r: StoredConnection)
    ensures
        r.id == info.id,
        r.name == info.name,
        r.db_type == info.db_type,
        r.host == info.host,
        r.port == info.port,
        r.username == info.username,
        r.password == info.password,
        r.database == info.database,
        r.created_at is None,
        r.updated_at is None,
{
    StoredConnection {
        id: info.id,
        name: info.name.clone(),
        db_type: info.db_type,
        host: info.host.clone(),
        port: info.port,
        username: info.username.clone(),
        password: info.password.clone(),
        database: copy_opt(&info.database),
        created_at: None,
        updated_at: None,
    }
}

/// The connection status of a database workspace or tab.
#[derive(Debug)]
pub struct WorkspaceStatus {
    pub status_msg: String,
    pub is_connected: bool,
}

impl WorkspaceStatus {
    /// Before connecting.
    pub fn new() -> (r: Self)
        ensures
            r.status_msg@ == "Not connected"@,
            !r.is_connected,
    {
        WorkspaceStatus { status_msg: "Not connected".to_owned(), is_connected: false }
    }

    /// Connecting has started.
    pub fn connecting(&mut self)
        ensures
            final(self).status_msg@ == "Connecting..."@,
            final(self).is_connected == old(self).is_connected,
    {
        self.status_msg = "Connecting...".to_owned();
    }

    /// The connection is up.
    pub fn connected(&mut self, name: &str)
        ensures
            final(self).status_msg@ == "Connected to "@ + name@,
            final(self).is_connected,
    {
        self.is_connected = true;
        self.status_msg = joined2("Connected to ", name);
    }

    /// Connecting failed.
    pub fn failed(&mut self, failure: &ConnectFailure)
        ensures
            final(self).status_msg@ == failure_text(*failure),
            final(self).is_connected == old(self).is_connected,
    {
        self.status_msg = failure_message(failure);
    }
}

/// A status line reads as an error when it mentions a failure.
pub open spec fn is_error_text(s: Seq<char>) -> bool {
    contains_seq(s, "failed"@) || contains_seq(s, "Failed"@)
}

/// Whether a status line reads as an error.
pub fn status_is_error(status: &str) -> (r: bool)
    ensures
        r == is_error_text(status@),
{
    let s = chars_of(status);
    let a = chars_of("failed");
    let b = chars_of("Failed");
    contains_chars(s.as_slice(), a.as_slice()) || contains_chars(s.as_slice(), b.as_slice())
}

/// The heading of the connection status page.
pub fn connection_heading(info: &Option<ConnectionInfo>) -> (r: String)
    ensures
        r@ == match info {
            Some(i) => "Database Connection: "@ + i.name@,
            None => "Database Connection"@,
        },
{
    match info {
        Some(i) => joined2("Database Connection: ", i.name.as_str()),
        None => "Database Connection".to_owned(),
    }
}

/// The details shown while connecting: host, port, user and, when set,
/// the database.
pub fn connection_details(info: &ConnectionInfo) -> (r: Vec<(String, String)>)
    ensures
        r@.len() == if info.database is Some {
            4int
        } else {
            3int
        },
        r@[0].0@ == "Host:"@ && r@[0].1 == info.host,
        r@[1].0@ == "Port:"@ && r@[1].1@ == decimal(info.port as nat),
        r@[2].0@ == "Username:"@ && r@[2].1 == info.username,
        info.database matches Some(d) ==> r@[3].0@ == "Database:"@ && r@[3].1 == d,
{
    let mut port = String::new();
    push_decimal(&mut port, info.port as u64);
    let mut r = vec![
        ("Host:".to_owned(), info.host.clone()),
        ("Port:".to_owned(), port),
        ("Username:".to_owned(), info.username.clone()),
    ];
    match &info.database {
        Some(d) => r.push(("Database:".to_owned(), d.clone())),
        None => {},
    }
    r
}

/// The id of a database tab's dock area: `db-dock-<id>` (0 without id).
pub fn dock_id(info: &ConnectionInfo) -> (r: String)
    ensures
        r@ == "db-dock-"@ + workspace_connection_id(*info),
{
    let id = match info.id {
        Some(i) => i,
        None => 0,
    };
    let digits = i64_to_string(id);
    joined2("db-dock-", digits.as_str())
}

/// The content type of a connection's database tab: `database-<name>`.
pub fn database_tab_content_type(info: &ConnectionInfo) -> (r: TabContentType)
    ensures
        r@ == ContentTypeView::Custom("database-"@ + info.name@),
{
    TabContentType::Custom(joined2("database-", info.name.as_str()))
}

/// The icon of a connection's database tab and of a query tab.
pub fn database_tab_icon() -> (r: Option<TabIcon>)
    ensures
        r == Some(TabIcon::File),
{
    Some(TabIcon::File)
}

/// Version of the main dock layout.
pub const MAIN_DOCK_VERSION: usize = 5;

/// A saved layout of another version asks whether to reset it.
pub fn layout_needs_reset(version: Option<usize>) -> (r: bool)
    ensures
        r == (version != Some(5usize)),
{
    match version {
        Some(v) => v != MAIN_DOCK_VERSION,
        None => true,
    }
}

/// The set of names in a list.
pub open spec fn name_set(v: Seq<String>) -> Set<Seq<char>> {
    Set::new(|x: Seq<char>| exists|i: int| 0 <= i < v.len() && (#[trigger] v[i])@ == x)
}

/// Shows a hidden panel (dropping every entry of its name) or hides a
/// shown one (adding its name at the end).
pub fn toggle_panel_visible(invisible: &mut Vec<String>, panel: String)
    ensures
        if name_set(old(invisible)@).contains(panel@) {
            &&& final(invisible)@ == old(invisible)@.filter(|s: String| s@ != panel@)
            &&& name_set(final(invisible)@) == name_set(old(invisible)@).remove(panel@)
        } else {
            final(invisible)@ == old(invisible)@.push(panel)
        },
{
    let ghost before = invisible@;
    let mut found = false;
    let mut i: usize = 0;
    while i < invisible.len()
        invariant
            i <= invisible@.len(),
            invisible@ == before,
            found == exists|k: int| 0 <= k < i && (#[trigger] before[k])@ == panel@,
        decreases invisible@.len() - i,
    {
        if invisible[i] == panel {
            found = true;
        }
        i += 1;
    }
    if found {
        let ghost keep = |s: String| s@ != panel@;
        let mut kept: Vec<String> = Vec::new();
        let mut j: usize = 0;
        while j < invisible.len()
            invariant
                j <= invisible@.len(),
                invisible@ == before,
                keep == (|s: String| s@ != panel@),
                kept@ == before.take(j as int).filter(keep),
                forall|k: int| 0 <= k < kept@.len() ==> (#[trigger] kept@[k])@ != panel@,
                forall|k: int|
                    0 <= k < kept@.len() ==> exists|q: int| 0 <= q < j && (#[trigger] before[q])@
                        == (#[trigger] kept@[k])@,
                forall|q: int|
                    0 <= q < j && (#[trigger] before[q])@ != panel@ ==> exists|k: int|
                        0 <= k < kept@.len() && (#[trigger] kept@[k])@ == before[q]@,
            decreases invisible@.len() - j,
        {
            let ghost old_kept = kept@;
            proof {
                before.take(j as int).lemma_filter_push(before[j as int], keep);
                assert(before.take(j + 1) =~= before.take(j as int).push(before[j as int]));
            }
            if invisible[j] != panel {
                kept.push(invisible[j].clone());
                assert(kept@[kept@.len() - 1]@ == before[j as int]@);
            }
            assert forall|q: int|
                0 <= q < j + 1 && (#[trigger] before[q])@ != panel@ implies exists|k: int|
                    0 <= k < kept@.len() && (#[trigger] kept@[k])@ == before[q]@ by {
                if q < j {
                    let k = choose|k: int| 0 <= k < old_kept.len() && (#[trigger] old_kept[k])@ == before[q]@;
                    assert(kept@[k] == old_kept[k]);
                } else {
                    assert(kept@[kept@.len() - 1]@ == before[q]@);
                }
            }
            j += 1;
        }
        assert(name_set(kept@) =~= name_set(before).remove(panel@)) by {
            assert forall|s: Seq<char>| name_set(kept@).contains(s) implies name_set(before).remove(
                panel@,
            ).contains(s) by {
                let k = choose|k: int| 0 <= k < kept@.len() && (#[trigger] kept@[k])@ == s;
                let q = choose|q: int| 0 <= q < j && (#[trigger] before[q])@ == kept@[k]@;
            }
            assert forall|s: Seq<char>| name_set(before).remove(panel@).contains(s) implies name_set(
                kept@,
            ).contains(s) by {
                let q = choose|q: int| 0 <= q < before.len() && (#[trigger] before[q])@ == s;
                let k = choose|k: int| 0 <= k < kept@.len() && (#[trigger] kept@[k])@ == before[q]@;
            }
        }
        assert(before.take(before.len() as int) =~= before);
        *invisible = kept;
    } else {
        assert(!name_set(before).contains(panel@)) by {
            if name_set(before).contains(panel@) {
                let k = choose|k: int| 0 <= k < before.len() && (#[trigger] before[k])@ == panel@;
            }
        }
        invisible.push(panel);
    }
}

/// Hiding a panel and toggling it again shows it: the set of hidden panels
/// is as before.
pub proof fn law_toggle_twice_restores(v: Seq<String>, panel: String, once: Seq<String>, twice: Seq<String>)
    requires
        !name_set(v).contains(panel@),
        once == v.push(panel),
        name_set(twice) == name_set(once).remove(panel@),
    ensures
        name_set(twice) == name_set(v),
{
    assert(name_set(once) =~= name_set(v).insert(panel@)) by {
        assert forall|s: Seq<char>| name_set(once).contains(s) implies name_set(v).insert(panel@).contains(s) by {
            let k = choose|k: int| 0 <= k < once.len() && (#[trigger] once[k])@ == s;
            if k < v.len() {
                assert(v[k]@ == s);
            }
        }
        assert forall|s: Seq<char>| name_set(v).insert(panel@).contains(s) implies name_set(once).contains(s) by {
            if s == panel@ {
                assert(once[v.len() as int]@ == s);
            } else {
                let k = choose|k: int| 0 <= k < v.len() && (#[trigger] v[k])@ == s;
                assert(once[k]@ == s);
            }
        }
    }
    assert(name_set(twice) =~= name_set(v));
}

/// The settings tab.
#[derive(Debug, Clone, Copy)]
pub struct SettingsTabContent;

impl SettingsTabContent {
    /// The settings tab.
    pub fn new() -> (r: Self) {
        SettingsTabContent
    }

    /// Its icon: the settings icon.
    pub fn icon(&self) -> (r: Option<TabIcon>)
        ensures
            r == Some(TabIcon::Settings),
    {
        Some(TabIcon::Settings)
    }

    /// Its title.
    pub fn title(&self) -> (r: String)
        ensures
            r@ == "设置"@,
    {
        "设置".to_owned()
    }

    /// It can be closed.
    pub fn closeable(&self) -> (r: bool)
        ensures
            r,
    {
        true
    }

    /// Its content type: the custom kind `settings`.
    pub fn content_type(&self) -> (r: TabContentType)
        ensures
            r@ == ContentTypeView::Custom("settings"@),
    {
        TabContentType::Custom("settings".to_owned())
    }

    /// The heading and the description it shows.
    pub fn texts(&self) -> (r: (String, String))
        ensures
            r.0@ == "设置"@,
            r.1@ == "应用程序设置和配置"@,
    {
        ("设置".to_owned(), "应用程序设置和配置".to_owned())
    }
}

} // verus!
