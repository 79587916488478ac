//! The home page: the saved connections shown as cards, their search, the
//! selection, and the connection form opened for a new or an edited
//! connection.

use vstd::prelude::*;
use crate::connection::{DatabaseType, DbConnectionConfig};
use crate::storage::signed_decimal;
use crate::tabs::{TabContentType, TabIcon};
use crate::text::{chars_of, contains_chars, contains_seq, decimal, lowercase, push_decimal, push_str, lower_string};

verus! {

/// Kinds of saved connections, and the sidebar's filters.
#[derive(Debug, Clone, Copy, PartialEq, Eq, Structural)]
pub enum ConnectionType {
    All,
    Database,
    SshSftp,
    Redis,
    MongoDB,
}

/// A saved connection as the home page lists it.
#[derive(Debug)]
pub struct SavedConnection {
    pub id: Option<i64>,
    pub name: String,
    pub db_type: DatabaseType,
    pub connection_type: ConnectionType,
    pub host: String,
    pub port: u16,
    pub username: String,
    pub password: String,
    pub database: Option<String>,
    pub created_at: Option<i64>,
    pub updated_at: Option<i64>,
}

/// The home page's state.
#[derive(Debug)]
pub struct HomePage {
    pub selected_filter: ConnectionType,
    pub connections: Vec<SavedConnection>,
    pub search_query: String,
    pub form_open: bool,
    pub editing_connection_id: Option<i64>,
    pub selected_connection_id: Option<i64>,
}

/// A connection matches a search (in lower case) when the search is empty
/// or the lower-case name, host, user or database contains it.
pub open spec fn matches_search(c: SavedConnection, q: Seq<char>) -> bool {
    q.len() == 0 || contains_seq(lowercase(c.name@), q) || contains_seq(lowercase(c.host@), q)
        || contains_seq(lowercase(c.username@), q) || match c.database {
        Some(d) => contains_seq(lowercase(d@), q),
        None => false,
    }
}

fn lower_contains(s: &String, q: &Vec<char>) -> (r: bool)
    ensures
        r == contains_seq(lowercase(s@), q@),
{
    let low = lower_string(s.as_str());
    let c = chars_of(low.as_str());
    contains_chars(c.as_slice(), q.as_slice())
}

/// Whether a connection matches a search in lower case.
pub fn connection_matches(c: &SavedConnection, q: &Vec<char>) -> (r: bool)
    ensures
        r == matches_search(*c, q@),
{
    if q.len() == 0 {
        return true;
    }
    if lower_contains(&c.name, q) || lower_contains(&c.host, q) || lower_contains(&c.username, q) {
        return true;
    }
    match &c.database {
        Some(d) => lower_contains(d, q),
        None => false,
    }
}

/// The badge of a connection's card.
pub open spec fn badge(t: ConnectionType) -> Seq<char> {
    match t {
        ConnectionType::Database => "DB"@,
        ConnectionType::SshSftp => "SSH"@,
        ConnectionType::Redis => "R"@,
        ConnectionType::MongoDB => "M"@,
        ConnectionType::All => "?"@,
    }
}

/// The texts of a connection's card.
#[derive(Debug)]
pub struct ConnectionCard {
    /// Element id: `conn-card-<id>` (0 for a connection not stored yet).
    pub element_id: String,
    pub badge: String,
    pub title: String,
    /// `user@host:port`.
    pub address: String,
    /// `数据库: <name>` when the connection names a database.
    pub database: Option<String>,
    pub selected: bool,
    pub connection_id: Option<i64>,
}

/// The card shows the connection.
pub open spec fn card_shows(card: ConnectionCard, c: SavedConnection, selected: Option<i64>) -> bool {
    &&& card.element_id@ == "conn-card-"@ + signed_decimal(
        match c.id {
            Some(i) => i as int,
            None => 0,
        },
    )
    &&& card.badge@ == badge(c.connection_type)
    &&& card.title@ == c.name@
    &&& card.address@ == c.username@ + "@"@ + c.host@ + ":"@ + decimal(c.port as nat)
    &&& card.database.deep_view() == match c.database {
        Some(d) => Some("数据库: "@ + d@),
        None => None,
    }
    &&& card.selected == (selected == c.id)
    &&& card.connection_id == c.id
}

fn card_for(c: &SavedConnection, selected: Option<i64>) -> (r: ConnectionCard)
    ensures
        card_shows(r, *c, selected),
{
    let id_num: i64 = match c.id {
        Some(i) => i,
        None => 0,
    };
    let mut element_id = "conn-card-".to_owned();
    let digits = crate::storage::i64_to_string(id_num);
    push_str(&mut element_id, digits.as_str());
    let badge = match c.connection_type {
        ConnectionType::Database => "DB".to_owned(),
        ConnectionType::SshSftp => "SSH".to_owned(),
        ConnectionType::Redis => "R".to_owned(),
        ConnectionType::MongoDB => "M".to_owned(),
        ConnectionType::All => "?".to_owned(),
    };
    let mut address = c.username.clone();
    push_str(&mut address, "@");
    push_str(&mut address, c.host.as_str());
    push_str(&mut address, ":");
    push_decimal(&mut address, c.port as u64);
    let database = match &c.database {
        Some(d) => {
            let mut s = "数据库: ".to_owned();
            push_str(&mut s, d.as_str());
            Some(s)
        },
        None => None,
    };
    let same = match (selected, c.id) {
        (Some(a), Some(b)) => a == b,
        (None, None) => true,
        _ => false,
    };
    ConnectionCard {
        element_id,
        badge,
        title: c.name.clone(),
        address,
        database,
        selected: same,
        connection_id: c.id,
    }
}

/// The stored record for a saved form: under the edited id when editing.
pub open spec fn record_shows(r: SavedConnection, editing: Option<i64>, config: DbConnectionConfig) -> bool {
    &&& r.id == editing
    &&& r.name@ == config.name@
    &&& r.db_type == config.database_type
    &&& r.connection_type == ConnectionType::Database
    &&& r.host@ == config.host@
    &&& r.port == config.port
    &&& r.username@ == config.username@
    &&& r.password@ == config.password@
    &&& r.database.deep_view() == config.database.deep_view()
    &&& r.created_at is None
    &&& r.updated_at is None
}

/// What the home page asks for.
#[derive(Debug)]
pub enum HomeAction {
    /// Open the connection form for a server kind.
    ShowForm(DatabaseType),
    /// Nothing to do.
    Nothing,
}

/// Position of the first connection with this id.
pub open spec fn position_of_id(cs: Seq<SavedConnection>, id: i64) -> Option<int>
    decreases cs.len(),
{
    if cs.len() == 0 {
        None
    } else {
        match position_of_id(cs.drop_last(), id) {
            Some(i) => Some(i),
            None => if cs.last().id == Some(id) {
                Some(cs.len() - 1)
            } else {
                None
            },
        }
    }
}

proof fn lemma_position_prefix(cs: Seq<SavedConnection>, id: i64, n: int)
    requires
        0 <= n <= cs.len(),
        position_of_id(cs.take(n), id) is Some,
    ensures
        position_of_id(cs, id) == position_of_id(cs.take(n), id),
    decreases cs.len(),
{
    if n < cs.len() {
        assert(cs.drop_last().take(n) =~= cs.take(n));
        lemma_position_prefix(cs.drop_last(), id, n);
    } else {
        assert(cs.take(n) =~= cs);
    }
}

fn find_connection(cs: &Vec<SavedConnection>, id: i64) -> (r: Option<usize>)
    ensures
        r matches Some(i) ==> position_of_id(cs@, id) == Some(i as int) && i < cs@.len(),
        r is None ==> position_of_id(cs@, id) is None,
{
    let mut i: usize = 0;
    while i < cs.len()
        invariant
            i <= cs@.len(),
            position_of_id(cs@.take(i as int), id) is None,
        decreases cs@.len() - i,
    {
        assert(cs@.take(i + 1).drop_last() =~= cs@.take(i as int));
        let hit = match cs[i].id {
            Some(x) => x == id,
            None => false,
        };
        if hit {
            proof {
                assert(cs@.take(i + 1).last() == cs@[i as int]);
                lemma_position_prefix(cs@, id, i + 1);
            }
            return Some(i);
        }
        i += 1;
    }
    assert(cs@.take(cs@.len() as int) =~= cs@);
    None
}

impl HomePage {
    /// The page before the connections are loaded.
    pub fn new() -> (r: Self)
        ensures
            r.selected_filter == ConnectionType::All,
            r.connections@.len() == 0,
            r.search_query@.len() == 0,
            !r.form_open,
            r.editing_connection_id is None,
            r.selected_connection_id is None,
    {
        HomePage {
            selected_filter: ConnectionType::All,
            connections: Vec::new(),
            search_query: String::new(),
            form_open: false,
            editing_connection_id: None,
            selected_connection_id: None,
        }
    }

    /// The saved connections arrived.
    pub fn connections_loaded(&mut self, connections: Vec<SavedConnection>)
        ensures
            final(self).connections == connections,
            final(self).selected_filter == old(self).selected_filter,
            final(self).search_query == old(self).search_query,
            final(self).form_open == old(self).form_open,
            final(self).editing_connection_id == old(self).editing_connection_id,
            final(self).selected_connection_id == old(self).selected_connection_id,
    {
        self.connections = connections;
    }

    /// The search box changed.
    pub fn set_search(&mut self, text: String)
        ensures
            final(self).search_query == text,
            final(self).connections == old(self).connections,
            final(self).selected_connection_id == old(self).selected_connection_id,
    {
        self.search_query = text;
    }

    /// A sidebar filter was clicked.
    pub fn select_filter(&mut self, filter: ConnectionType)
        ensures
            final(self).selected_filter == filter,
            final(self).connections == old(self).connections,
            final(self).search_query == old(self).search_query,
    {
        self.selected_filter = filter;
    }

    /// A card was clicked.
    pub fn select_connection(&mut self, id: Option<i64>)
        ensures
            final(self).selected_connection_id == id,
            final(self).connections == old(self).connections,
            final(self).editing_connection_id == old(self).editing_connection_id,
            final(self).form_open == old(self).form_open,
    {
        self.selected_connection_id = id;
    }

    /// The cards shown: the connections matching the search, in order.
    pub fn connection_cards(&self) -> (r: Vec<ConnectionCard>)
        ensures
            ({
                let shown = self.connections@.filter(
                    |c: SavedConnection| matches_search(c, lowercase(self.search_query@)),
                );
                &&& r@.len() == shown.len()
                &&& forall|i: int|
                    0 <= i < shown.len() ==> card_shows(
                        #[trigger] r@[i],
                        shown[i],
                        self.selected_connection_id,
                    )
            }),
    {
        let low = lower_string(self.search_query.as_str());
        let q = chars_of(low.as_str());
        let ghost keep = |c: SavedConnection| matches_search(c, q@);
        let ghost all = self.connections@;
        let mut cards: Vec<ConnectionCard> = Vec::new();
        let ghost mut shown: Seq<SavedConnection> = Seq::empty();
        let mut i: usize = 0;
        while i < self.connections.len()
            invariant
                i <= all.len(),
                all == self.connections@,
                q@ == lowercase(self.search_query@),
                keep == (|c: SavedConnection| matches_search(c, q@)),
                shown == all.take(i as int).filter(keep),
                cards@.len() == shown.len(),
                forall|k: int|
                    0 <= k < shown.len() ==> card_shows(
                        #[trigger] cards@[k],
                        shown[k],
                        self.selected_connection_id,
                    ),
            decreases all.len() - i,
        {
            proof {
                all.take(i as int).lemma_filter_push(all[i as int], keep);
                assert(all.take(i + 1) =~= all.take(i as int).push(all[i as int]));
            }
            if connection_matches(&self.connections[i], &q) {
                let card = card_for(&self.connections[i], self.selected_connection_id);
                cards.push(card);
                proof {
                    shown = shown.push(all[i as int]);
                }
            }
            i += 1;
        }
        assert(all.take(all.len() as int) =~= all);
        assert(all.filter(keep) =~= all.filter(
            |c: SavedConnection| matches_search(c, lowercase(self.search_query@)),
        )) by {
            assert(keep =~= (|c: SavedConnection| matches_search(c, lowercase(self.search_query@))));
        }
        cards
    }

    /// The New menu: a form for a new connection of this kind.
    pub fn new_connection(&mut self, db_type: DatabaseType) -> (r: HomeAction)
        ensures
            r == HomeAction::ShowForm(db_type),
            final(self).editing_connection_id is None,
            final(self).form_open,
            final(self).connections == old(self).connections,
            final(self).selected_connection_id == old(self).selected_connection_id,
    {
        self.editing_connection_id = None;
        self.form_open = true;
        HomeAction::ShowForm(db_type)
    }

    /// The Edit button: a form for the selected connection, if it is listed.
    pub fn edit_selected(&mut self) -> (r: HomeAction)
        ensures
            match old(self).selected_connection_id {
                Some(id) => match position_of_id(old(self).connections@, id) {
                    Some(p) => {
                        &&& r == HomeAction::ShowForm(old(self).connections@[p].db_type)
                        &&& final(self).editing_connection_id == Some(id)
                        &&& final(self).form_open
                    },
                    None => r == HomeAction::Nothing && final(self).editing_connection_id
                        == old(self).editing_connection_id && final(self).form_open == old(
                        self,
                    ).form_open,
                },
                None => r == HomeAction::Nothing && final(self).editing_connection_id == old(
                    self,
                ).editing_connection_id && final(self).form_open == old(self).form_open,
            },
            final(self).connections == old(self).connections,
            final(self).selected_connection_id == old(self).selected_connection_id,
    {
        match self.selected_connection_id {
            Some(id) => match find_connection(&self.connections, id) {
                Some(p) => {
                    let t = self.connections[p].db_type;
                    self.editing_connection_id = Some(id);
                    self.form_open = true;
                    HomeAction::ShowForm(t)
                },
                None => HomeAction::Nothing,
            },
            None => HomeAction::Nothing,
        }
    }

    /// The form was cancelled.
    pub fn cancel_form(&mut self)
        ensures
            !final(self).form_open,
            final(self).editing_connection_id is None,
            final(self).connections == old(self).connections,
            final(self).selected_connection_id == old(self).selected_connection_id,
    {
        self.form_open = false;
        self.editing_connection_id = None;
    }

    /// The record to store for a saved form.
    pub fn record_for(&self, config: &DbConnectionConfig) -> (r: SavedConnection)
        ensures
            record_shows(r, self.editing_connection_id, *config),
    {
        let database = match &config.database {
            Some(d) => Some(d.clone()),
            None => None,
        };
        SavedConnection {
            id: self.editing_connection_id,
            name: config.name.clone(),
            db_type: config.database_type,
            connection_type: ConnectionType::Database,
            host: config.host.clone(),
            port: config.port,
            username: config.username.clone(),
            password: config.password.clone(),
            database,
            created_at: None,
            updated_at: None,
        }
    }

    /// The store saved a connection: an edited one replaces the listed one
    /// with its id, a new one is added; the form closes.
    pub fn connection_saved(&mut self, saved: SavedConnection)
        ensures
            match old(self).editing_connection_id {
                Some(id) => match position_of_id(old(self).connections@, id) {
                    Some(p) => final(self).connections@ == old(self).connections@.update(p, saved),
                    None => final(self).connections@ == old(self).connections@,
                },
                None => final(self).connections@ == old(self).connections@.push(saved),
            },
            !final(self).form_open,
            final(self).editing_connection_id is None,
            final(self).selected_connection_id == old(self).selected_connection_id,
    {
        match self.editing_connection_id {
            Some(id) => match find_connection(&self.connections, id) {
                Some(p) => {
                    self.connections.set(p, saved);
                },
                None => {},
            },
            None => {
                self.connections.push(saved);
            },
        }
        self.form_open = false;
        self.editing_connection_id = None;
    }
}

/// The outcome shown for a connection test: success, or the failure text.
pub fn test_outcome(succeeded: bool) -> (r: Result<bool, String>)
    ensures
        succeeded ==> r == Ok::<bool, String>(true),
        !succeeded ==> (r matches Err(e) && e@ == "测试连接失败"@),
{
    if succeeded {
        Ok(true)
    } else {
        Err("测试连接失败".to_owned())
    }
}

/// The id of a connection's database tab: `database-<name>`.
pub fn database_tab_id(name: &str) -> (r: String)
    ensures
        r@ == "database-"@ + name@,
{
    let mut s = "database-".to_owned();
    push_str(&mut s, name);
    s
}

/// Light or dark theme.
#[derive(Debug, Clone, Copy, PartialEq, Eq, Structural)]
pub enum ThemeMode {
    Light,
    Dark,
}

/// The theme the toggle switches to.
pub fn toggled_theme(mode: ThemeMode) -> (r: ThemeMode)
    ensures
        r != mode,
{
    match mode {
        ThemeMode::Light => ThemeMode::Dark,
        ThemeMode::Dark => ThemeMode::Light,
    }
}

/// The home tab's icon.
pub fn home_tab_icon() -> (r: Option<TabIcon>)
    ensures
        r == Some(TabIcon::LayoutDashboard),
{
    Some(TabIcon::LayoutDashboard)
}

/// The home tab: titled 首页, not closeable, of the custom kind `home`.
pub fn home_tab_content_type() -> (r: TabContentType)
    ensures
        r@ == crate::tabs::ContentTypeView::Custom("home"@),
{
    TabContentType::Custom("home".to_owned())
}

/// The search ignores the case of ASCII letters: a connection whose name
/// holds the search text, with letters in any case, matches it.
pub proof fn law_search_ignores_ascii_case(c: SavedConnection, q: Seq<char>, i: int)
    requires
        crate::text::is_ascii_text(c.name@),
        crate::text::is_ascii_text(q),
        0 <= i,
        i + q.len() <= c.name@.len(),
        c.name@.subrange(i, i + q.len()).map_values(|x: char| crate::text::ascii_lower(x))
            == q.map_values(|x: char| crate::text::ascii_lower(x)),
    ensures
        matches_search(c, lowercase(q)),
{
    let n = c.name@;
    let ln = lowercase(n);
    let lq = lowercase(q);
    assert(ln.subrange(i, i + q.len()) =~= lq) by {
        assert forall|k: int| 0 <= k < q.len() implies ln.subrange(i, i + q.len())[k] == lq[k] by {
            assert(n.subrange(i, i + q.len()).map_values(|x: char| crate::text::ascii_lower(x))[k]
                == crate::text::ascii_lower(n[i + k]));
        }
    }
    assert(crate::text::occurs_at(ln, lq, i));
}

} // verus!
