//! Stored connections.
use crate::etl::script::gen::{show_uuid, uuid_text};
use crate::models::errors::{EluEtlError, ErrorView};
use crate::text;
use vstd::prelude::*;

verus! {

/// What a connection leads to.
#[derive(Debug, Clone, Copy, PartialEq, Eq, Structural)]
pub enum DbKind {
    SqlServer,
    Postgres,
    MySql,
    Sqlite,
    /// A spreadsheet or CSV file, which can be a source but never a target.
    File,
}

/// A connection without its password. For SQLite and files `database` is a path.
#[derive(Debug, Clone)]
pub struct ConnectionConfig {
    pub id: u128,
    pub name: String,
    pub kind: DbKind,
    pub host: String,
    pub port: Option<u16>,
    pub database: String,
    pub username: String,
    /// Accepts a self-signed certificate of SQL Server.
    pub trust_server_certificate: bool,
    /// The sheet of a file; none means the first one.
    pub sheet: Option<String>,
    /// The encoding of a CSV file; none means to detect it.
    pub encoding: Option<String>,
    /// Whether the first row of a file names its columns; none means it does.
    pub has_header: Option<bool>,
}

pub open spec fn usual_port(kind: DbKind) -> u16 {
    match kind {
        DbKind::SqlServer => 1433,
        DbKind::Postgres => 5432,
        DbKind::MySql => 3306,
        DbKind::Sqlite => 0,
        DbKind::File => 0,
    }
}

impl ConnectionConfig {
    /// The usual port of the database.
    pub fn default_port(&self) -> (r: u16)
        ensures
            r == usual_port(self.kind),
    {
        match self.kind {
            DbKind::SqlServer => 1433,
            DbKind::Postgres => 5432,
            DbKind::MySql => 3306,
            DbKind::Sqlite => 0,
            DbKind::File => 0,
        }
    }

    /// The port that was set, or else the usual one.
    pub fn port_or_default(&self) -> (r: u16)
        ensures
            r == (match self.port {
                Some(p) => p,
                None => usual_port(self.kind),
            }),
    {
        match self.port {
            Some(p) => p,
            None => self.default_port(),
        }
    }
}

/// What jobs see of a connection.
#[verifier::ext_equal]
pub struct ConnView {
    pub id: u128,
    pub name: Seq<char>,
    pub kind: DbKind,
    pub database: Seq<char>,
    pub sheet: Option<Seq<char>>,
    pub encoding: Option<Seq<char>>,
    pub has_header: Option<bool>,
}

impl View for ConnectionConfig {
    type V = ConnView;

    open spec fn view(&self) -> ConnView {
        ConnView {
            id: self.id,
            name: self.name@,
            kind: self.kind,
            database: self.database@,
            sheet: text::opt_view(self.sheet),
            encoding: text::opt_view(self.encoding),
            has_header: self.has_header,
        }
    }
}

pub open spec fn conns_view(v: Seq<ConnectionConfig>) -> Seq<ConnView> {
    Seq::new(v.len(), |i: int| v[i]@)
}

/// The names are the same apart from case and the white space around them.
pub open spec fn same_name(a: Seq<char>, b: Seq<char>) -> bool {
    text::same_ignoring_case(text::trim(a), text::trim(b))
}

/// The first connection of that name, from a place on.
pub open spec fn named_from(v: Seq<ConnView>, name: Seq<char>, from: int) -> Option<ConnView>
    decreases v.len() - from,
{
    if from < 0 || from >= v.len() {
        None
    } else if same_name(v[from].name, name) {
        Some(v[from])
    } else {
        named_from(v, name, from + 1)
    }
}

/// The connection of that name, or an error that asks to store one.
pub open spec fn by_name(v: Seq<ConnView>, name: Seq<char>) -> Result<ConnView, ErrorView> {
    match named_from(v, name, 0) {
        Some(c) => Ok(c),
        None => Err(
            ErrorView::NotFound(
                "找不到名為「"@ + name
                    + "」的已儲存連線（請先在「資料庫連線」建立並儲存）"@,
            ),
        ),
    }
}

/// The first connection of that number, from a place on.
pub open spec fn numbered_from(v: Seq<ConnView>, id: u128, from: int) -> Option<ConnView>
    decreases v.len() - from,
{
    if from < 0 || from >= v.len() {
        None
    } else if v[from].id == id {
        Some(v[from])
    } else {
        numbered_from(v, id, from + 1)
    }
}

/// The connection of that number.
pub open spec fn by_id(v: Seq<ConnView>, id: u128) -> Result<ConnView, ErrorView> {
    match numbered_from(v, id, 0) {
        Some(c) => Ok(c),
        None => Err(ErrorView::NotFound("連線 "@ + uuid_text(id) + " 不存在"@)),
    }
}

pub open spec fn conn_found(r: Result<&ConnectionConfig, EluEtlError>, s: Result<ConnView, ErrorView>) -> bool {
    match r {
        Ok(c) => s == Ok::<ConnView, ErrorView>(c@),
        Err(e) => s == Err::<ConnView, ErrorView>(e@),
    }
}

/// The stored connection of that name.
pub fn get_connection_by_name<'a>(list: &'a Vec<ConnectionConfig>, name: &str) -> (r: Result<
    &'a ConnectionConfig,
    EluEtlError,
>)
    ensures
        conn_found(r, by_name(conns_view(list@), name@)),
{
    let ghost all = conns_view(list@);
    let wanted: String = text::trimmed(name);
    let mut i: usize = 0;
    while i < list.len()
        invariant
            i <= list@.len(),
            all == conns_view(list@),
            wanted@ == text::trim(name@),
            named_from(all, name@, 0) == named_from(all, name@, i as int),
        decreases list@.len() - i,
    {
        if text::eq_ignore_case(text::trimmed(list[i].name.as_str()).as_str(), wanted.as_str()) {
            return Ok(&list[i]);
        }
        i += 1;
    }
    Err(
        EluEtlError::NotFound(
            text::cat3(
                "找不到名為「",
                name,
                "」的已儲存連線（請先在「資料庫連線」建立並儲存）",
            ),
        ),
    )
}

/// The stored connection of that number.
pub fn get_connection(list: &Vec<ConnectionConfig>, id: u128) -> (r: Result<
    &ConnectionConfig,
    EluEtlError,
>)
    ensures
        conn_found(r, by_id(conns_view(list@), id)),
{
    let ghost all = conns_view(list@);
    let mut i: usize = 0;
    while i < list.len()
        invariant
            i <= list@.len(),
            all == conns_view(list@),
            numbered_from(all, id, 0) == numbered_from(all, id, i as int),
        decreases list@.len() - i,
    {
        if list[i].id == id {
            return Ok(&list[i]);
        }
        i += 1;
    }
    Err(
        EluEtlError::NotFound(text::cat3("連線 ", show_uuid(id).as_str(), " 不存在")),
    )
}

/// Whether a connection of that kind has a password to keep: files and SQLite have none.
pub fn keeps_password(kind: DbKind) -> (r: bool)
    ensures
        r == !(kind is File || kind is Sqlite),
{
    match kind {
        DbKind::SqlServer => true,
        DbKind::Postgres => true,
        DbKind::MySql => true,
        DbKind::Sqlite => false,
        DbKind::File => false,
    }
}

/// A connection that is found by a name has that name, and none before it does; an
/// error comes exactly where none has it.
pub proof fn law_first_of_a_name_is_found(v: Seq<ConnView>, name: Seq<char>) -> (i: int)
    ensures
        by_name(v, name) matches Ok(c) ==> 0 <= i < v.len() && v[i] == c,
        by_name(v, name) is Err ==> i == v.len(),
        i < v.len() ==> same_name(v[i].name, name),
        forall|j: int| 0 <= j < i ==> !same_name((#[trigger] v[j]).name, name),
{
    lemma_named_from(v, name, 0)
}

proof fn lemma_named_from(v: Seq<ConnView>, name: Seq<char>, from: int) -> (i: int)
    requires
        0 <= from <= v.len(),
    ensures
        from <= i <= v.len(),
        named_from(v, name, from) matches Some(c) ==> i < v.len() && v[i] == c,
        named_from(v, name, from) is None ==> i == v.len(),
        i < v.len() ==> same_name(v[i].name, name),
        forall|j: int| from <= j < i ==> !same_name((#[trigger] v[j]).name, name),
    decreases v.len() - from,
{
    if from >= v.len() || same_name(v[from].name, name) {
        from
    } else {
        lemma_named_from(v, name, from + 1)
    }
}

/// A connection that is found by a number has that number, and none before it does; an
/// error comes exactly where none has it.
pub proof fn law_first_of_a_number_is_found(v: Seq<ConnView>, id: u128) -> (i: int)
    ensures
        by_id(v, id) matches Ok(c) ==> 0 <= i < v.len() && v[i] == c,
        by_id(v, id) is Err ==> i == v.len(),
        i < v.len() ==> v[i].id == id,
        forall|j: int| 0 <= j < i ==> (#[trigger] v[j]).id != id,
{
    lemma_numbered_from(v, id, 0)
}

proof fn lemma_numbered_from(v: Seq<ConnView>, id: u128, from: int) -> (i: int)
    requires
        0 <= from <= v.len(),
    ensures
        from <= i <= v.len(),
        numbered_from(v, id, from) matches Some(c) ==> i < v.len() && v[i] == c,
        numbered_from(v, id, from) is None ==> i == v.len(),
        i < v.len() ==> v[i].id == id,
        forall|j: int| from <= j < i ==> (#[trigger] v[j]).id != id,
    decreases v.len() - from,
{
    if from >= v.len() || v[from].id == id {
        from
    } else {
        lemma_numbered_from(v, id, from + 1)
    }
}

/// The white space around a name does not count, and names are the same in either order.
pub proof fn law_names_are_the_same_trimmed(a: Seq<char>, b: Seq<char>)
    ensures
        same_name(a, a),
        same_name(a, b) == same_name(b, a),
        same_name(a, text::trim(a)),
        same_name(text::trim(a), b) == same_name(a, b),
{
    text::lemma_trim_ends(a);
    if text::trim(a).len() > 0 {
        text::lemma_trimmed(text::trim(a));
    }
}

/// Each server has the port that it listens on by default; what is no server has none.
pub proof fn law_ports_are_told_apart(a: DbKind, b: DbKind)
    requires
        !(a is Sqlite || a is File),
        !(b is Sqlite || b is File),
    ensures
        usual_port(a) > 0,
        usual_port(a) == usual_port(b) <==> a == b,
        usual_port(DbKind::SqlServer) == 1433,
        usual_port(DbKind::Postgres) == 5432,
        usual_port(DbKind::MySql) == 3306,
        usual_port(DbKind::Sqlite) == 0,
        usual_port(DbKind::File) == 0,
{
}

} // verus!
