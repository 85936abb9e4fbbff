//! The SQLite database behind the cache: its tables as mathematical values,
//! and the statements that read and write them.
//!
//! Every function here that carries a contract about the tables runs one SQL
//! statement through `rusqlite`; none of them is proved. What they claim of
//! the tables, they claim only of a connection that has its database for itself
//! ([`exclusive`]): a database file may be written by other processes between
//! any two statements.
use crate::model::texts;
use rusqlite::{Connection, OptionalExtension};
use vstd::prelude::*;
use vstd::utf8::encode_utf8;

verus! {

/// `rusqlite::Connection`: a handle on a SQLite database.
#[verifier::external_type_specification]
#[verifier::external_body]
pub struct ExConnection(rusqlite::Connection);

/// `rusqlite::Error`: why a statement could not be run.
#[verifier::external_type_specification]
#[verifier::external_body]
pub struct ExSqliteError(rusqlite::Error);

/// A row of the `uid_cache` table, without its key.
pub struct UserRow {
    pub login: Seq<char>,
    pub uid: u32,
    pub gid: u32,
    pub gecos: Seq<char>,
    pub home: Seq<char>,
    pub shell: Seq<char>,
    pub active: bool,
    pub cached_at: i64,
}

/// A row of the `gid_cache` table, without its key.
pub struct GroupRow {
    pub name: Seq<char>,
    pub gid: u32,
    pub cached_at: i64,
}

/// The rows of `uid_cache` by `external_id`; none while there is no such table.
pub uninterp spec fn user_table(conn: Connection) -> Map<Seq<char>, UserRow>;

/// The rows of `gid_cache` by `external_id`; none while there is no such table.
pub uninterp spec fn group_table(conn: Connection) -> Map<Seq<char>, GroupRow>;

/// The rows of `group_members`, as pairs of a group's `external_id` and a
/// member name; none while there is no such table.
pub uninterp spec fn member_table(conn: Connection) -> Set<(Seq<char>, Seq<char>)>;

/// Whether the database is this connection's own: nothing else writes it for as long as
/// the connection lives, and all that it held before was written by the statements of
/// this module. A database on `:memory:` is; of a file it is for the caller to know.
pub uninterp spec fn exclusive(conn: Connection) -> bool;

/// The path that the connection was opened with.
pub uninterp spec fn database_path(conn: Connection) -> Seq<char>;

/// Whether the journal has been switched through this connection: the statement that
/// asks for write-ahead logging has been run.
pub uninterp spec fn journal_switched(conn: Connection) -> bool;

/// Whether the tables have been created through this connection: the statements that
/// create those that are not there yet have been run.
pub uninterp spec fn has_tables(conn: Connection) -> bool;

/// Whether `new` is the connection `old` later on: on the same database, and with all
/// that was set up of it.
pub open spec fn same_database(old: Connection, new: Connection) -> bool {
    &&& exclusive(new) == exclusive(old)
    &&& database_path(new) == database_path(old)
    &&& journal_switched(old) ==> journal_switched(new)
    &&& has_tables(old) ==> has_tables(new)
}

/// What the three tables hold.
#[verifier::ext_equal]
pub struct Tables {
    pub users: Map<Seq<char>, UserRow>,
    pub groups: Map<Seq<char>, GroupRow>,
    pub members: Set<(Seq<char>, Seq<char>)>,
}

/// What the tables behind `conn` hold.
pub open spec fn tables(conn: Connection) -> Tables {
    Tables { users: user_table(conn), groups: group_table(conn), members: member_table(conn) }
}

/// Whether an entry cached at `cached_at` is still good at `now` with a time to
/// live of `ttl` seconds.
pub open spec fn fresh(cached_at: i64, now: i64, ttl: u64) -> bool {
    cached_at > now - ttl
}

/// Whether SQLite's clock can show `now`, in seconds of the Unix epoch: its
/// days run from the start of the Julian calendar to the end of the year 9999.
pub open spec fn clock_time(now: i64) -> bool {
    -210_866_760_000 <= now <= 253_402_300_799
}

/// Whether SQLite computes `now - ttl` exactly: both operands and the
/// difference are 64-bit integers.
pub open spec fn cutoff_exact(now: i64, ttl: u64) -> bool {
    now - ttl >= i64::MIN
}

impl Tables {
    /// No rows in any table.
    pub open spec fn empty() -> Tables {
        Tables { users: Map::empty(), groups: Map::empty(), members: Set::empty() }
    }

    /// The UID or GID constraints and the foreign key of the schema: no two
    /// users share a UID, no two groups share a GID, and members belong to
    /// groups that are there.
    pub open spec fn wf(self) -> bool {
        &&& forall|a: Seq<char>, b: Seq<char>|
            #![trigger self.users[a], self.users[b]]
            self.users.contains_key(a) && self.users.contains_key(b) && self.users[a].uid
                == self.users[b].uid ==> a == b
        &&& forall|a: Seq<char>, b: Seq<char>|
            #![trigger self.groups[a], self.groups[b]]
            self.groups.contains_key(a) && self.groups.contains_key(b) && self.groups[a].gid
                == self.groups[b].gid ==> a == b
        &&& forall|g: Seq<char>, m: Seq<char>|
            #[trigger] self.members.contains((g, m)) ==> self.groups.contains_key(g)
    }

    /// The tables after `row` has been written under `id`: it takes the place
    /// of the row with that `id` and of the row with that UID.
    pub open spec fn put_user(self, id: Seq<char>, row: UserRow) -> Tables {
        Tables {
            users: Map::new(
                |k: Seq<char>|
                    k == id || (self.users.contains_key(k) && self.users[k].uid != row.uid),
                |k: Seq<char>|
                    if k == id {
                        row
                    } else {
                        self.users[k]
                    },
            ),
            ..self
        }
    }

    /// Whether writing a group with this `id` and GID takes the place of group `k`.
    pub open spec fn displaced(self, k: Seq<char>, id: Seq<char>, gid: u32) -> bool {
        self.groups.contains_key(k) && (k == id || self.groups[k].gid == gid)
    }

    /// The tables after `row` has been written under `id`: it takes the place
    /// of the group with that `id` and of the group with that GID, whose
    /// members go with them.
    pub open spec fn put_group(self, id: Seq<char>, row: GroupRow) -> Tables {
        Tables {
            groups: Map::new(
                |k: Seq<char>|
                    k == id || (self.groups.contains_key(k) && self.groups[k].gid != row.gid),
                |k: Seq<char>|
                    if k == id {
                        row
                    } else {
                        self.groups[k]
                    },
            ),
            members: Set::new(
                |p: (Seq<char>, Seq<char>)|
                    self.members.contains(p) && !self.displaced(p.0, id, row.gid),
            ),
            ..self
        }
    }

    /// The tables without the members of group `id`.
    pub open spec fn clear_members(self, id: Seq<char>) -> Tables {
        Tables {
            members: Set::new(
                |p: (Seq<char>, Seq<char>)| self.members.contains(p) && p.0 != id,
            ),
            ..self
        }
    }

    /// The tables with `name` among the members of group `id`.
    pub open spec fn add_member(self, id: Seq<char>, name: Seq<char>) -> Tables {
        Tables { members: self.members.insert((id, name)), ..self }
    }

    /// The tables without the members of the groups that have expired.
    pub open spec fn purge_members(self, now: i64, ttl: u64) -> Tables {
        Tables {
            members: Set::new(
                |p: (Seq<char>, Seq<char>)|
                    self.members.contains(p) && !(self.groups.contains_key(p.0) && !fresh(
                        self.groups[p.0].cached_at,
                        now,
                        ttl,
                    )),
            ),
            ..self
        }
    }

    /// The tables without the groups that have expired and their members.
    pub open spec fn purge_groups(self, now: i64, ttl: u64) -> Tables {
        Tables {
            groups: Map::new(
                |k: Seq<char>|
                    self.groups.contains_key(k) && fresh(self.groups[k].cached_at, now, ttl),
                |k: Seq<char>| self.groups[k],
            ),
            ..self.purge_members(now, ttl)
        }
    }

    /// The tables without the users that have expired.
    pub open spec fn purge_users(self, now: i64, ttl: u64) -> Tables {
        Tables {
            users: Map::new(
                |k: Seq<char>|
                    self.users.contains_key(k) && fresh(self.users[k].cached_at, now, ttl),
                |k: Seq<char>| self.users[k],
            ),
            ..self
        }
    }
}

/// The columns of a user: external id, login, UID, GID, GECOS, home, shell, active.
pub type UserColumns = (String, String, u32, u32, String, String, String, bool);

/// The columns of a group: external id, name, GID.
pub type GroupColumns = (String, String, u32);

/// Whether `cols` are the columns of the user stored under its external id.
pub open spec fn is_user(users: Map<Seq<char>, UserRow>, cols: UserColumns) -> bool {
    &&& users.contains_key(cols.0@)
    &&& users[cols.0@].login == cols.1@
    &&& users[cols.0@].uid == cols.2
    &&& users[cols.0@].gid == cols.3
    &&& users[cols.0@].gecos == cols.4@
    &&& users[cols.0@].home == cols.5@
    &&& users[cols.0@].shell == cols.6@
    &&& users[cols.0@].active == cols.7
}

/// Whether `cols` are the columns of the group stored under its external id.
pub open spec fn is_group(groups: Map<Seq<char>, GroupRow>, cols: GroupColumns) -> bool {
    &&& groups.contains_key(cols.0@)
    &&& groups[cols.0@].name == cols.1@
    &&& groups[cols.0@].gid == cols.2
}

/// Whether `names` are the members of group `id`, each once, in some order.
pub open spec fn lists_members(
    members: Set<(Seq<char>, Seq<char>)>,
    id: Seq<char>,
    names: Seq<Seq<char>>,
) -> bool {
    &&& names.no_duplicates()
    &&& forall|m: Seq<char>| #[trigger] names.contains(m) <==> members.contains((id, m))
}

/// How a statement that writes leaves the tables: `after` where it succeeded, as
/// they were where it failed.
pub open spec fn written(old: Connection, new: Connection, ok: bool, after: Tables) -> bool {
    &&& same_database(old, new)
    &&& exclusive(old) ==> tables(new) == if ok {
        after
    } else {
        tables(old)
    }
}

/// Whether every row of `part` is a row of `whole`.
pub open spec fn subtable<V>(part: Map<Seq<char>, V>, whole: Map<Seq<char>, V>) -> bool {
    forall|k: Seq<char>| #[trigger]
        part.contains_key(k) ==> whole.contains_key(k) && part[k] == whole[k]
}

/// How a statement that only removes rows leaves the tables: nothing is new or
/// changed, and the constraints of the schema still hold.
pub open spec fn pruned(old: Connection, new: Connection) -> bool {
    &&& same_database(old, new)
    &&& exclusive(old) ==> {
        &&& subtable(user_table(new), user_table(old))
        &&& subtable(group_table(new), group_table(old))
        &&& member_table(new).subset_of(member_table(old))
        &&& tables(old).wf() ==> tables(new).wf()
    }
}

/// Calls `Connection::open`.
///
/// The path `:memory:` opens a new, empty database that lives in this
/// connection alone. Of what a database file holds nothing is claimed but that a
/// database of our own keeps the constraints of the schema.
#[verifier::external_body]
pub(crate) fn open(path: &str) -> (res: Result<Connection, rusqlite::Error>)
    ensures
        res matches Ok(conn) ==> database_path(conn) == path@,
        res matches Ok(conn) ==> (path@ == ":memory:"@ ==> exclusive(conn)),
        res matches Ok(conn) ==> (exclusive(conn) ==> tables(conn).wf()),
        path@ == ":memory:"@ ==> (res matches Ok(conn) ==> {
            &&& user_table(conn) == Map::<Seq<char>, UserRow>::empty()
            &&& group_table(conn) == Map::<Seq<char>, GroupRow>::empty()
            &&& member_table(conn) == Set::<(Seq<char>, Seq<char>)>::empty()
        }),
{
    Connection::open(path)
}

/// Whether `conn` is what opening the database at `path` may give: an outcome of
/// [`open`].
pub closed spec fn opens(path: &str, conn: Connection) -> bool {
    call_ensures(open, (path,), Ok(conn))
}

/// Calls `f` on `arg`, and says that what came back is an outcome of that call.
fn outcome_of<A, R>(f: impl FnOnce(A) -> R, arg: A) -> (res: R)
    requires
        call_requires(f, (arg,)),
    ensures
        call_ensures(f, (arg,), res),
{
    f(arg)
}

/// Opens the database at `path`.
pub(crate) fn connect(path: &str) -> (res: Result<Connection, rusqlite::Error>)
    ensures
        res matches Ok(conn) ==> {
            &&& opens(path, conn)
            &&& database_path(conn) == path@
            &&& path@ == ":memory:"@ ==> exclusive(conn) && tables(conn) == Tables::empty()
            &&& exclusive(conn) ==> tables(conn).wf()
        },
{
    outcome_of(open, path)
}

/// Whether a reading of the clock of `conn` may give `now`: an outcome of
/// [`current_time`].
pub closed spec fn clock_reads(conn: Connection, now: i64) -> bool {
    call_ensures(current_time, (&conn,), Ok(now))
}

/// A time that the clock of a connection may read is one that [`current_time`] gave, and
/// a connection that opening a path may give is one that [`open`] gave.
pub(crate) proof fn lemma_outcomes(path: &str, conn: Connection, now: i64)
    ensures
        clock_reads(conn, now) ==> call_ensures(
            current_time,
            (&conn,),
            Ok::<i64, rusqlite::Error>(now),
        ),
        opens(path, conn) ==> call_ensures(open, (path,), Ok::<Connection, rusqlite::Error>(conn)),
{
}

/// Reads the clock of `conn`.
pub(crate) fn read_clock(conn: &Connection) -> (res: Result<i64, rusqlite::Error>)
    ensures
        res matches Ok(now) ==> clock_reads(*conn, now) && clock_time(now),
{
    outcome_of(current_time, conn)
}

/// Calls `Connection::execute` to write a row of `uid_cache`.
///
/// `OR REPLACE` removes the rows that hold the same key or the same UID. A
/// statement that fails changes nothing.
#[verifier::external_body]
pub(crate) fn insert_user(
    conn: &mut Connection,
    id: &str,
    login: &str,
    uid: u32,
    gecos: &str,
    home: &str,
    shell: &str,
    gid: u32,
    active: bool,
    now: i64,
) -> (res: Result<usize, rusqlite::Error>)
    ensures
        written(
            *old(conn),
            *final(conn),
            res is Ok,
            tables(*old(conn)).put_user(
                id@,
                UserRow {
                    login: login@,
                    uid,
                    gid,
                    gecos: gecos@,
                    home: home@,
                    shell: shell@,
                    active,
                    cached_at: now,
                },
            ),
        ),
{
    conn.execute(
        "INSERT OR REPLACE INTO uid_cache
            (external_id, login, uid, gecos, home, shell, gid, active, cached_at)
         VALUES (?1, ?2, ?3, ?4, ?5, ?6, ?7, ?8, ?9)",
        (id, login, uid, gecos, home, shell, gid, active, now),
    )
}

/// Calls `Connection::execute_batch` to switch the journal to write-ahead
/// logging. The tables stay as they are.
#[verifier::external_body]
pub(crate) fn enable_wal(conn: &mut Connection) -> (res: Result<(), rusqlite::Error>)
    ensures
        written(*old(conn), *final(conn), res is Ok, tables(*old(conn))),
        res is Ok ==> journal_switched(*final(conn)),
{
    conn.execute_batch("PRAGMA journal_mode=WAL;")
}

/// The three tables of the cache, and indexes for the columns that are searched.
const SCHEMA: &'static str = "
CREATE TABLE IF NOT EXISTS uid_cache (
    external_id TEXT PRIMARY KEY,
    login       TEXT NOT NULL,
    uid         INTEGER UNIQUE NOT NULL,
    gecos       TEXT NOT NULL DEFAULT '',
    home        TEXT NOT NULL DEFAULT '',
    shell       TEXT NOT NULL DEFAULT '',
    gid         INTEGER NOT NULL DEFAULT 0,
    active      INTEGER NOT NULL DEFAULT 1,
    cached_at   INTEGER NOT NULL
);

CREATE TABLE IF NOT EXISTS gid_cache (
    external_id TEXT PRIMARY KEY,
    name        TEXT NOT NULL,
    gid         INTEGER UNIQUE NOT NULL,
    cached_at   INTEGER NOT NULL
);

CREATE TABLE IF NOT EXISTS group_members (
    group_external_id TEXT NOT NULL,
    member_name       TEXT NOT NULL,
    PRIMARY KEY (group_external_id, member_name),
    FOREIGN KEY (group_external_id) REFERENCES gid_cache(external_id)
        ON DELETE CASCADE
);

CREATE INDEX IF NOT EXISTS uid_cache_login ON uid_cache (login);
CREATE INDEX IF NOT EXISTS gid_cache_name ON gid_cache (name);
CREATE INDEX IF NOT EXISTS group_members_name ON group_members (member_name);
";

/// Calls `Connection::execute_batch` to create the tables and indexes that are
/// not there yet. A new table is empty, and a table that is there keeps its rows.
#[verifier::external_body]
pub(crate) fn create_tables(conn: &mut Connection) -> (res: Result<(), rusqlite::Error>)
    ensures
        written(*old(conn), *final(conn), res is Ok, tables(*old(conn))),
        res is Ok ==> has_tables(*final(conn)),
{
    conn.execute_batch(SCHEMA)
}

/// Calls `Connection::query_row` for SQLite's idea of the time, in seconds of
/// the Unix epoch. Of a clock only the range is claimed: `strftime` answers
/// nothing outside it.
#[verifier::external_body]
pub(crate) fn current_time(conn: &Connection) -> (res: Result<i64, rusqlite::Error>)
    ensures
        res matches Ok(now) ==> clock_time(now),
{
    conn.query_row("SELECT CAST(strftime('%s', 'now') AS INTEGER)", (), |row| row.get(0))
}

/// Calls `Connection::query_row` for the user that holds `uid`, expired or not.
#[verifier::external_body]
pub(crate) fn select_uid_owner(conn: &Connection, uid: u32) -> (res: Result<
    Option<String>,
    rusqlite::Error,
>)
    ensures
        exclusive(*conn) ==> (res matches Ok(found) ==> match found {
            Some(id) => user_table(*conn).contains_key(id@) && user_table(*conn)[id@].uid == uid,
            None => forall|id: Seq<char>| #[trigger]
                user_table(*conn).contains_key(id) ==> user_table(*conn)[id].uid != uid,
        }),
{
    conn.query_row("SELECT external_id FROM uid_cache WHERE uid = ?1", [uid], |row| row.get(0))
        .optional()
}

/// Calls `Connection::query_row` for the group that holds `gid`, expired or not.
#[verifier::external_body]
pub(crate) fn select_gid_owner(conn: &Connection, gid: u32) -> (res: Result<
    Option<String>,
    rusqlite::Error,
>)
    ensures
        exclusive(*conn) ==> (res matches Ok(found) ==> match found {
            Some(id) => group_table(*conn).contains_key(id@) && group_table(*conn)[id@].gid == gid,
            None => forall|id: Seq<char>| #[trigger]
                group_table(*conn).contains_key(id) ==> group_table(*conn)[id].gid != gid,
        }),
{
    conn.query_row("SELECT external_id FROM gid_cache WHERE gid = ?1", [gid], |row| row.get(0))
        .optional()
}

/// Calls `Connection::query_row` for the UID that is stored for `id`, expired or not.
///
/// SQLite counts the bytes of a text in 31 bits: it refuses to bind a longer one.
#[verifier::external_body]
pub(crate) fn select_uid(conn: &Connection, id: &str) -> (res: Result<
    Option<u32>,
    rusqlite::Error,
>)
    ensures
        res is Ok ==> encode_utf8(id@).len() <= i32::MAX,
        exclusive(*conn) ==> (res matches Ok(found) ==> match found {
            Some(uid) => user_table(*conn).contains_key(id@) && user_table(*conn)[id@].uid == uid,
            None => !user_table(*conn).contains_key(id@),
        }),
{
    conn.query_row("SELECT uid FROM uid_cache WHERE external_id = ?1", [id], |row| row.get(0))
        .optional()
}

/// Calls `Connection::query_row` for the GID that is stored for `id`, expired or not.
///
/// SQLite counts the bytes of a text in 31 bits: it refuses to bind a longer one.
#[verifier::external_body]
pub(crate) fn select_gid(conn: &Connection, id: &str) -> (res: Result<
    Option<u32>,
    rusqlite::Error,
>)
    ensures
        res is Ok ==> encode_utf8(id@).len() <= i32::MAX,
        exclusive(*conn) ==> (res matches Ok(found) ==> match found {
            Some(gid) => group_table(*conn).contains_key(id@) && group_table(*conn)[id@].gid == gid,
            None => !group_table(*conn).contains_key(id@),
        }),
{
    conn.query_row("SELECT gid FROM gid_cache WHERE external_id = ?1", [id], |row| row.get(0))
        .optional()
}

/// Calls `Connection::query_row` for the fresh user that holds `uid`.
///
/// A time to live that is no 64-bit signed integer cannot be bound, so the
/// statement fails.
#[verifier::external_body]
pub(crate) fn select_user_by_uid(conn: &Connection, uid: u32, now: i64, ttl: u64) -> (res: Result<
    Option<UserColumns>,
    rusqlite::Error,
>)
    ensures
        res is Ok ==> ttl <= i64::MAX,
        res matches Ok(Some(cols)) ==> cols.2 == uid,
        exclusive(*conn) ==> (res matches Ok(Some(cols)) ==> is_user(user_table(*conn), cols)),
        exclusive(*conn) && cutoff_exact(now, ttl) ==> (res matches Ok(found) ==> match found {
            Some(cols) => fresh(user_table(*conn)[cols.0@].cached_at, now, ttl),
            None => forall|id: Seq<char>| #[trigger]
                user_table(*conn).contains_key(id) ==> !(user_table(*conn)[id].uid == uid && fresh(
                    user_table(*conn)[id].cached_at,
                    now,
                    ttl,
                )),
        }),
{
    conn.query_row(
        "SELECT external_id, login, uid, gid, gecos, home, shell, active
         FROM uid_cache WHERE uid = ?1 AND cached_at > ?2 - ?3",
        (uid, now, ttl),
        |row| row.try_into(),
    )
    .optional()
}

/// Calls `Connection::query_row` for a fresh user with this login name. Where
/// there are several, it is one of them. Names are compared byte by byte, whatever
/// collation a table that was there before declares.
///
/// A time to live that is no 64-bit signed integer cannot be bound, so the
/// statement fails.
#[verifier::external_body]
pub(crate) fn select_user_by_name(conn: &Connection, name: &str, now: i64, ttl: u64) -> (res:
    Result<Option<UserColumns>, rusqlite::Error>)
    ensures
        res is Ok ==> ttl <= i64::MAX,
        res matches Ok(Some(cols)) ==> cols.1@ == name@,
        exclusive(*conn) ==> (res matches Ok(Some(cols)) ==> is_user(user_table(*conn), cols)),
        exclusive(*conn) && cutoff_exact(now, ttl) ==> (res matches Ok(found) ==> match found {
            Some(cols) => fresh(user_table(*conn)[cols.0@].cached_at, now, ttl),
            None => forall|id: Seq<char>| #[trigger]
                user_table(*conn).contains_key(id) ==> !(user_table(*conn)[id].login == name@
                    && fresh(user_table(*conn)[id].cached_at, now, ttl)),
        }),
{
    conn.query_row(
        "SELECT external_id, login, uid, gid, gecos, home, shell, active
         FROM uid_cache WHERE login = ?1 COLLATE BINARY AND cached_at > ?2 - ?3",
        (name, now, ttl),
        |row| row.try_into(),
    )
    .optional()
}

/// Calls `Connection::execute` to write a row of `gid_cache`.
///
/// `OR REPLACE` removes the rows that hold the same key or the same GID, and
/// the foreign key removes their members with them. A statement that fails
/// changes nothing.
#[verifier::external_body]
pub(crate) fn insert_group(conn: &mut Connection, id: &str, name: &str, gid: u32, now: i64) -> (res:
    Result<usize, rusqlite::Error>)
    ensures
        written(
            *old(conn),
            *final(conn),
            res is Ok,
            tables(*old(conn)).put_group(id@, GroupRow { name: name@, gid, cached_at: now }),
        ),
{
    conn.execute(
        "INSERT OR REPLACE INTO gid_cache (external_id, name, gid, cached_at)
         VALUES (?1, ?2, ?3, ?4)",
        (id, name, gid, now),
    )
}

/// Calls `Connection::execute` to remove the members of group `id`. A statement
/// that fails changes nothing.
#[verifier::external_body]
pub(crate) fn delete_members(conn: &mut Connection, id: &str) -> (res: Result<
    usize,
    rusqlite::Error,
>)
    ensures
        written(*old(conn), *final(conn), res is Ok, tables(*old(conn)).clear_members(id@)),
{
    conn.execute("DELETE FROM group_members WHERE group_external_id = ?1", [id])
}

/// Calls `Connection::execute` to add a member to group `id`.
///
/// The primary key and the foreign key make the statement fail where the
/// member is there already or the group is not there. A statement that fails
/// changes nothing.
#[verifier::external_body]
pub(crate) fn insert_member(conn: &mut Connection, id: &str, name: &str) -> (res: Result<
    usize,
    rusqlite::Error,
>)
    ensures
        written(*old(conn), *final(conn), res is Ok, tables(*old(conn)).add_member(id@, name@)),
        exclusive(*old(conn)) && res is Ok ==> !member_table(*old(conn)).contains((id@, name@))
            && group_table(*old(conn)).contains_key(id@),
{
    conn.execute(
        "INSERT INTO group_members (group_external_id, member_name) VALUES (?1, ?2)",
        (id, name),
    )
}

/// Calls `Connection::query_row` for the fresh group that holds `gid`.
///
/// A time to live that is no 64-bit signed integer cannot be bound, so the
/// statement fails.
#[verifier::external_body]
pub(crate) fn select_group_by_gid(conn: &Connection, gid: u32, now: i64, ttl: u64) -> (res: Result<
    Option<GroupColumns>,
    rusqlite::Error,
>)
    ensures
        res is Ok ==> ttl <= i64::MAX,
        res matches Ok(Some(cols)) ==> cols.2 == gid,
        exclusive(*conn) ==> (res matches Ok(Some(cols)) ==> is_group(group_table(*conn), cols)),
        exclusive(*conn) && cutoff_exact(now, ttl) ==> (res matches Ok(found) ==> match found {
            Some(cols) => fresh(group_table(*conn)[cols.0@].cached_at, now, ttl),
            None => forall|id: Seq<char>| #[trigger]
                group_table(*conn).contains_key(id) ==> !(group_table(*conn)[id].gid == gid
                    && fresh(group_table(*conn)[id].cached_at, now, ttl)),
        }),
{
    conn.query_row(
        "SELECT external_id, name, gid FROM gid_cache
         WHERE gid = ?1 AND cached_at > ?2 - ?3",
        (gid, now, ttl),
        |row| row.try_into(),
    )
    .optional()
}

/// Calls `Connection::query_row` for a fresh group with this name. Where there
/// are several, it is one of them. Names are compared byte by byte, whatever
/// collation a table that was there before declares.
///
/// A time to live that is no 64-bit signed integer cannot be bound, so the
/// statement fails.
#[verifier::external_body]
pub(crate) fn select_group_by_name(conn: &Connection, name: &str, now: i64, ttl: u64) -> (res:
    Result<Option<GroupColumns>, rusqlite::Error>)
    ensures
        res is Ok ==> ttl <= i64::MAX,
        res matches Ok(Some(cols)) ==> cols.1@ == name@,
        exclusive(*conn) ==> (res matches Ok(Some(cols)) ==> is_group(group_table(*conn), cols)),
        exclusive(*conn) && cutoff_exact(now, ttl) ==> (res matches Ok(found) ==> match found {
            Some(cols) => fresh(group_table(*conn)[cols.0@].cached_at, now, ttl),
            None => forall|id: Seq<char>| #[trigger]
                group_table(*conn).contains_key(id) ==> !(group_table(*conn)[id].name == name@
                    && fresh(group_table(*conn)[id].cached_at, now, ttl)),
        }),
{
    conn.query_row(
        "SELECT external_id, name, gid FROM gid_cache
         WHERE name = ?1 COLLATE BINARY AND cached_at > ?2 - ?3",
        (name, now, ttl),
        |row| row.try_into(),
    )
    .optional()
}

/// Calls `Statement::query_map` for the member names of group `id`. SQLite
/// promises no order of the rows.
#[verifier::external_body]
pub(crate) fn select_members(conn: &Connection, id: &str) -> (res: Result<
    Vec<String>,
    rusqlite::Error,
>)
    ensures
        exclusive(*conn) ==> (res matches Ok(names) ==> lists_members(
            member_table(*conn),
            id@,
            texts(names@),
        )),
{
    conn.prepare("SELECT member_name FROM group_members WHERE group_external_id = ?1")?
        .query_map([id], |row| row.get(0))?
        .collect()
}

/// Calls `Statement::query_map` for the fresh groups that list `member`. Each
/// comes once; SQLite promises no order of the rows.
///
/// A time to live that is no 64-bit signed integer cannot be bound, so the
/// statement fails.
#[verifier::external_body]
pub(crate) fn select_groups_of(conn: &Connection, member: &str, now: i64, ttl: u64) -> (res: Result<
    Vec<GroupColumns>,
    rusqlite::Error,
>)
    ensures
        res is Ok ==> ttl <= i64::MAX,
        exclusive(*conn) ==> (res matches Ok(found) ==> {
            &&& forall|i: int|
                0 <= i < found@.len() ==> {
                    &&& is_group(group_table(*conn), #[trigger] found@[i])
                    &&& member_table(*conn).contains((found@[i].0@, member@))
                }
            &&& forall|i: int, j: int|
                0 <= i < j < found@.len() ==> (#[trigger] found@[i]).0@ != (#[trigger] found@[j]).0@
        }),
        exclusive(*conn) && cutoff_exact(now, ttl) ==> (res matches Ok(found) ==> {
            &&& forall|i: int|
                0 <= i < found@.len() ==> fresh(
                    group_table(*conn)[(#[trigger] found@[i]).0@].cached_at,
                    now,
                    ttl,
                )
            &&& forall|id: Seq<char>| #[trigger]
                group_table(*conn).contains_key(id) && fresh(
                    group_table(*conn)[id].cached_at,
                    now,
                    ttl,
                ) && member_table(*conn).contains((id, member@)) ==> exists|i: int|
                    0 <= i < found@.len() && (#[trigger] found@[i]).0@ == id
        }),
{
    conn.prepare(
        "SELECT g.external_id, g.name, g.gid
         FROM gid_cache g
         JOIN group_members gm ON gm.group_external_id = g.external_id
         WHERE gm.member_name = ?1 AND g.cached_at > ?2 - ?3",
    )?
    .query_map((member, now, ttl), |row| row.try_into())?
    .collect()
}

/// Calls `Connection::execute` to remove the members of the groups that have
/// expired. A statement that fails changes nothing, and one whose time to live
/// is no 64-bit signed integer fails.
#[verifier::external_body]
pub(crate) fn delete_expired_members(conn: &mut Connection, now: i64, ttl: u64) -> (res: Result<
    usize,
    rusqlite::Error,
>)
    ensures
        res is Ok ==> ttl <= i64::MAX,
        cutoff_exact(now, ttl) ==> written(
            *old(conn),
            *final(conn),
            res is Ok,
            tables(*old(conn)).purge_members(now, ttl),
        ),
        pruned(*old(conn), *final(conn)),
{
    conn.execute(
        "DELETE FROM group_members WHERE group_external_id IN
            (SELECT external_id FROM gid_cache WHERE cached_at <= ?1 - ?2)",
        (now, ttl),
    )
}

/// Calls `Connection::execute` to remove the groups that have expired; the
/// foreign key removes their members with them. A statement that fails changes
/// nothing, and one whose time to live is no 64-bit signed integer fails.
#[verifier::external_body]
pub(crate) fn delete_expired_groups(conn: &mut Connection, now: i64, ttl: u64) -> (res: Result<
    usize,
    rusqlite::Error,
>)
    ensures
        res is Ok ==> ttl <= i64::MAX,
        cutoff_exact(now, ttl) ==> written(
            *old(conn),
            *final(conn),
            res is Ok,
            tables(*old(conn)).purge_groups(now, ttl),
        ),
        pruned(*old(conn), *final(conn)),
{
    conn.execute("DELETE FROM gid_cache WHERE cached_at <= ?1 - ?2", (now, ttl))
}

/// Calls `Connection::execute` to remove the users that have expired. A
/// statement that fails changes nothing, and one whose time to live is no
/// 64-bit signed integer fails.
#[verifier::external_body]
pub(crate) fn delete_expired_users(conn: &mut Connection, now: i64, ttl: u64) -> (res: Result<
    usize,
    rusqlite::Error,
>)
    ensures
        res is Ok ==> ttl <= i64::MAX,
        cutoff_exact(now, ttl) ==> written(
            *old(conn),
            *final(conn),
            res is Ok,
            tables(*old(conn)).purge_users(now, ttl),
        ),
        pruned(*old(conn), *final(conn)),
{
    conn.execute("DELETE FROM uid_cache WHERE cached_at <= ?1 - ?2", (now, ttl))
}

/// Writes `err` as its `Display` does. The wording is SQLite's own.
#[verifier::external_body]
pub(crate) fn error_text(err: &rusqlite::Error) -> (text: String) {
    err.to_string()
}

} // verus!
