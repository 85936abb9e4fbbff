//! The cache of users and groups: what it holds, how long it holds it, and how
//! UIDs and GIDs are found that nobody else has.
use crate::config::{not_root_detail, not_root_text, FileMeta};
use crate::mapping::{
    home_slot, lemma_probe_covers_range, lemma_probe_in_range, murmur3_32_of, probe_id, probe_slot,
    valid_range, IdRangeExhausted,
};
use crate::model::{group_view, texts, user_view, Group, GroupView, User, UserView};
use crate::store;
use crate::store::{
    clock_reads, clock_time, cutoff_exact, database_path, exclusive, fresh, group_table,
    has_tables, journal_switched, lists_members, member_table, opens, subtable, tables, user_table,
    GroupColumns, GroupRow, Tables, UserColumns, UserRow,
};
use crate::text::{join3, octal_mode, octal_mode_text, same_text};
use rusqlite::Connection;
use vstd::prelude::*;

verus! {

/// Why the cache could not answer.
#[derive(Debug)]
pub enum CacheError {
    /// SQLite could not run a statement.
    Sqlite(rusqlite::Error),
    /// Every UID or GID of the range has an owner.
    RangeExhausted,
    /// The database file is open to others.
    InsecurePermissions { path: String, detail: String },
}

impl From<IdRangeExhausted> for CacheError {
    fn from(_exhausted: IdRangeExhausted) -> (err: Self) {
        CacheError::RangeExhausted
    }
}

impl vstd::std_specs::convert::FromSpecImpl<IdRangeExhausted> for CacheError {
    open spec fn obeys_from_spec() -> bool {
        true
    }

    open spec fn from_spec(_exhausted: IdRangeExhausted) -> Self {
        CacheError::RangeExhausted
    }
}

impl CacheError {
    /// Whether `message` is the text of the message. What SQLite says of an error is
    /// its own wording.
    pub open spec fn has_message(self, message: Seq<char>) -> bool {
        match self {
            CacheError::Sqlite(_) => "sqlite error: "@.is_prefix_of(message),
            CacheError::RangeExhausted => message
                == "UID/GID range exhausted — all slots occupied"@,
            CacheError::InsecurePermissions { path, detail } => message
                == "insecure permissions on cache "@ + path@ + ": "@ + detail@,
        }
    }

    /// The message for the log.
    pub fn message(&self) -> (message: String)
        ensures
            self.has_message(message@),
    {
        match self {
            CacheError::Sqlite(err) => {
                let reason = store::error_text(err);
                let mut m = "sqlite error: ".to_owned();
                m.append(reason.as_str());
                m
            },
            CacheError::RangeExhausted => {
                "UID/GID range exhausted — all slots occupied".to_owned()
            },
            CacheError::InsecurePermissions { path, detail } => {
                let mut m = join3("insecure permissions on cache ", path, ": ");
                m.append(detail);
                m
            },
        }
    }
}

/// The row that `user` is stored in at `now`.
pub open spec fn user_row(user: UserView, now: i64) -> UserRow {
    UserRow {
        login: user.name,
        uid: user.uid,
        gid: user.gid,
        gecos: user.gecos,
        home: user.home,
        shell: user.shell,
        active: user.active,
        cached_at: now,
    }
}

/// The row that `group` is stored in at `now`.
pub open spec fn group_row(group: GroupView, now: i64) -> GroupRow {
    GroupRow { name: group.name, gid: group.gid, cached_at: now }
}

impl Tables {
    /// The user stored under `id`.
    pub open spec fn user(self, id: Seq<char>) -> UserView {
        UserView {
            external_id: id,
            name: self.users[id].login,
            uid: self.users[id].uid,
            gid: self.users[id].gid,
            gecos: self.users[id].gecos,
            home: self.users[id].home,
            shell: self.users[id].shell,
            active: self.users[id].active,
        }
    }

    /// Whether `user` is stored as it is.
    pub open spec fn has_user(self, user: UserView) -> bool {
        self.users.contains_key(user.external_id) && self.user(user.external_id) == user
    }

    /// Whether `group` is stored as it is, its members in any order.
    pub open spec fn has_group(self, group: GroupView) -> bool {
        &&& self.groups.contains_key(group.external_id)
        &&& self.groups[group.external_id].name == group.name
        &&& self.groups[group.external_id].gid == group.gid
        &&& lists_members(self.members, group.external_id, group.members)
    }

    /// Whether a user is stored under `id` and has not expired at `now`.
    pub open spec fn user_fresh(self, id: Seq<char>, now: i64, ttl: u64) -> bool {
        self.users.contains_key(id) && fresh(self.users[id].cached_at, now, ttl)
    }

    /// Whether a group is stored under `id` and has not expired at `now`.
    pub open spec fn group_fresh(self, id: Seq<char>, now: i64, ttl: u64) -> bool {
        self.groups.contains_key(id) && fresh(self.groups[id].cached_at, now, ttl)
    }

    /// Whether `found` answers a search for the user with `uid`: it is stored
    /// and fresh, or there is no fresh user with that UID.
    pub open spec fn finds_user_by_uid(
        self,
        uid: u32,
        now: i64,
        ttl: u64,
        found: Option<UserView>,
    ) -> bool {
        match found {
            Some(user) => user.uid == uid && self.has_user(user) && self.user_fresh(
                user.external_id,
                now,
                ttl,
            ),
            None => forall|id: Seq<char>| #[trigger]
                self.user_fresh(id, now, ttl) ==> self.users[id].uid != uid,
        }
    }

    /// Whether `found` answers a search for a user by login name: it is stored
    /// and fresh, or there is no fresh user with that name.
    pub open spec fn finds_user_by_name(
        self,
        name: Seq<char>,
        now: i64,
        ttl: u64,
        found: Option<UserView>,
    ) -> bool {
        match found {
            Some(user) => user.name == name && self.has_user(user) && self.user_fresh(
                user.external_id,
                now,
                ttl,
            ),
            None => forall|id: Seq<char>| #[trigger]
                self.user_fresh(id, now, ttl) ==> self.users[id].login != name,
        }
    }

    /// Whether `found` answers a search for the group with `gid`: it is stored
    /// and fresh, or there is no fresh group with that GID.
    pub open spec fn finds_group_by_gid(
        self,
        gid: u32,
        now: i64,
        ttl: u64,
        found: Option<GroupView>,
    ) -> bool {
        match found {
            Some(group) => group.gid == gid && self.has_group(group) && self.group_fresh(
                group.external_id,
                now,
                ttl,
            ),
            None => forall|id: Seq<char>| #[trigger]
                self.group_fresh(id, now, ttl) ==> self.groups[id].gid != gid,
        }
    }

    /// Whether `found` answers a search for a group by name: it is stored and
    /// fresh, or there is no fresh group with that name.
    pub open spec fn finds_group_by_name(
        self,
        name: Seq<char>,
        now: i64,
        ttl: u64,
        found: Option<GroupView>,
    ) -> bool {
        match found {
            Some(group) => group.name == name && self.has_group(group) && self.group_fresh(
                group.external_id,
                now,
                ttl,
            ),
            None => forall|id: Seq<char>| #[trigger]
                self.group_fresh(id, now, ttl) ==> self.groups[id].name != name,
        }
    }

    /// Whether `found` are groups that are stored and list `member`, each once.
    pub open spec fn lists_groups_of(self, member: Seq<char>, found: Seq<Group>) -> bool {
        &&& forall|i: int|
            0 <= i < found.len() ==> self.has_group((#[trigger] found[i])@) && self.members.contains(
                (found[i]@.external_id, member),
            )
        &&& forall|i: int, j: int|
            0 <= i < j < found.len() ==> (#[trigger] found[i])@.external_id != (
            #[trigger] found[j])@.external_id
    }

    /// Whether `found` are the fresh groups that list `member`, each once.
    pub open spec fn finds_groups_of(
        self,
        member: Seq<char>,
        now: i64,
        ttl: u64,
        found: Seq<Group>,
    ) -> bool {
        &&& self.lists_groups_of(member, found)
        &&& forall|i: int|
            0 <= i < found.len() ==> self.group_fresh(
                (#[trigger] found[i])@.external_id,
                now,
                ttl,
            )
        &&& forall|id: Seq<char>| #[trigger]
            self.group_fresh(id, now, ttl) && self.members.contains((id, member)) ==> exists|i: int|
                0 <= i < found.len() && (#[trigger] found[i])@.external_id == id
    }

    /// The UIDs that have an owner, expired or not.
    pub open spec fn uids(self) -> Set<u32> {
        Set::new(
            |uid: u32|
                exists|id: Seq<char>| #[trigger]
                    self.users.contains_key(id) && self.users[id].uid == uid,
        )
    }

    /// The GIDs that have an owner, expired or not.
    pub open spec fn gids(self) -> Set<u32> {
        Set::new(
            |gid: u32|
                exists|id: Seq<char>| #[trigger]
                    self.groups.contains_key(id) && self.groups[id].gid == gid,
        )
    }

    /// Whether `uid` is the UID for `external_id`: the one it has, or the first
    /// free slot where it has none.
    pub open spec fn resolves_uid(
        self,
        external_id: Seq<char>,
        range_min: u32,
        range_size: u32,
        uid: u32,
    ) -> bool {
        if self.users.contains_key(external_id) {
            uid == self.users[external_id].uid
        } else {
            first_free(self.uids(), external_id, range_min, range_size, uid)
        }
    }

    /// Whether `gid` is the GID for `external_id`: the one it has, or the first
    /// free slot where it has none.
    pub open spec fn resolves_gid(
        self,
        external_id: Seq<char>,
        range_min: u32,
        range_size: u32,
        gid: u32,
    ) -> bool {
        if self.groups.contains_key(external_id) {
            gid == self.groups[external_id].gid
        } else {
            first_free(self.gids(), external_id, range_min, range_size, gid)
        }
    }

    /// Whether there is no UID for `external_id`: it has none, and the range has none
    /// left.
    pub open spec fn uid_exhausted(
        self,
        external_id: Seq<char>,
        range_min: u32,
        range_size: u32,
    ) -> bool {
        &&& !self.users.contains_key(external_id)
        &&& all_taken(self.uids(), external_id, range_min, range_size)
    }

    /// Whether there is no GID for `external_id`: it has none, and the range has none
    /// left.
    pub open spec fn gid_exhausted(
        self,
        external_id: Seq<char>,
        range_min: u32,
        range_size: u32,
    ) -> bool {
        &&& !self.groups.contains_key(external_id)
        &&& all_taken(self.gids(), external_id, range_min, range_size)
    }

    /// The tables after `group` has been stored at `now` with the first `n` of
    /// its members.
    pub open spec fn put_group_with(self, group: GroupView, now: i64, n: int) -> Tables {
        let put = self.put_group(group.external_id, group_row(group, now)).clear_members(
            group.external_id,
        );
        Tables {
            members: Set::new(
                |p: (Seq<char>, Seq<char>)|
                    put.members.contains(p) || (p.0 == group.external_id && group.members.take(
                        n,
                    ).contains(p.1)),
            ),
            ..put
        }
    }

    /// The tables without anything that has expired at `now`.
    pub open spec fn purge(self, now: i64, ttl: u64) -> Tables {
        self.purge_groups(now, ttl).purge_users(now, ttl)
    }
}

/// Whether `id` is the first slot of the probe sequence of `external_id` that
/// is not taken.
pub open spec fn first_free(
    taken: Set<u32>,
    external_id: Seq<char>,
    range_min: u32,
    range_size: u32,
    id: u32,
) -> bool {
    exists|n: int|
        0 <= n < range_size && id == #[trigger] probe_slot(external_id, range_min, range_size, n)
            && !taken.contains(id) && forall|j: int|
            0 <= j < n ==> taken.contains(
                #[trigger] probe_slot(external_id, range_min, range_size, j),
            )
}

/// Whether every slot of the probe sequence of `external_id` is taken.
pub open spec fn all_taken(
    taken: Set<u32>,
    external_id: Seq<char>,
    range_min: u32,
    range_size: u32,
) -> bool {
    forall|j: int|
        0 <= j < range_size ==> taken.contains(
            #[trigger] probe_slot(external_id, range_min, range_size, j),
        )
}

/// What has to be done about the permissions of a cache file.
#[derive(Debug, Clone, Copy, PartialEq, Eq, Structural)]
pub enum Harden {
    /// Nothing: its mode is `0600`.
    Keep,
    /// Set its mode to `0600`; the field holds its present permission bits.
    SetMode(u32),
}

/// Enforce restrictive ownership and permissions on the cache file: decide what
/// to do about a file of which the system told `stat`, or gave this message
/// where it could not tell.
///
/// The file has to be a regular file. Where `root_required` holds, as it does on
/// Linux, it has to be owned by root. Its mode is to be `0600`.
pub fn harden_cache_file(path: &str, stat: Result<FileMeta, String>, root_required: bool) -> (res:
    Result<Harden, CacheError>)
    ensures
        match stat {
            Err(reason) => res matches Err(CacheError::InsecurePermissions { path: p, detail })
                && p@ == path@ && detail@ == "cannot stat file: "@ + reason@,
            Ok(meta) => if !meta.regular {
                res matches Err(CacheError::InsecurePermissions { path: p, detail }) && p@ == path@
                    && detail@ == "not a regular file"@
            } else if root_required && meta.uid != 0 {
                res matches Err(CacheError::InsecurePermissions { path: p, detail }) && p@ == path@
                    && detail@ == not_root_text(meta.uid)
            } else if meta.mode & 0o777 != 0o600 {
                res == Ok::<Harden, CacheError>(Harden::SetMode(meta.mode & 0o777))
            } else {
                res == Ok::<Harden, CacheError>(Harden::Keep)
            },
        },
{
    let meta: FileMeta = match stat {
        Err(reason) => {
            let mut detail = "cannot stat file: ".to_owned();
            detail.append(reason.as_str());
            return Err(CacheError::InsecurePermissions { path: path.to_owned(), detail });
        },
        Ok(meta) => meta,
    };
    if !meta.regular {
        return Err(
            CacheError::InsecurePermissions {
                path: path.to_owned(),
                detail: "not a regular file".to_owned(),
            },
        );
    }
    if root_required && meta.uid != 0 {
        return Err(
            CacheError::InsecurePermissions {
                path: path.to_owned(),
                detail: not_root_detail(meta.uid),
            },
        );
    }
    let mode: u32 = meta.mode & 0o777;
    if mode != 0o600 {
        Ok(Harden::SetMode(mode))
    } else {
        Ok(Harden::Keep)
    }
}

/// What comes of the attempt to set the mode of a cache file to `0600`: where
/// the system refused with this message, the file is refused too.
pub fn cache_file_hardened(path: &str, mode: u32, chmod: Result<(), String>) -> (res: Result<
    (),
    CacheError,
>)
    ensures
        match chmod {
            Ok(_) => res is Ok,
            Err(reason) => res matches Err(CacheError::InsecurePermissions { path: p, detail })
                && p@ == path@ && detail@ == "permissions "@ + octal_mode(mode)
                + " are too open and could not be corrected: "@ + reason@ + ". Run: chmod 600 "@
                + path@,
        },
{
    match chmod {
        Ok(_) => Ok(()),
        Err(reason) => {
            let bits = octal_mode_text(mode);
            let mut detail = join3(
                "permissions ",
                bits.as_str(),
                " are too open and could not be corrected: ",
            );
            detail.append(reason.as_str());
            detail.append(". Run: chmod 600 ");
            detail.append(path);
            Err(CacheError::InsecurePermissions { path: path.to_owned(), detail })
        },
    }
}

/// SQLite-backed local cache for UID/GID reverse lookups.
pub struct Cache {
    conn: Connection,
    /// Cache entry TTL in seconds. Entries older than this are treated as misses.
    ttl_seconds: u64,
}

impl View for Cache {
    type V = Tables;

    /// What the cache holds, expired or not. Contracts speak of it only where
    /// the cache is [`Cache::exclusive`].
    closed spec fn view(&self) -> Tables {
        tables(self.conn)
    }
}

impl Cache {
    /// Whether nothing but this value changes what the cache holds, and nothing but a
    /// cache has written it. A cache on `:memory:` is exclusive; of a database file it is
    /// for the caller to know.
    pub closed spec fn exclusive(&self) -> bool {
        exclusive(self.conn)
    }

    /// The path of the database.
    pub closed spec fn path(&self) -> Seq<char> {
        database_path(self.conn)
    }

    /// Whether the database has been set up: its journal has been switched to
    /// write-ahead logging, and its tables have been created.
    pub closed spec fn set_up(&self) -> bool {
        journal_switched(self.conn) && has_tables(self.conn)
    }

    /// Whether `new` is this cache later on: on the same database, set up if it was,
    /// with the same time to live.
    pub open spec fn same_cache(&self, new: &Cache) -> bool {
        &&& new.exclusive() == self.exclusive()
        &&& new.path() == self.path()
        &&& self.set_up() ==> new.set_up()
        &&& new.ttl() == self.ttl()
    }

    /// Whether the cache holds what the tables behind `conn` hold.
    pub open spec fn keeps_tables_of(&self, conn: Connection) -> bool {
        &&& self.exclusive() == exclusive(conn)
        &&& self.path() == database_path(conn)
        &&& self.exclusive() ==> self@ == tables(conn)
    }

    /// Whether a reading of the clock that the cache goes by may give `now`.
    pub closed spec fn reads_clock(&self, now: i64) -> bool {
        clock_reads(self.conn, now)
    }

    /// How many seconds an entry is good for.
    pub closed spec fn ttl(&self) -> u64 {
        self.ttl_seconds
    }

    /// No two users share a UID, no two groups share a GID, and members belong
    /// to groups that are there.
    pub open spec fn wf(&self) -> bool {
        self.exclusive() ==> self@.wf()
    }

    /// How an operation on the cache leaves it: it is the same cache and stays well
    /// formed, and if it is exclusive it holds `after`.
    pub open spec fn becomes(&self, new: &Cache, after: Tables) -> bool {
        &&& self.same_cache(new)
        &&& self.wf() ==> new.wf()
        &&& self.exclusive() ==> new@ == after
    }

    /// What a search for a user by uid at `now` may find: what was asked for, what
    /// the cache holds, and what is fresh.
    pub open spec fn user_by_uid_answer(&self, uid: u32, now: i64, found: Option<User>) -> bool {
        &&& self.ttl() <= i64::MAX
        &&& found matches Some(user) ==> user.uid == uid
        &&& self.exclusive() ==> (found matches Some(user) ==> self@.has_user(user@))
        &&& self.exclusive() && cutoff_exact(now, self.ttl()) ==> self@.finds_user_by_uid(
            uid,
            now,
            self.ttl(),
            user_view(found),
        )
    }

    /// What a search for a user by name at `now` may find: what was asked for, what
    /// the cache holds, and what is fresh.
    pub open spec fn user_by_name_answer(&self, name: Seq<char>, now: i64, found: Option<User>) -> bool {
        &&& self.ttl() <= i64::MAX
        &&& found matches Some(user) ==> user.name@ == name
        &&& self.exclusive() ==> (found matches Some(user) ==> self@.has_user(user@))
        &&& self.exclusive() && cutoff_exact(now, self.ttl()) ==> self@.finds_user_by_name(
            name,
            now,
            self.ttl(),
            user_view(found),
        )
    }

    /// What a search for a group by gid at `now` may find: what was asked for, what
    /// the cache holds, and what is fresh.
    pub open spec fn group_by_gid_answer(&self, gid: u32, now: i64, found: Option<Group>) -> bool {
        &&& self.ttl() <= i64::MAX
        &&& found matches Some(group) ==> group.gid == gid
        &&& self.exclusive() ==> (found matches Some(group) ==> self@.has_group(group@))
        &&& self.exclusive() && cutoff_exact(now, self.ttl()) ==> self@.finds_group_by_gid(
            gid,
            now,
            self.ttl(),
            group_view(found),
        )
    }

    /// What a search for a group by name at `now` may find: what was asked for, what
    /// the cache holds, and what is fresh.
    pub open spec fn group_by_name_answer(&self, name: Seq<char>, now: i64, found: Option<Group>) -> bool {
        &&& self.ttl() <= i64::MAX
        &&& found matches Some(group) ==> group.name@ == name
        &&& self.exclusive() ==> (found matches Some(group) ==> self@.has_group(group@))
        &&& self.exclusive() && cutoff_exact(now, self.ttl()) ==> self@.finds_group_by_name(
            name,
            now,
            self.ttl(),
            group_view(found),
        )
    }

    /// What a search for the groups of a member at `now` may find: groups that the
    /// cache holds, and the fresh ones.
    pub open spec fn groups_of_answer(&self, member: Seq<char>, now: i64, found: Seq<Group>) -> bool {
        &&& self.ttl() <= i64::MAX
        &&& self.exclusive() ==> self@.lists_groups_of(member, found)
        &&& self.exclusive() && cutoff_exact(now, self.ttl()) ==> self@.finds_groups_of(
            member,
            now,
            self.ttl(),
            found,
        )
    }

    /// Open (or create) the cache database at the given path.
    ///
    /// After opening a database file, `harden` is asked to tighten its
    /// permissions, and if it refuses the file, so does this function. The
    /// `:memory:` path has no file and skips that step. What the database held when it
    /// was opened, it still holds.
    pub fn open(
        path: &str,
        ttl_seconds: u64,
        harden: impl FnOnce(&str) -> Result<(), CacheError>,
    ) -> (res: Result<Cache, CacheError>)
        requires
            path@ != ":memory:"@ ==> call_requires(harden, (path,)),
        ensures
            res matches Ok(cache) ==> {
                &&& cache.path() == path@
                &&& cache.set_up()
                &&& cache.ttl() == ttl_seconds
                &&& cache.wf()
                &&& path@ == ":memory:"@ ==> cache.exclusive() && cache@ == Tables::empty()
                &&& path@ != ":memory:"@ ==> call_ensures(harden, (path,), Ok(()))
                &&& exists|conn: Connection| #[trigger]
                    opens(path, conn) && cache.keeps_tables_of(conn)
            },
            res matches Err(e) ==> e is Sqlite || (path@ != ":memory:"@ && call_ensures(
                harden,
                (path,),
                Err(e),
            )),
    {
        let mut conn: Connection = match store::connect(path) {
            Ok(conn) => conn,
            Err(e) => return Err(CacheError::Sqlite(e)),
        };
        if !same_text(path, ":memory:") {
            match harden(path) {
                Ok(done) => {
                    assert(done == ());
                },
                Err(e) => return Err(e),
            }
        }
        match store::enable_wal(&mut conn) {
            Ok(_) => {},
            Err(e) => return Err(CacheError::Sqlite(e)),
        }
        match store::create_tables(&mut conn) {
            Ok(_) => {},
            Err(e) => return Err(CacheError::Sqlite(e)),
        }
        let cache = Cache { conn, ttl_seconds };
        assert(path@ == ":memory:"@ ==> cache@ == Tables::empty());
        assert(cache.wf());
        Ok(cache)
    }

    /// Open an in-memory cache (useful for tests).
    pub fn open_in_memory() -> (res: Result<Cache, CacheError>)
        ensures
            res matches Ok(cache) ==> {
                &&& cache.path() == ":memory:"@
                &&& cache.set_up()
                &&& cache.ttl() == 3600
                &&& cache.wf()
                &&& cache.exclusive()
                &&& cache@ == Tables::empty()
            },
            res matches Err(e) ==> e is Sqlite,
    {
        Cache::open(
            ":memory:",
            3600,
            |_path: &str| -> (res: Result<(), CacheError>) { Ok(()) },
        )
    }

    /// Check if a UID slot is taken.
    /// Returns `None` (free), `Some(true)` (ours), or `Some(false)` (other).
    fn uid_owner(&self, uid: u32, external_id: &str) -> (res: Result<Option<bool>, CacheError>)
        ensures
            res matches Err(e) ==> e is Sqlite,
            self.exclusive() ==> (res matches Ok(found) ==> {
                &&& found is Some <==> self@.uids().contains(uid)
                &&& found == Some(true) ==> self@.users.contains_key(external_id@)
            }),
    {
        match store::select_uid_owner(&self.conn, uid) {
            Ok(Some(owner)) => Ok(Some(same_text(owner.as_str(), external_id))),
            Ok(None) => Ok(None),
            Err(e) => Err(CacheError::Sqlite(e)),
        }
    }

    /// Check if a GID slot is taken.
    fn gid_owner(&self, gid: u32, external_id: &str) -> (res: Result<Option<bool>, CacheError>)
        ensures
            res matches Err(e) ==> e is Sqlite,
            self.exclusive() ==> (res matches Ok(found) ==> {
                &&& found is Some <==> self@.gids().contains(gid)
                &&& found == Some(true) ==> self@.groups.contains_key(external_id@)
            }),
    {
        match store::select_gid_owner(&self.conn, gid) {
            Ok(Some(owner)) => Ok(Some(same_text(owner.as_str(), external_id))),
            Ok(None) => Ok(None),
            Err(e) => Err(CacheError::Sqlite(e)),
        }
    }

    /// Resolve a collision-free UID for `external_id` using linear probing.
    ///
    /// Returns the existing UID if this `external_id` is already cached,
    /// otherwise probes for the first free slot in the UID range.
    pub fn resolve_uid(&self, external_id: &str, range_min: u32, range_size: u32) -> (res: Result<
        u32,
        CacheError,
    >)
        requires
            valid_range(range_min, range_size),
        ensures
            res matches Err(e) ==> e is Sqlite || e is RangeExhausted,
            self.exclusive() ==> match res {
                Ok(uid) => self@.resolves_uid(external_id@, range_min, range_size, uid),
                Err(CacheError::RangeExhausted) => self@.uid_exhausted(
                    external_id@,
                    range_min,
                    range_size,
                ),
                Err(_) => true,
            },
    {
        match store::select_uid(&self.conn, external_id) {
            Ok(Some(uid)) => return Ok(uid),
            Ok(None) => {},
            Err(e) => return Err(CacheError::Sqlite(e)),
        }
        let is_taken = |candidate: u32| -> (owner: Result<Option<bool>, CacheError>)
            ensures
                owner matches Err(e) ==> e is Sqlite,
                self.exclusive() ==> (owner matches Ok(found) ==> {
                    &&& found is Some <==> self@.uids().contains(candidate)
                    &&& found == Some(true) ==> self@.users.contains_key(external_id@)
                }),
            { self.uid_owner(candidate, external_id) };
        probe_id(external_id, range_min, range_size, is_taken)
    }

    /// Resolve a collision-free GID for `external_id` using linear probing.
    ///
    /// Returns the existing GID if this `external_id` is already cached,
    /// otherwise probes for the first free slot in the GID range.
    pub fn resolve_gid(&self, external_id: &str, range_min: u32, range_size: u32) -> (res: Result<
        u32,
        CacheError,
    >)
        requires
            valid_range(range_min, range_size),
        ensures
            res matches Err(e) ==> e is Sqlite || e is RangeExhausted,
            self.exclusive() ==> match res {
                Ok(gid) => self@.resolves_gid(external_id@, range_min, range_size, gid),
                Err(CacheError::RangeExhausted) => self@.gid_exhausted(
                    external_id@,
                    range_min,
                    range_size,
                ),
                Err(_) => true,
            },
    {
        match store::select_gid(&self.conn, external_id) {
            Ok(Some(gid)) => return Ok(gid),
            Ok(None) => {},
            Err(e) => return Err(CacheError::Sqlite(e)),
        }
        let is_taken = |candidate: u32| -> (owner: Result<Option<bool>, CacheError>)
            ensures
                owner matches Err(e) ==> e is Sqlite,
                self.exclusive() ==> (owner matches Ok(found) ==> {
                    &&& found is Some <==> self@.gids().contains(candidate)
                    &&& found == Some(true) ==> self@.groups.contains_key(external_id@)
                }),
            { self.gid_owner(candidate, external_id) };
        probe_id(external_id, range_min, range_size, is_taken)
    }

    /// SQLite's idea of the time, in seconds of the Unix epoch: a reading of its clock.
    pub fn now(&self) -> (res: Result<i64, CacheError>)
        ensures
            res matches Err(e) ==> e is Sqlite,
            res matches Ok(now) ==> self.reads_clock(now) && clock_time(now),
    {
        match store::read_clock(&self.conn) {
            Ok(now) => Ok(now),
            Err(e) => Err(CacheError::Sqlite(e)),
        }
    }

    /// Store a user in the cache.
    pub fn store_user(&mut self, user: &User) -> (res: Result<(), CacheError>)
        ensures
            res matches Err(e) ==> e is Sqlite,
            res is Ok ==> exists|now: i64| #[trigger]
                old(self).reads_clock(now) && clock_time(now) && old(self).becomes(
                    final(self),
                    old(self)@.put_user(user@.external_id, user_row(user@, now)),
                ),
            res is Err ==> old(self).becomes(final(self), old(self)@),
    {
        let now: i64 = self.now()?;
        self.store_user_at(user, now)
    }

    /// Store a user in the cache, as of `now`.
    ///
    /// The user takes the place of the user with the same external id and of the
    /// user with the same UID.
    pub fn store_user_at(&mut self, user: &User, now: i64) -> (res: Result<(), CacheError>)
        ensures
            res matches Err(e) ==> e is Sqlite,
            old(self).becomes(
                final(self),
                if res is Ok {
                    old(self)@.put_user(user@.external_id, user_row(user@, now))
                } else {
                    old(self)@
                },
            ),
    {
        let res = store::insert_user(
            &mut self.conn,
            user.external_id.as_str(),
            user.name.as_str(),
            user.uid,
            user.gecos.as_str(),
            user.home.as_str(),
            user.shell.as_str(),
            user.gid,
            user.active,
            now,
        );
        proof {
            if old(self)@.wf() {
                lemma_put_user_wf(old(self)@, user@.external_id, user_row(user@, now));
            }
        }
        match res {
            Ok(_) => Ok(()),
            Err(e) => Err(CacheError::Sqlite(e)),
        }
    }

    /// Store a group in the cache, including its member list.
    pub fn store_group(&mut self, group: &Group) -> (res: Result<(), CacheError>)
        ensures
            res matches Err(e) ==> e is Sqlite,
            res is Ok ==> exists|now: i64| #[trigger]
                old(self).reads_clock(now) && clock_time(now) && old(self).group_stored(
                    final(self),
                    group@,
                    now,
                ),
            res is Err ==> exists|now: i64| #[trigger]
                clock_time(now) && (old(self).reads_clock(now) || old(self).becomes(
                    final(self),
                    old(self)@,
                )) && old(self).group_not_stored(final(self), group@, now),
    {
        let now: i64 = match self.now() {
            Ok(now) => now,
            Err(e) => {
                assert(clock_time(0) && old(self).group_not_stored(self, group@, 0));
                return Err(e);
            },
        };
        let res = self.store_group_at(group, now);
        assert(res is Ok ==> old(self).group_stored(self, group@, now));
        assert(res is Err ==> old(self).group_not_stored(self, group@, now));
        res
    }

    /// How storing `group` at `now` leaves the cache: the group and its members
    /// are stored, and no member was given twice.
    pub open spec fn group_stored(&self, new: &Cache, group: GroupView, now: i64) -> bool {
        &&& self.becomes(new, self@.put_group_with(group, now, group.members.len() as int))
        &&& self.exclusive() ==> group.members.no_duplicates()
    }

    /// How failing to store `group` at `now` leaves the cache: either as it was,
    /// or with the group stored, or with the first few of its members too.
    pub open spec fn group_not_stored(&self, new: &Cache, group: GroupView, now: i64) -> bool {
        ||| self.becomes(new, self@)
        ||| self.becomes(new, self@.put_group(group.external_id, group_row(group, now)))
        ||| exists|n: int|
            0 <= n < group.members.len() + 1 && self.becomes(
                new,
                #[trigger] self@.put_group_with(group, now, n),
            )
    }

    /// Store a group in the cache as of `now`, including its member list.
    ///
    /// The group takes the place of the group with the same external id and of
    /// the group with the same GID, with their members. A member that is given
    /// twice makes it fail.
    pub fn store_group_at(&mut self, group: &Group, now: i64) -> (res: Result<(), CacheError>)
        ensures
            res matches Err(e) ==> e is Sqlite,
            res is Ok ==> old(self).group_stored(final(self), group@, now),
            res is Err ==> old(self).group_not_stored(final(self), group@, now),
    {
        let ghost before = *self;
        let ghost id = group@.external_id;
        let ghost put = before@.put_group(id, group_row(group@, now));
        proof {
            if before@.wf() {
                lemma_put_group_wf(before@, id, group_row(group@, now));
            }
        }
        match store::insert_group(
            &mut self.conn,
            group.external_id.as_str(),
            group.name.as_str(),
            group.gid,
            now,
        ) {
            Ok(_) => {},
            Err(e) => {
                assert(before.becomes(self, before@));
                return Err(CacheError::Sqlite(e));
            },
        }
        assert(put.clear_members(id) == before@.put_group_with(group@, now, 0));
        assert(before.becomes(self, put));
        match store::delete_members(&mut self.conn, group.external_id.as_str()) {
            Ok(_) => {},
            Err(e) => {
                assert(before.becomes(self, put));
                return Err(CacheError::Sqlite(e));
            },
        }
        for i in 0..group.members.len()
            invariant
                before == *old(self),
                id == group@.external_id,
                before.becomes(self, before@.put_group_with(group@, now, i as int)),
                before.exclusive() ==> group@.members.take(i as int).no_duplicates(),
        {
            let ghost at = before@.put_group_with(group@, now, i as int);
            let ghost next = before@.put_group_with(group@, now, i + 1);
            let ghost name = group@.members[i as int];
            proof {
                assert(group@.members.take(i + 1) == group@.members.take(i as int).push(name));
                assert(group@.members.take(i + 1).contains(name)) by {
                    assert(group@.members.take(i + 1)[i as int] == name);
                }
                assert(at.add_member(id, name) =~= next) by {
                    assert forall|p: (Seq<char>, Seq<char>)|
                        at.members.insert((id, name)).contains(p) <==> next.members.contains(p) by {
                        lemma_take_one_more(group@.members, i as int, p.1);
                    }
                }
            }
            match store::insert_member(
                &mut self.conn,
                group.external_id.as_str(),
                group.members[i].as_str(),
            ) {
                Ok(_) => {},
                Err(e) => {
                    assert(before.becomes(self, before@.put_group_with(group@, now, i as int)));
                    return Err(CacheError::Sqlite(e));
                },
            }
        }
        assert(group@.members.take(group@.members.len() as int) == group@.members);
        Ok(())
    }

    /// Look up a user by UID from the cache (respects TTL).
    pub fn get_user_by_uid(&self, uid: u32) -> (res: Result<Option<User>, CacheError>)
        ensures
            res matches Err(e) ==> e is Sqlite,
            res matches Ok(found) ==> exists|now: i64| #[trigger]
                self.reads_clock(now) && clock_time(now) && self.user_by_uid_answer(uid, now, found),
    {
        let now: i64 = self.now()?;
        self.get_user_by_uid_at(uid, now)
    }

    /// Look up a user by UID among the entries that are fresh at `now`.
    pub fn get_user_by_uid_at(&self, uid: u32, now: i64) -> (res: Result<
        Option<User>,
        CacheError,
    >)
        ensures
            res matches Err(e) ==> e is Sqlite,
            res matches Ok(found) ==> self.user_by_uid_answer(uid, now, found),
    {
        match store::select_user_by_uid(&self.conn, uid, now, self.ttl_seconds) {
            Ok(Some(cols)) => Ok(Some(user_of(cols))),
            Ok(None) => Ok(None),
            Err(e) => Err(CacheError::Sqlite(e)),
        }
    }

    /// Look up a user by login name from the cache (respects TTL).
    pub fn get_user_by_name(&self, name: &str) -> (res: Result<Option<User>, CacheError>)
        ensures
            res matches Err(e) ==> e is Sqlite,
            res matches Ok(found) ==> exists|now: i64| #[trigger]
                self.reads_clock(now) && clock_time(now) && self.user_by_name_answer(name@, now, found),
    {
        let now: i64 = self.now()?;
        self.get_user_by_name_at(name, now)
    }

    /// Look up a user by login name among the entries that are fresh at `now`.
    pub fn get_user_by_name_at(&self, name: &str, now: i64) -> (res: Result<
        Option<User>,
        CacheError,
    >)
        ensures
            res matches Err(e) ==> e is Sqlite,
            res matches Ok(found) ==> self.user_by_name_answer(name@, now, found),
    {
        match store::select_user_by_name(&self.conn, name, now, self.ttl_seconds) {
            Ok(Some(cols)) => Ok(Some(user_of(cols))),
            Ok(None) => Ok(None),
            Err(e) => Err(CacheError::Sqlite(e)),
        }
    }

    /// Load group members from the cache.
    fn get_group_members(&self, external_id: &str) -> (res: Result<Vec<String>, CacheError>)
        ensures
            res matches Err(e) ==> e is Sqlite,
            self.exclusive() ==> (res matches Ok(names) ==> lists_members(
                self@.members,
                external_id@,
                texts(names@),
            )),
    {
        match store::select_members(&self.conn, external_id) {
            Ok(names) => Ok(names),
            Err(e) => Err(CacheError::Sqlite(e)),
        }
    }

    /// The group with these columns and the members that the cache holds of it.
    fn group_of(&self, cols: GroupColumns) -> (res: Result<Group, CacheError>)
        ensures
            res matches Err(e) ==> e is Sqlite,
            res matches Ok(group) ==> {
                &&& group@.external_id == cols.0@
                &&& group@.name == cols.1@
                &&& group@.gid == cols.2
                &&& self.exclusive() ==> lists_members(
                    self@.members,
                    group@.external_id,
                    group@.members,
                )
            },
    {
        let (external_id, name, gid) = cols;
        let members = self.get_group_members(external_id.as_str())?;
        Ok(Group { external_id, name, gid, members })
    }

    /// Look up a group by GID from the cache (respects TTL).
    pub fn get_group_by_gid(&self, gid: u32) -> (res: Result<Option<Group>, CacheError>)
        ensures
            res matches Err(e) ==> e is Sqlite,
            res matches Ok(found) ==> exists|now: i64| #[trigger]
                self.reads_clock(now) && clock_time(now) && self.group_by_gid_answer(gid, now, found),
    {
        let now: i64 = self.now()?;
        self.get_group_by_gid_at(gid, now)
    }

    /// Look up a group by GID among the entries that are fresh at `now`.
    pub fn get_group_by_gid_at(&self, gid: u32, now: i64) -> (res: Result<
        Option<Group>,
        CacheError,
    >)
        ensures
            res matches Err(e) ==> e is Sqlite,
            res matches Ok(found) ==> self.group_by_gid_answer(gid, now, found),
    {
        match store::select_group_by_gid(&self.conn, gid, now, self.ttl_seconds) {
            Ok(Some(cols)) => {
                let group = self.group_of(cols)?;
                Ok(Some(group))
            },
            Ok(None) => Ok(None),
            Err(e) => Err(CacheError::Sqlite(e)),
        }
    }

    /// Look up a group by name from the cache (respects TTL).
    pub fn get_group_by_name(&self, name: &str) -> (res: Result<Option<Group>, CacheError>)
        ensures
            res matches Err(e) ==> e is Sqlite,
            res matches Ok(found) ==> exists|now: i64| #[trigger]
                self.reads_clock(now) && clock_time(now) && self.group_by_name_answer(name@, now, found),
    {
        let now: i64 = self.now()?;
        self.get_group_by_name_at(name, now)
    }

    /// Look up a group by name among the entries that are fresh at `now`.
    pub fn get_group_by_name_at(&self, name: &str, now: i64) -> (res: Result<
        Option<Group>,
        CacheError,
    >)
        ensures
            res matches Err(e) ==> e is Sqlite,
            res matches Ok(found) ==> self.group_by_name_answer(name@, now, found),
    {
        match store::select_group_by_name(&self.conn, name, now, self.ttl_seconds) {
            Ok(Some(cols)) => {
                let group = self.group_of(cols)?;
                Ok(Some(group))
            },
            Ok(None) => Ok(None),
            Err(e) => Err(CacheError::Sqlite(e)),
        }
    }

    /// Return all cached groups that contain `member_name` (respects TTL).
    ///
    /// Used for offline `initgroups` fallback: given a login name, find every
    /// group whose `group_members` row lists that name, then return their GIDs.
    pub fn get_groups_for_member(&self, member_name: &str) -> (res: Result<Vec<Group>, CacheError>)
        ensures
            res matches Err(e) ==> e is Sqlite,
            res matches Ok(groups) ==> exists|now: i64| #[trigger]
                self.reads_clock(now) && clock_time(now) && self.groups_of_answer(member_name@, now, groups@),
    {
        let now: i64 = self.now()?;
        self.get_groups_for_member_at(member_name, now)
    }

    /// Return the groups that contain `member_name` and are fresh at `now`.
    pub fn get_groups_for_member_at(&self, member_name: &str, now: i64) -> (res: Result<
        Vec<Group>,
        CacheError,
    >)
        ensures
            res matches Err(e) ==> e is Sqlite,
            res matches Ok(groups) ==> self.groups_of_answer(member_name@, now, groups@),
    {
        let rows: Vec<GroupColumns> = match store::select_groups_of(
            &self.conn,
            member_name,
            now,
            self.ttl_seconds,
        ) {
            Ok(rows) => rows,
            Err(e) => return Err(CacheError::Sqlite(e)),
        };
        let ghost found = rows@;
        let mut groups: Vec<Group> = Vec::new();
        for cols in it: rows
            invariant
                it.seq() == found,
                groups@.len() == it.index(),
                forall|i: int|
                    0 <= i < groups@.len() ==> {
                        &&& (#[trigger] groups@[i])@.external_id == found[i].0@
                        &&& groups@[i]@.name == found[i].1@
                        &&& groups@[i]@.gid == found[i].2
                        &&& self.exclusive() ==> lists_members(
                            self@.members,
                            groups@[i]@.external_id,
                            groups@[i]@.members,
                        )
                    },
        {
            let group = self.group_of(cols)?;
            groups.push(group);
        }
        proof {
            if self.exclusive() && cutoff_exact(now, self.ttl()) {
                assert forall|id: Seq<char>| #[trigger]
                    self@.group_fresh(id, now, self.ttl()) && self@.members.contains(
                        (id, member_name@),
                    ) implies exists|i: int|
                    0 <= i < groups@.len() && (#[trigger] groups@[i])@.external_id == id by {
                    assert(self@.groups.contains_key(id));
                    let i = choose|i: int| 0 <= i < found.len() && (#[trigger] found[i]).0@ == id;
                    assert(groups@[i]@.external_id == id);
                }
            }
        }
        Ok(groups)
    }

    /// Purge cache entries older than `ttl_seconds`.
    pub fn purge_expired(&mut self, ttl_seconds: u64) -> (res: Result<(), CacheError>)
        ensures
            res matches Err(e) ==> e is Sqlite,
            res is Ok ==> ttl_seconds <= i64::MAX,
            old(self).shrinks_to(final(self)),
            exists|now: i64| #[trigger]
                clock_time(now) && (old(self).reads_clock(now) || (res is Err && old(self).becomes(
                    final(self),
                    old(self)@,
                ))) && (cutoff_exact(now, ttl_seconds) ==> old(self).purged(
                    final(self),
                    now,
                    ttl_seconds,
                    res is Ok,
                )),
    {
        let now: i64 = match self.now() {
            Ok(now) => now,
            Err(e) => {
                assert(clock_time(0));
                return Err(e);
            },
        };
        self.purge_expired_at(ttl_seconds, now)
    }

    /// How any purge leaves the cache: with nothing new or changed, and well
    /// formed if it was.
    pub open spec fn shrinks_to(&self, new: &Cache) -> bool {
        &&& self.same_cache(new)
        &&& self.wf() ==> new.wf()
        &&& self.exclusive() ==> {
            &&& subtable(new@.users, self@.users)
            &&& subtable(new@.groups, self@.groups)
            &&& new@.members.subset_of(self@.members)
        }
    }

    /// How purging at `now` leaves the cache: without all that has expired where
    /// it succeeds; where it fails, without some of it (members go before groups
    /// and groups before users).
    pub open spec fn purged(&self, new: &Cache, now: i64, ttl: u64, ok: bool) -> bool {
        if ok {
            self.becomes(new, self@.purge(now, ttl))
        } else {
            ||| self.becomes(new, self@)
            ||| self.becomes(new, self@.purge_members(now, ttl))
            ||| self.becomes(new, self@.purge_groups(now, ttl))
        }
    }

    /// Purge cache entries that at `now` are older than `ttl_seconds`.
    pub fn purge_expired_at(&mut self, ttl_seconds: u64, now: i64) -> (res: Result<(), CacheError>)
        ensures
            res matches Err(e) ==> e is Sqlite,
            res is Ok ==> ttl_seconds <= i64::MAX,
            old(self).shrinks_to(final(self)),
            cutoff_exact(now, ttl_seconds) ==> old(self).purged(
                final(self),
                now,
                ttl_seconds,
                res is Ok,
            ),
    {
        let ghost before = self@;
        match store::delete_expired_members(&mut self.conn, now, ttl_seconds) {
            Ok(_) => {},
            Err(e) => return Err(CacheError::Sqlite(e)),
        }
        assert(before.purge_members(now, ttl_seconds).purge_groups(now, ttl_seconds)
            == before.purge_groups(now, ttl_seconds));
        match store::delete_expired_groups(&mut self.conn, now, ttl_seconds) {
            Ok(_) => {},
            Err(e) => return Err(CacheError::Sqlite(e)),
        }
        match store::delete_expired_users(&mut self.conn, now, ttl_seconds) {
            Ok(_) => Ok(()),
            Err(e) => Err(CacheError::Sqlite(e)),
        }
    }
}

/// The time that a cache goes by is a reading of the clock of its connection.
pub proof fn lemma_time_is_read(cache: &Cache, now: i64)
    requires
        cache.reads_clock(now),
    ensures
        exists|conn: Connection| #[trigger]
            clock_reads(conn, now) && cache.keeps_tables_of(conn),
{
}

/// A cache that has been set up is one on a connection whose journal was switched to
/// write-ahead logging and through which the tables were created.
pub proof fn lemma_set_up(cache: &Cache)
    requires
        cache.set_up(),
    ensures
        exists|conn: Connection| #[trigger]
            journal_switched(conn) && has_tables(conn) && cache.keeps_tables_of(conn),
{
}

/// Whatever is stored or purged, a cache stays on its database, set up as it was and with
/// its time to live, and UIDs and GIDs stay unique.
pub proof fn lemma_cache_stays(before: &Cache, after: &Cache, t: Tables)
    requires
        before.becomes(after, t) || before.shrinks_to(after),
    ensures
        after.path() == before.path(),
        after.ttl() == before.ttl(),
        after.exclusive() == before.exclusive(),
        before.set_up() ==> after.set_up(),
        before.shrinks_to(after) && before.wf() ==> after.wf(),
        before.becomes(after, t) && before.exclusive() ==> after@ == t,
{
}

/// The user with these columns.
fn user_of(cols: UserColumns) -> (user: User)
    ensures
        user@.external_id == cols.0@,
        user@.name == cols.1@,
        user@.uid == cols.2,
        user@.gid == cols.3,
        user@.gecos == cols.4@,
        user@.home == cols.5@,
        user@.shell == cols.6@,
        user@.active == cols.7,
{
    let (external_id, name, uid, gid, gecos, home, shell, active) = cols;
    User { external_id, name, uid, gid, gecos, home, shell, active }
}

/// The first `n + 1` items are the first `n` and the one at `n`.
proof fn lemma_take_one_more(items: Seq<Seq<char>>, n: int, item: Seq<char>)
    requires
        0 <= n < items.len(),
    ensures
        items.take(n + 1).contains(item) <==> (items.take(n).contains(item) || item == items[n]),
{
    let more = items.take(n + 1);
    if more.contains(item) {
        let i = choose|i: int| 0 <= i < more.len() && more[i] == item;
        if i < n {
            assert(items.take(n)[i] == item);
        }
    }
    if items.take(n).contains(item) {
        let i = choose|i: int| 0 <= i < n && items.take(n)[i] == item;
        assert(more[i] == item);
    }
    assert(more[n] == items[n]);
}

/// Storing a group keeps GIDs unique, and members in groups that are there.
pub proof fn lemma_put_group_wf(t: Tables, id: Seq<char>, row: GroupRow)
    requires
        t.wf(),
    ensures
        t.put_group(id, row).wf(),
{
}

/// Storing a group with its members keeps GIDs unique, and members in groups that are
/// there.
pub proof fn lemma_put_group_with_wf(t: Tables, group: GroupView, now: i64, n: int)
    requires
        t.wf(),
    ensures
        t.put_group_with(group, now, n).wf(),
{
    lemma_put_group_wf(t, group.external_id, group_row(group, now));
}

/// Storing a user keeps UIDs unique.
pub proof fn lemma_put_user_wf(t: Tables, id: Seq<char>, row: UserRow)
    requires
        t.wf(),
    ensures
        t.put_user(id, row).wf(),
{
}

/// What was stored of a user is read back by UID for as long as it is fresh.
pub proof fn lemma_user_read_back(
    t: Tables,
    user: UserView,
    now: i64,
    later: i64,
    ttl: u64,
    found: Option<UserView>,
)
    requires
        t.wf(),
        fresh(now, later, ttl),
        t.put_user(user.external_id, user_row(user, now)).finds_user_by_uid(
            user.uid,
            later,
            ttl,
            found,
        ),
    ensures
        found == Some(user),
{
    let after = t.put_user(user.external_id, user_row(user, now));
    lemma_put_user_wf(t, user.external_id, user_row(user, now));
    assert(after.users.contains_key(user.external_id));
    assert(after.user_fresh(user.external_id, later, ttl));
    assert(after.users[user.external_id].uid == user.uid);
    match found {
        Some(u) => {
            assert(after.users[u.external_id].uid == user.uid);
            assert(u.external_id == user.external_id);
        },
        None => {},
    }
}

/// What was stored of a user is read back by login name for as long as it is
/// fresh, unless another user has that name too.
pub proof fn lemma_user_read_back_by_name(
    t: Tables,
    user: UserView,
    now: i64,
    later: i64,
    ttl: u64,
    found: Option<UserView>,
)
    requires
        fresh(now, later, ttl),
        t.put_user(user.external_id, user_row(user, now)).finds_user_by_name(
            user.name,
            later,
            ttl,
            found,
        ),
    ensures
        found is Some,
        found->0.name == user.name,
        found->0.external_id == user.external_id ==> found == Some(user),
        (forall|id: Seq<char>|
            id != user.external_id && #[trigger] t.users.contains_key(id) ==> t.users[id].login
                != user.name) ==> found == Some(user),
{
    let after = t.put_user(user.external_id, user_row(user, now));
    assert(after.user_fresh(user.external_id, later, ttl));
    match found {
        Some(u) => {
            if u.external_id != user.external_id {
                assert(after.users.contains_key(u.external_id));
                assert(t.users.contains_key(u.external_id));
            }
        },
        None => {},
    }
}

/// What was stored of a group is read back by GID for as long as it is fresh,
/// with the same members in some order.
pub proof fn lemma_group_read_back(
    t: Tables,
    group: GroupView,
    now: i64,
    later: i64,
    ttl: u64,
    found: Option<GroupView>,
)
    requires
        t.wf(),
        fresh(now, later, ttl),
        t.put_group_with(group, now, group.members.len() as int).finds_group_by_gid(
            group.gid,
            later,
            ttl,
            found,
        ),
    ensures
        found is Some,
        found->0.external_id == group.external_id,
        found->0.name == group.name,
        found->0.gid == group.gid,
        found->0.members.no_duplicates(),
        forall|m: Seq<char>|
            #[trigger] found->0.members.contains(m) <==> group.members.contains(m),
{
    let id = group.external_id;
    let after = t.put_group_with(group, now, group.members.len() as int);
    lemma_put_group_wf(t, id, group_row(group, now));
    assert(after.group_fresh(id, later, ttl));
    assert(after.groups[id].gid == group.gid);
    assert(group.members.take(group.members.len() as int) == group.members);
    match found {
        Some(g) => {
            assert(after.groups[g.external_id].gid == group.gid);
            assert(g.external_id == id);
            assert forall|m: Seq<char>|
                #[trigger] g.members.contains(m) <==> group.members.contains(m) by {
                assert(g.members.contains(m) <==> after.members.contains((id, m)));
            }
        },
        None => {},
    }
}

/// What was stored of a group is read back by name for as long as it is fresh, with
/// the same members in some order, unless another group has that name too.
pub proof fn lemma_group_read_back_by_name(
    t: Tables,
    group: GroupView,
    now: i64,
    later: i64,
    ttl: u64,
    found: Option<GroupView>,
)
    requires
        t.wf(),
        forall|id: Seq<char>|
            id != group.external_id && #[trigger] t.groups.contains_key(id) ==> t.groups[id].name
                != group.name,
        fresh(now, later, ttl),
        t.put_group_with(group, now, group.members.len() as int).finds_group_by_name(
            group.name,
            later,
            ttl,
            found,
        ),
    ensures
        found is Some,
        found->0.external_id == group.external_id,
        found->0.name == group.name,
        found->0.gid == group.gid,
        found->0.members.no_duplicates(),
        forall|m: Seq<char>|
            #[trigger] found->0.members.contains(m) <==> group.members.contains(m),
{
    let id = group.external_id;
    let after = t.put_group_with(group, now, group.members.len() as int);
    assert(after.group_fresh(id, later, ttl));
    match found {
        Some(g) => {
            if g.external_id != id {
                assert(t.groups.contains_key(g.external_id));
            }
            assert(after.finds_group_by_gid(group.gid, later, ttl, found));
            lemma_group_read_back(t, group, now, later, ttl, found);
        },
        None => {},
    }
}

/// A group that was stored is among the groups of each of its members for as long as
/// it is fresh.
pub proof fn lemma_group_found_by_member(
    t: Tables,
    group: GroupView,
    now: i64,
    later: i64,
    ttl: u64,
    member: Seq<char>,
    found: Seq<Group>,
)
    requires
        group.members.contains(member),
        fresh(now, later, ttl),
        t.put_group_with(group, now, group.members.len() as int).finds_groups_of(
            member,
            later,
            ttl,
            found,
        ),
    ensures
        exists|i: int|
            0 <= i < found.len() && (#[trigger] found[i])@.external_id == group.external_id
                && found[i]@.gid == group.gid,
{
    let id = group.external_id;
    let after = t.put_group_with(group, now, group.members.len() as int);
    assert(group.members.take(group.members.len() as int) == group.members);
    assert(after.group_fresh(id, later, ttl) && after.members.contains((id, member)));
    let i = choose|i: int| 0 <= i < found.len() && (#[trigger] found[i])@.external_id == id;
    assert(after.has_group(found[i]@));
}

/// A user whose entry has expired is not found by UID.
pub proof fn lemma_expired_user_is_a_miss(
    t: Tables,
    id: Seq<char>,
    now: i64,
    ttl: u64,
    found: Option<UserView>,
)
    requires
        t.wf(),
        t.users.contains_key(id),
        !t.user_fresh(id, now, ttl),
        t.finds_user_by_uid(t.users[id].uid, now, ttl, found),
    ensures
        found is None,
{
    match found {
        Some(u) => {
            assert(t.users[u.external_id].uid == t.users[id].uid);
        },
        None => {},
    }
}

/// A group whose entry has expired is not found by GID.
pub proof fn lemma_expired_group_is_a_miss(
    t: Tables,
    id: Seq<char>,
    now: i64,
    ttl: u64,
    found: Option<GroupView>,
)
    requires
        t.wf(),
        t.groups.contains_key(id),
        !t.group_fresh(id, now, ttl),
        t.finds_group_by_gid(t.groups[id].gid, now, ttl, found),
    ensures
        found is None,
{
    match found {
        Some(g) => {
            assert(t.groups[g.external_id].gid == t.groups[id].gid);
        },
        None => {},
    }
}

/// Purging removes the users and groups that have expired, and keeps those that
/// are fresh as they were, groups with their members.
pub proof fn lemma_purge_is_exact(t: Tables, now: i64, ttl: u64, id: Seq<char>, member: Seq<char>)
    requires
        t.wf(),
    ensures
        t.purge(now, ttl).wf(),
        t.purge(now, ttl).users.contains_key(id) <==> t.user_fresh(id, now, ttl),
        t.user_fresh(id, now, ttl) ==> t.purge(now, ttl).users[id] == t.users[id],
        t.purge(now, ttl).groups.contains_key(id) <==> t.group_fresh(id, now, ttl),
        t.group_fresh(id, now, ttl) ==> t.purge(now, ttl).groups[id] == t.groups[id],
        t.purge(now, ttl).members.contains((id, member)) <==> t.group_fresh(id, now, ttl)
            && t.members.contains((id, member)),
{
    let after = t.purge(now, ttl);
    assert forall|g: Seq<char>, m: Seq<char>| #[trigger]
        after.members.contains((g, m)) implies after.groups.contains_key(g) by {
        assert(t.members.contains((g, m)));
    }
}

/// A second purge at the same time changes nothing.
pub proof fn lemma_purge_twice(t: Tables, now: i64, ttl: u64)
    requires
        t.wf(),
    ensures
        t.purge(now, ttl).purge(now, ttl) == t.purge(now, ttl),
{
    let once = t.purge(now, ttl);
    let twice = once.purge(now, ttl);
    assert(twice.users =~= once.users);
    assert(twice.groups =~= once.groups);
    assert(twice.members =~= once.members);
}

/// Purging with the cache's own time to live changes no answer about users: a search
/// by UID or by name finds after it what it found before it.
pub proof fn lemma_purge_changes_no_answer(
    t: Tables,
    uid: u32,
    name: Seq<char>,
    now: i64,
    ttl: u64,
    found: Option<UserView>,
)
    requires
        t.wf(),
    ensures
        t.purge(now, ttl).finds_user_by_uid(uid, now, ttl, found) <==> t.finds_user_by_uid(
            uid,
            now,
            ttl,
            found,
        ),
        t.purge(now, ttl).finds_user_by_name(name, now, ttl, found) <==> t.finds_user_by_name(
            name,
            now,
            ttl,
            found,
        ),
{
    let after = t.purge(now, ttl);
    assert forall|id: Seq<char>|
        #![trigger after.user_fresh(id, now, ttl)]
        #![trigger t.user_fresh(id, now, ttl)]
        after.user_fresh(id, now, ttl) == t.user_fresh(id, now, ttl) && (t.user_fresh(id, now, ttl)
            ==> after.users[id] == t.users[id]) by {
        lemma_purge_is_exact(t, now, ttl, id, id);
    }
    if let Some(user) = found {
        assert(after.user_fresh(user.external_id, now, ttl) == t.user_fresh(
            user.external_id,
            now,
            ttl,
        ));
    }
}

/// Purging with the cache's own time to live changes no answer about groups: a search
/// by GID or by name finds after it what it found before it, with the same members.
pub proof fn lemma_purge_changes_no_group_answer(
    t: Tables,
    gid: u32,
    name: Seq<char>,
    now: i64,
    ttl: u64,
    found: Option<GroupView>,
)
    requires
        t.wf(),
    ensures
        t.purge(now, ttl).finds_group_by_gid(gid, now, ttl, found) <==> t.finds_group_by_gid(
            gid,
            now,
            ttl,
            found,
        ),
        t.purge(now, ttl).finds_group_by_name(name, now, ttl, found) <==> t.finds_group_by_name(
            name,
            now,
            ttl,
            found,
        ),
{
    let after = t.purge(now, ttl);
    assert forall|id: Seq<char>|
        #![trigger after.group_fresh(id, now, ttl)]
        #![trigger t.group_fresh(id, now, ttl)]
        after.group_fresh(id, now, ttl) == t.group_fresh(id, now, ttl) && (t.group_fresh(
            id,
            now,
            ttl,
        ) ==> after.groups[id] == t.groups[id]) by {
        lemma_purge_is_exact(t, now, ttl, id, id);
    }
    if let Some(group) = found {
        let id = group.external_id;
        assert(after.group_fresh(id, now, ttl) == t.group_fresh(id, now, ttl));
        if t.group_fresh(id, now, ttl) {
            assert forall|m: Seq<char>| after.members.contains((id, m)) == t.members.contains(
                (id, m),
            ) by {
                lemma_purge_is_exact(t, now, ttl, id, m);
            }
            assert(after.has_group(group) == t.has_group(group));
        }
    }
}

/// A slot found by probing lies in the range.
pub proof fn lemma_first_free_in_range(
    taken: Set<u32>,
    external_id: Seq<char>,
    range_min: u32,
    range_size: u32,
    id: u32,
)
    requires
        valid_range(range_min, range_size),
        first_free(taken, external_id, range_min, range_size, id),
    ensures
        range_min <= id < range_min + range_size,
        !taken.contains(id),
{
    let n = choose|n: int|
        0 <= n < range_size && id == #[trigger] probe_slot(external_id, range_min, range_size, n)
            && !taken.contains(id);
    lemma_probe_in_range(external_id, range_min, range_size, n);
}

/// Probing finds a slot exactly where the range has one that is not taken.
pub proof fn lemma_exhausted_iff_range_full(
    taken: Set<u32>,
    external_id: Seq<char>,
    range_min: u32,
    range_size: u32,
)
    requires
        valid_range(range_min, range_size),
    ensures
        all_taken(taken, external_id, range_min, range_size) <==> forall|slot: u32|
            range_min <= slot < range_min + range_size ==> #[trigger] taken.contains(slot),
{
    if all_taken(taken, external_id, range_min, range_size) {
        assert forall|slot: u32| range_min <= slot < range_min + range_size implies
            #[trigger] taken.contains(slot) by {
            let n = lemma_probe_covers_range(external_id, range_min, range_size, slot);
        }
    }
    if forall|slot: u32|
        range_min <= slot < range_min + range_size ==> #[trigger] taken.contains(slot) {
        assert forall|j: int| 0 <= j < range_size implies taken.contains(
            #[trigger] probe_slot(external_id, range_min, range_size, j),
        ) by {
            lemma_probe_in_range(external_id, range_min, range_size, j);
        }
    }
}

/// Two probes from the same state find the same slot.
pub proof fn lemma_first_free_unique(
    taken: Set<u32>,
    external_id: Seq<char>,
    range_min: u32,
    range_size: u32,
    a: u32,
    b: u32,
)
    requires
        first_free(taken, external_id, range_min, range_size, a),
        first_free(taken, external_id, range_min, range_size, b),
    ensures
        a == b,
{
    let n = choose|n: int|
        0 <= n < range_size && a == #[trigger] probe_slot(external_id, range_min, range_size, n)
            && !taken.contains(a) && forall|j: int|
            0 <= j < n ==> taken.contains(
                #[trigger] probe_slot(external_id, range_min, range_size, j),
            );
    let m = choose|n: int|
        0 <= n < range_size && b == #[trigger] probe_slot(external_id, range_min, range_size, n)
            && !taken.contains(b) && forall|j: int|
            0 <= j < n ==> taken.contains(
                #[trigger] probe_slot(external_id, range_min, range_size, j),
            );
    if n < m {
        assert(taken.contains(probe_slot(external_id, range_min, range_size, n)));
    }
    if m < n {
        assert(taken.contains(probe_slot(external_id, range_min, range_size, m)));
    }
}

/// Storing a user under the UID that was resolved for it takes no other user's
/// place, and the same UID is resolved for it from then on.
pub proof fn lemma_resolved_uid_is_stable(
    t: Tables,
    user: UserView,
    now: i64,
    range_min: u32,
    range_size: u32,
)
    requires
        t.wf(),
        t.resolves_uid(user.external_id, range_min, range_size, user.uid),
    ensures
        ({
            let after = t.put_user(user.external_id, user_row(user, now));
            &&& after.users == t.users.insert(user.external_id, user_row(user, now))
            &&& forall|uid: u32| #[trigger]
                after.resolves_uid(user.external_id, range_min, range_size, uid) <==> uid == user.uid
        }),
{
    let after = t.put_user(user.external_id, user_row(user, now));
    assert forall|k: Seq<char>| after.users.contains_key(k) <==> t.users.insert(
        user.external_id,
        user_row(user, now),
    ).contains_key(k) by {
        if t.users.contains_key(k) && k != user.external_id && t.users[k].uid == user.uid {
            if t.users.contains_key(user.external_id) {
                assert(t.users[user.external_id].uid == t.users[k].uid);
            } else {
                assert(t.uids().contains(user.uid));
            }
        }
    }
    assert(after.users =~= t.users.insert(user.external_id, user_row(user, now)));
}

/// Storing a group under the GID that was resolved for it takes no other
/// group's place, and the same GID is resolved for it from then on.
pub proof fn lemma_resolved_gid_is_stable(
    t: Tables,
    group: GroupView,
    now: i64,
    range_min: u32,
    range_size: u32,
)
    requires
        t.wf(),
        t.resolves_gid(group.external_id, range_min, range_size, group.gid),
    ensures
        ({
            let after = t.put_group_with(group, now, group.members.len() as int);
            &&& after.groups == t.groups.insert(group.external_id, group_row(group, now))
            &&& forall|gid: u32| #[trigger]
                after.resolves_gid(group.external_id, range_min, range_size, gid) <==> gid
                    == group.gid
            &&& forall|k: Seq<char>, m: Seq<char>|
                k != group.external_id ==> (#[trigger] after.members.contains((k, m))
                    <==> t.members.contains((k, m)))
        }),
{
    let id = group.external_id;
    let after = t.put_group_with(group, now, group.members.len() as int);
    assert forall|k: Seq<char>|
        t.groups.contains_key(k) && k != id implies #[trigger] t.groups[k].gid != group.gid by {
        if t.groups[k].gid == group.gid {
            if t.groups.contains_key(id) {
                assert(t.groups[id].gid == t.groups[k].gid);
            } else {
                assert(t.gids().contains(group.gid));
            }
        }
    }
    assert(after.groups =~= t.groups.insert(id, group_row(group, now)));
}

/// Probing starts at the slot that an identifier hashes to: where it is not taken, it
/// is what is found.
proof fn lemma_home_slot_comes_first(
    taken: Set<u32>,
    external_id: Seq<char>,
    min: u32,
    size: u32,
    id: u32,
)
    requires
        valid_range(min, size),
        !taken.contains(home_slot(external_id, min, size)),
        first_free(taken, external_id, min, size, id),
    ensures
        id == home_slot(external_id, min, size),
{
    let home = home_slot(external_id, min, size);
    lemma_probe_in_range(external_id, min, size, 0);
    let hash = murmur3_32_of(external_id, 0) % size;
    assert(home == min + hash);
    vstd::arithmetic::div_mod::lemma_small_mod((home - min) as nat, size as nat);
    assert(probe_slot(external_id, min, size, 0) == home);
    assert(first_free(taken, external_id, min, size, home));
    lemma_first_free_unique(taken, external_id, min, size, id, home);
}

/// Servers with the same ranges agree without talking to each other: wherever
/// nobody else holds the slot that an identifier hashes to, that slot is what a
/// new identifier is resolved to, be it a UID or a GID.
pub proof fn lemma_servers_agree(t: Tables, external_id: Seq<char>, min: u32, size: u32, id: u32)
    requires
        valid_range(min, size),
    ensures
        !t.users.contains_key(external_id) && !t.uids().contains(home_slot(external_id, min, size))
            && t.resolves_uid(external_id, min, size, id) ==> id == home_slot(
            external_id,
            min,
            size,
        ),
        !t.groups.contains_key(external_id) && !t.gids().contains(home_slot(external_id, min, size))
            && t.resolves_gid(external_id, min, size, id) ==> id == home_slot(
            external_id,
            min,
            size,
        ),
{
    let home = home_slot(external_id, min, size);
    if !t.users.contains_key(external_id) && !t.uids().contains(home) && t.resolves_uid(
        external_id,
        min,
        size,
        id,
    ) {
        lemma_home_slot_comes_first(t.uids(), external_id, min, size, id);
    }
    if !t.groups.contains_key(external_id) && !t.gids().contains(home) && t.resolves_gid(
        external_id,
        min,
        size,
        id,
    ) {
        lemma_home_slot_comes_first(t.gids(), external_id, min, size, id);
    }
}

/// Opening a database loses nothing: a user that the database held when it was opened is
/// found by its UID, with all that was stored of it, for as long as the entry is younger
/// than the time to live.
pub proof fn lemma_opening_loses_no_user(
    path: &str,
    conn: Connection,
    cache: &Cache,
    id: Seq<char>,
    now: i64,
    found: Option<User>,
)
    requires
        opens(path, conn),
        cache.keeps_tables_of(conn),
        exclusive(conn),
        tables(conn).wf(),
        user_table(conn).contains_key(id),
        now - user_table(conn)[id].cached_at < cache.ttl(),
        now - cache.ttl() >= i64::MIN,
        cache.user_by_uid_answer(user_table(conn)[id].uid, now, found),
    ensures
        found matches Some(user) && user.external_id@ == id && user.name@ == user_table(
            conn,
        )[id].login && user.uid == user_table(conn)[id].uid && user.gid == user_table(conn)[id].gid
            && user.gecos@ == user_table(conn)[id].gecos && user.home@ == user_table(conn)[id].home
            && user.shell@ == user_table(conn)[id].shell && user.active == user_table(
            conn,
        )[id].active,
{
    let t = tables(conn);
    assert(t.user_fresh(id, now, cache.ttl()));
    if let Some(user) = found {
        assert(t.users[user.external_id@].uid == t.users[id].uid);
    }
}

/// Opening a database loses nothing: it is the same database, with the same users, groups
/// and members.
pub proof fn lemma_opening_keeps_all(path: &str, conn: Connection, cache: &Cache)
    requires
        opens(path, conn),
        cache.keeps_tables_of(conn),
    ensures
        cache.path() == database_path(conn),
        cache.exclusive() <==> exclusive(conn),
        exclusive(conn) ==> cache@.users == user_table(conn) && cache@.groups == group_table(conn)
            && cache@.members == member_table(conn),
{
}

/// A search for a user by UID finds a user that the cache holds, with all that it holds of
/// it, and only one that is younger than the time to live; it finds none only where the
/// cache holds none with that UID but older ones.
pub proof fn lemma_user_found_by_uid(cache: &Cache, uid: u32, now: i64, found: Option<User>)
    requires
        cache.user_by_uid_answer(uid, now, found),
        cache.exclusive(),
        now - cache.ttl() >= i64::MIN,
    ensures
        match found {
            Some(user) => {
                &&& user.uid == uid
                &&& cache@.users.contains_key(user.external_id@)
                &&& cache@.users[user.external_id@].login == user.name@
                &&& cache@.users[user.external_id@].uid == uid
                &&& cache@.users[user.external_id@].gid == user.gid
                &&& cache@.users[user.external_id@].gecos == user.gecos@
                &&& cache@.users[user.external_id@].home == user.home@
                &&& cache@.users[user.external_id@].shell == user.shell@
                &&& cache@.users[user.external_id@].active == user.active
                &&& now - cache@.users[user.external_id@].cached_at < cache.ttl()
            },
            None => forall|id: Seq<char>| #[trigger]
                cache@.users.contains_key(id) && cache@.users[id].uid == uid ==> now
                    - cache@.users[id].cached_at >= cache.ttl(),
        },
{
    if found is None {
        assert forall|id: Seq<char>| #[trigger]
            cache@.users.contains_key(id) && cache@.users[id].uid == uid implies now
            - cache@.users[id].cached_at >= cache.ttl() by {
            assert(!cache@.user_fresh(id, now, cache.ttl()));
        }
    } else {
        assert(cache@.user(found->0.external_id@) == found->0@);
    }
}

/// A search for a user by name finds a user that the cache holds, with all that it holds
/// of it, and only one that is younger than the time to live; it finds none only where the
/// cache holds none with that name but older ones.
pub proof fn lemma_user_found_by_name(
    cache: &Cache,
    name: Seq<char>,
    now: i64,
    found: Option<User>,
)
    requires
        cache.user_by_name_answer(name, now, found),
        cache.exclusive(),
        now - cache.ttl() >= i64::MIN,
    ensures
        match found {
            Some(user) => {
                &&& user.name@ == name
                &&& cache@.users.contains_key(user.external_id@)
                &&& cache@.users[user.external_id@].login == name
                &&& cache@.users[user.external_id@].uid == user.uid
                &&& cache@.users[user.external_id@].gid == user.gid
                &&& cache@.users[user.external_id@].gecos == user.gecos@
                &&& cache@.users[user.external_id@].home == user.home@
                &&& cache@.users[user.external_id@].shell == user.shell@
                &&& cache@.users[user.external_id@].active == user.active
                &&& now - cache@.users[user.external_id@].cached_at < cache.ttl()
            },
            None => forall|id: Seq<char>| #[trigger]
                cache@.users.contains_key(id) && cache@.users[id].login == name ==> now
                    - cache@.users[id].cached_at >= cache.ttl(),
        },
{
    if found is None {
        assert forall|id: Seq<char>| #[trigger]
            cache@.users.contains_key(id) && cache@.users[id].login == name implies now
            - cache@.users[id].cached_at >= cache.ttl() by {
            assert(!cache@.user_fresh(id, now, cache.ttl()));
        }
    } else {
        assert(cache@.user(found->0.external_id@) == found->0@);
    }
}

/// A search for a group by GID finds a group that the cache holds, with the members that it
/// holds of it and no others, and only one that is younger than the time to live; it finds
/// none only where the cache holds none with that GID but older ones.
pub proof fn lemma_group_found_by_gid(cache: &Cache, gid: u32, now: i64, found: Option<Group>)
    requires
        cache.group_by_gid_answer(gid, now, found),
        cache.exclusive(),
        now - cache.ttl() >= i64::MIN,
    ensures
        match found {
            Some(group) => {
                &&& group.gid == gid
                &&& cache@.groups.contains_key(group.external_id@)
                &&& cache@.groups[group.external_id@].name == group.name@
                &&& cache@.groups[group.external_id@].gid == gid
                &&& now - cache@.groups[group.external_id@].cached_at < cache.ttl()
                &&& members_listed(cache@.members, group.external_id@, group.members@)
            },
            None => forall|id: Seq<char>| #[trigger]
                cache@.groups.contains_key(id) && cache@.groups[id].gid == gid ==> now
                    - cache@.groups[id].cached_at >= cache.ttl(),
        },
{
    match found {
        None => {
            assert forall|id: Seq<char>| #[trigger]
                cache@.groups.contains_key(id) && cache@.groups[id].gid == gid implies now
                - cache@.groups[id].cached_at >= cache.ttl() by {
                assert(!cache@.group_fresh(id, now, cache.ttl()));
            }
        },
        Some(group) => {
            lemma_members_listed(cache@.members, group.external_id@, group.members@);
        },
    }
}

/// A search for a group by name finds a group that the cache holds, with the members that
/// it holds of it and no others, and only one that is younger than the time to live; it
/// finds none only where the cache holds none with that name but older ones.
pub proof fn lemma_group_found_by_name(
    cache: &Cache,
    name: Seq<char>,
    now: i64,
    found: Option<Group>,
)
    requires
        cache.group_by_name_answer(name, now, found),
        cache.exclusive(),
        now - cache.ttl() >= i64::MIN,
    ensures
        match found {
            Some(group) => {
                &&& group.name@ == name
                &&& cache@.groups.contains_key(group.external_id@)
                &&& cache@.groups[group.external_id@].name == name
                &&& cache@.groups[group.external_id@].gid == group.gid
                &&& now - cache@.groups[group.external_id@].cached_at < cache.ttl()
                &&& members_listed(cache@.members, group.external_id@, group.members@)
            },
            None => forall|id: Seq<char>| #[trigger]
                cache@.groups.contains_key(id) && cache@.groups[id].name == name ==> now
                    - cache@.groups[id].cached_at >= cache.ttl(),
        },
{
    match found {
        None => {
            assert forall|id: Seq<char>| #[trigger]
                cache@.groups.contains_key(id) && cache@.groups[id].name == name implies now
                - cache@.groups[id].cached_at >= cache.ttl() by {
                assert(!cache@.group_fresh(id, now, cache.ttl()));
            }
        },
        Some(group) => {
            lemma_members_listed(cache@.members, group.external_id@, group.members@);
        },
    }
}

/// Whether `names` are the members that `members` has of the group `id`: each of them is
/// one, each one is among them, and no two are the same.
pub open spec fn members_listed(
    members: Set<(Seq<char>, Seq<char>)>,
    id: Seq<char>,
    names: Seq<String>,
) -> bool {
    &&& forall|i: int| 0 <= i < names.len() ==> members.contains((id, (#[trigger] names[i])@))
    &&& forall|m: Seq<char>| #[trigger]
        members.contains((id, m)) ==> exists|i: int| 0 <= i < names.len() && (#[trigger] names[i])@ == m
    &&& forall|i: int, j: int|
        0 <= i < j < names.len() ==> (#[trigger] names[i])@ != (#[trigger] names[j])@
}

/// The members of a group are listed exactly if each name is of a member, each member has
/// its name among them, and no name comes twice.
pub proof fn lemma_members_listed(
    members: Set<(Seq<char>, Seq<char>)>,
    id: Seq<char>,
    names: Seq<String>,
)
    requires
        lists_members(members, id, texts(names)),
    ensures
        members_listed(members, id, names),
        forall|i: int| 0 <= i < names.len() ==> members.contains((id, (#[trigger] names[i])@)),
        forall|m: Seq<char>| #[trigger]
            members.contains((id, m)) ==> exists|i: int|
                0 <= i < names.len() && (#[trigger] names[i])@ == m,
        forall|i: int, j: int|
            0 <= i < j < names.len() ==> (#[trigger] names[i])@ != (#[trigger] names[j])@,
{
    let all = texts(names);
    assert forall|i: int| 0 <= i < names.len() implies members.contains(
        (id, (#[trigger] names[i])@),
    ) by {
        assert(all[i] == names[i]@);
        assert(all.contains(names[i]@));
    }
    assert forall|m: Seq<char>| #[trigger] members.contains((id, m)) implies exists|i: int|
        0 <= i < names.len() && (#[trigger] names[i])@ == m by {
        assert(all.contains(m));
        let i = choose|i: int| 0 <= i < all.len() && all[i] == m;
        assert(names[i]@ == m);
    }
    assert forall|i: int, j: int| 0 <= i < j < names.len() implies (#[trigger] names[i])@ != (
    #[trigger] names[j])@ by {
        assert(all[i] != all[j]);
    }
}

/// A search for the groups of a member finds exactly the groups that the cache holds, that
/// list the member and that are younger than the time to live, each once and with all its
/// members.
pub proof fn lemma_groups_found_of(
    cache: &Cache,
    member: Seq<char>,
    now: i64,
    found: Seq<Group>,
)
    requires
        cache.groups_of_answer(member, now, found),
        cache.exclusive(),
        now - cache.ttl() >= i64::MIN,
    ensures
        forall|i: int|
            0 <= i < found.len() ==> {
                let group = #[trigger] found[i];
                &&& cache@.groups.contains_key(group.external_id@)
                &&& cache@.groups[group.external_id@].name == group.name@
                &&& cache@.groups[group.external_id@].gid == group.gid
                &&& now - cache@.groups[group.external_id@].cached_at < cache.ttl()
                &&& cache@.members.contains((group.external_id@, member))
                &&& members_listed(cache@.members, group.external_id@, group.members@)
            },
        forall|i: int, j: int|
            0 <= i < j < found.len() ==> (#[trigger] found[i]).external_id@ != (
            #[trigger] found[j]).external_id@,
        forall|id: Seq<char>| #[trigger]
            cache@.groups.contains_key(id) && cache@.members.contains((id, member)) && now
                - cache@.groups[id].cached_at < cache.ttl() ==> exists|i: int|
                0 <= i < found.len() && (#[trigger] found[i]).external_id@ == id,
{
    assert forall|i: int| 0 <= i < found.len() implies {
        let group = #[trigger] found[i];
        &&& cache@.groups.contains_key(group.external_id@)
        &&& cache@.groups[group.external_id@].name == group.name@
        &&& cache@.groups[group.external_id@].gid == group.gid
        &&& now - cache@.groups[group.external_id@].cached_at < cache.ttl()
        &&& cache@.members.contains((group.external_id@, member))
        &&& members_listed(cache@.members, group.external_id@, group.members@)
    } by {
        let group = found[i];
        assert(cache@.has_group(group@));
        assert(cache@.group_fresh(group@.external_id, now, cache.ttl()));
        lemma_members_listed(cache@.members, group.external_id@, group.members@);
    }
    assert forall|i: int, j: int| 0 <= i < j < found.len() implies (#[trigger] found[i]).external_id@
        != (#[trigger] found[j]).external_id@ by {
        assert(found[i]@.external_id != found[j]@.external_id);
    }
    assert forall|id: Seq<char>| #[trigger]
        cache@.groups.contains_key(id) && cache@.members.contains((id, member)) && now
            - cache@.groups[id].cached_at < cache.ttl() implies exists|i: int|
        0 <= i < found.len() && (#[trigger] found[i]).external_id@ == id by {
        assert(cache@.group_fresh(id, now, cache.ttl()));
        let i = choose|i: int| 0 <= i < found.len() && (#[trigger] found[i])@.external_id == id;
        assert(found[i].external_id@ == id);
    }
}

/// Storing a user puts its entry in the cache, with all that is known of it and the time;
/// what held the same UID is gone, every other user stays as it was, and so do all groups.
pub proof fn lemma_user_is_stored(before: &Cache, after: &Cache, user: &User, now: i64)
    requires
        before.becomes(after, before@.put_user(user@.external_id, user_row(user@, now))),
        before.exclusive(),
    ensures
        after.exclusive(),
        after.ttl() == before.ttl(),
        after@.users.contains_key(user.external_id@),
        after@.users[user.external_id@].login == user.name@,
        after@.users[user.external_id@].uid == user.uid,
        after@.users[user.external_id@].gid == user.gid,
        after@.users[user.external_id@].gecos == user.gecos@,
        after@.users[user.external_id@].home == user.home@,
        after@.users[user.external_id@].shell == user.shell@,
        after@.users[user.external_id@].active == user.active,
        after@.users[user.external_id@].cached_at == now,
        forall|id: Seq<char>|
            id != user.external_id@ ==> (#[trigger] after@.users.contains_key(id)
                <==> before@.users.contains_key(id) && before@.users[id].uid != user.uid),
        forall|id: Seq<char>| #[trigger]
            after@.users.contains_key(id) && id != user.external_id@ ==> after@.users[id]
                == before@.users[id],
        after@.groups == before@.groups,
        after@.members == before@.members,
{
}

/// Storing a group puts its entry in the cache, with its members and no others; a member
/// that is given twice makes it fail; what held the same GID is gone with its members,
/// every other group stays as it was with its members, and so do all users.
pub proof fn lemma_group_is_stored(before: &Cache, after: &Cache, group: &Group, now: i64)
    requires
        before.group_stored(after, group@, now),
        before.exclusive(),
    ensures
        after.exclusive(),
        after.ttl() == before.ttl(),
        after@.groups.contains_key(group.external_id@),
        after@.groups[group.external_id@].name == group.name@,
        after@.groups[group.external_id@].gid == group.gid,
        after@.groups[group.external_id@].cached_at == now,
        forall|i: int|
            0 <= i < group.members@.len() ==> after@.members.contains(
                (group.external_id@, (#[trigger] group.members@[i])@),
            ),
        forall|m: Seq<char>| #[trigger]
            after@.members.contains((group.external_id@, m)) ==> exists|i: int|
                0 <= i < group.members@.len() && (#[trigger] group.members@[i])@ == m,
        forall|i: int, j: int|
            0 <= i < j < group.members@.len() ==> (#[trigger] group.members@[i])@ != (
            #[trigger] group.members@[j])@,
        forall|id: Seq<char>|
            id != group.external_id@ ==> (#[trigger] after@.groups.contains_key(id)
                <==> before@.groups.contains_key(id) && before@.groups[id].gid != group.gid),
        forall|id: Seq<char>| #[trigger]
            after@.groups.contains_key(id) && id != group.external_id@ ==> after@.groups[id]
                == before@.groups[id],
        forall|id: Seq<char>, m: Seq<char>|
            id != group.external_id@ && before@.groups.contains_key(id) && before@.groups[id].gid
                != group.gid ==> (#[trigger] after@.members.contains((id, m))
                <==> before@.members.contains((id, m))),
        forall|id: Seq<char>, m: Seq<char>|
            id != group.external_id@ && before@.groups.contains_key(id) && before@.groups[id].gid
                == group.gid ==> !#[trigger] after@.members.contains((id, m)),
        after@.users == before@.users,
{
    let names = group@.members;
    assert(names.take(names.len() as int) =~= names);
    assert forall|i: int| 0 <= i < group.members@.len() implies after@.members.contains(
        (group.external_id@, (#[trigger] group.members@[i])@),
    ) by {
        assert(names[i] == group.members@[i]@);
        assert(names.contains(names[i]));
    }
    assert forall|m: Seq<char>| #[trigger]
        after@.members.contains((group.external_id@, m)) implies exists|i: int|
        0 <= i < group.members@.len() && (#[trigger] group.members@[i])@ == m by {
        let i = choose|i: int| 0 <= i < names.len() && names[i] == m;
        assert(group.members@[i]@ == m);
    }
    assert forall|i: int, j: int| 0 <= i < j < group.members@.len() implies (
    #[trigger] group.members@[i])@ != (#[trigger] group.members@[j])@ by {
        assert(names[i] != names[j]);
    }
}

/// Purging keeps exactly the users and groups that are younger than the time to live, each
/// as it was, and exactly the members of the groups that it keeps.
pub proof fn lemma_purged_exactly(before: &Cache, after: &Cache, now: i64, ttl: u64)
    requires
        before.purged(after, now, ttl, true),
        before.exclusive(),
        before.wf(),
    ensures
        after.exclusive(),
        after.ttl() == before.ttl(),
        forall|id: Seq<char>| #[trigger]
            after@.users.contains_key(id) <==> before@.users.contains_key(id) && now
                - before@.users[id].cached_at < ttl,
        forall|id: Seq<char>| #[trigger]
            after@.users.contains_key(id) ==> after@.users[id] == before@.users[id],
        forall|id: Seq<char>| #[trigger]
            after@.groups.contains_key(id) <==> before@.groups.contains_key(id) && now
                - before@.groups[id].cached_at < ttl,
        forall|id: Seq<char>| #[trigger]
            after@.groups.contains_key(id) ==> after@.groups[id] == before@.groups[id],
        forall|id: Seq<char>, m: Seq<char>| #[trigger]
            after@.members.contains((id, m)) <==> before@.members.contains((id, m)) && now
                - before@.groups[id].cached_at < ttl,
{
}

/// A purge that fails has removed nothing that is younger than the time to live, changed
/// nothing, and lost no user.
pub proof fn lemma_failed_purge(before: &Cache, after: &Cache, now: i64, ttl: u64)
    requires
        before.purged(after, now, ttl, false),
        before.exclusive(),
        before.wf(),
    ensures
        after.exclusive(),
        after@.users == before@.users,
        forall|id: Seq<char>| #[trigger]
            after@.groups.contains_key(id) ==> before@.groups.contains_key(id) && after@.groups[id]
                == before@.groups[id],
        forall|id: Seq<char>|
            before@.groups.contains_key(id) && now - before@.groups[id].cached_at < ttl
                ==> #[trigger] after@.groups.contains_key(id),
        forall|id: Seq<char>, m: Seq<char>| #[trigger]
            after@.members.contains((id, m)) ==> before@.members.contains((id, m)),
        forall|id: Seq<char>, m: Seq<char>|
            before@.members.contains((id, m)) && now - before@.groups[id].cached_at < ttl
                ==> #[trigger] after@.members.contains((id, m)),
{
}

/// A user that has a UID keeps it; another gets the first one of the range, counted from
/// the one that its identifier hashes to, that no user has, whether its entry has expired
/// or not.
pub proof fn lemma_uid_resolved(t: Tables, external_id: Seq<char>, min: u32, size: u32, uid: u32)
    requires
        0 < size,
        min + size <= 0x1_0000_0000,
        t.resolves_uid(external_id, min, size, uid),
    ensures
        t.users.contains_key(external_id) ==> uid == t.users[external_id].uid,
        !t.users.contains_key(external_id) ==> {
            &&& min <= uid < min + size
            &&& forall|id: Seq<char>| #[trigger] t.users.contains_key(id) ==> t.users[id].uid != uid
            &&& (forall|id: Seq<char>| #[trigger]
                t.users.contains_key(id) ==> t.users[id].uid != min + murmur3_32_of(external_id, 0)
                    % size) ==> uid == min + murmur3_32_of(external_id, 0) % size
            &&& exists|n: int|
                {
                    &&& 0 <= n < size
                    &&& uid == #[trigger] probe_slot(external_id, min, size, n)
                    &&& forall|j: int|
                        0 <= j < n ==> exists|id: Seq<char>| #[trigger]
                            t.users.contains_key(id) && t.users[id].uid == #[trigger] probe_slot(
                                external_id,
                                min,
                                size,
                                j,
                            )
                }
        },
{
    if !t.users.contains_key(external_id) {
        lemma_first_free_in_range(t.uids(), external_id, min, size, uid);
        assert forall|id: Seq<char>| #[trigger] t.users.contains_key(id) implies t.users[id].uid
            != uid by {
            if t.users[id].uid == uid {
                assert(t.uids().contains(uid));
            }
        }
        let home = home_slot(external_id, min, size);
        lemma_probe_in_range(external_id, min, size, 0);
        assert(home == min + murmur3_32_of(external_id, 0) % size);
        if forall|id: Seq<char>| #[trigger]
            t.users.contains_key(id) ==> t.users[id].uid != min + murmur3_32_of(external_id, 0)
                % size {
            assert(!t.uids().contains(home));
            lemma_home_slot_comes_first(t.uids(), external_id, min, size, uid);
        }
        let n = choose|n: int|
            0 <= n < size && uid == #[trigger] probe_slot(external_id, min, size, n)
                && !t.uids().contains(uid) && forall|j: int|
                0 <= j < n ==> t.uids().contains(#[trigger] probe_slot(external_id, min, size, j));
        assert forall|j: int| 0 <= j < n implies exists|id: Seq<char>| #[trigger]
            t.users.contains_key(id) && t.users[id].uid == #[trigger] probe_slot(
                external_id,
                min,
                size,
                j,
            ) by {
            assert(t.uids().contains(probe_slot(external_id, min, size, j)));
        }
    }
}

/// A group that has a GID keeps it; another gets the first one of the range, counted from
/// the one that its identifier hashes to, that no group has, whether its entry has expired
/// or not.
pub proof fn lemma_gid_resolved(t: Tables, external_id: Seq<char>, min: u32, size: u32, gid: u32)
    requires
        0 < size,
        min + size <= 0x1_0000_0000,
        t.resolves_gid(external_id, min, size, gid),
    ensures
        t.groups.contains_key(external_id) ==> gid == t.groups[external_id].gid,
        !t.groups.contains_key(external_id) ==> {
            &&& min <= gid < min + size
            &&& forall|id: Seq<char>| #[trigger]
                t.groups.contains_key(id) ==> t.groups[id].gid != gid
            &&& (forall|id: Seq<char>| #[trigger]
                t.groups.contains_key(id) ==> t.groups[id].gid != min + murmur3_32_of(
                    external_id,
                    0,
                ) % size) ==> gid == min + murmur3_32_of(external_id, 0) % size
            &&& exists|n: int|
                {
                    &&& 0 <= n < size
                    &&& gid == #[trigger] probe_slot(external_id, min, size, n)
                    &&& forall|j: int|
                        0 <= j < n ==> exists|id: Seq<char>| #[trigger]
                            t.groups.contains_key(id) && t.groups[id].gid == #[trigger] probe_slot(
                                external_id,
                                min,
                                size,
                                j,
                            )
                }
        },
{
    if !t.groups.contains_key(external_id) {
        lemma_first_free_in_range(t.gids(), external_id, min, size, gid);
        assert forall|id: Seq<char>| #[trigger] t.groups.contains_key(id) implies t.groups[id].gid
            != gid by {
            if t.groups[id].gid == gid {
                assert(t.gids().contains(gid));
            }
        }
        let home = home_slot(external_id, min, size);
        lemma_probe_in_range(external_id, min, size, 0);
        assert(home == min + murmur3_32_of(external_id, 0) % size);
        if forall|id: Seq<char>| #[trigger]
            t.groups.contains_key(id) ==> t.groups[id].gid != min + murmur3_32_of(external_id, 0)
                % size {
            assert(!t.gids().contains(home));
            lemma_home_slot_comes_first(t.gids(), external_id, min, size, gid);
        }
        let n = choose|n: int|
            0 <= n < size && gid == #[trigger] probe_slot(external_id, min, size, n)
                && !t.gids().contains(gid) && forall|j: int|
                0 <= j < n ==> t.gids().contains(#[trigger] probe_slot(external_id, min, size, j));
        assert forall|j: int| 0 <= j < n implies exists|id: Seq<char>| #[trigger]
            t.groups.contains_key(id) && t.groups[id].gid == #[trigger] probe_slot(
                external_id,
                min,
                size,
                j,
            ) by {
            assert(t.gids().contains(probe_slot(external_id, min, size, j)));
        }
    }
}

/// Where there is no UID left for an identifier, it has none, and every one of the range
/// is another's; else there is one that is nobody's, and this is one such.
pub proof fn lemma_uid_exhausted(
    t: Tables,
    external_id: Seq<char>,
    min: u32,
    size: u32,
    any: u32,
) -> (free: u32)
    requires
        0 < size,
        min + size <= 0x1_0000_0000,
        min <= any < min + size,
    ensures
        t.uid_exhausted(external_id, min, size) ==> !t.users.contains_key(external_id) && exists|
            id: Seq<char>,
        | #[trigger]
            t.users.contains_key(id) && t.users[id].uid == any,
        !t.uid_exhausted(external_id, min, size) && !t.users.contains_key(external_id) ==> min <= free
            < min + size && forall|id: Seq<char>| #[trigger]
            t.users.contains_key(id) ==> t.users[id].uid != free,
{
    lemma_exhausted_iff_range_full(t.uids(), external_id, min, size);
    if t.uid_exhausted(external_id, min, size) {
        assert(t.uids().contains(any));
        any
    } else if !t.users.contains_key(external_id) {
        let free = choose|slot: u32|
            min <= slot < min + size && !#[trigger] t.uids().contains(slot);
        assert forall|id: Seq<char>| #[trigger] t.users.contains_key(id) implies t.users[id].uid
            != free by {
            if t.users[id].uid == free {
                assert(t.uids().contains(free));
            }
        }
        free
    } else {
        any
    }
}

/// Where there is no GID left for an identifier, it has none, and every one of the range
/// is another's; else there is one that is nobody's, and this is one such.
pub proof fn lemma_gid_exhausted(
    t: Tables,
    external_id: Seq<char>,
    min: u32,
    size: u32,
    any: u32,
) -> (free: u32)
    requires
        0 < size,
        min + size <= 0x1_0000_0000,
        min <= any < min + size,
    ensures
        t.gid_exhausted(external_id, min, size) ==> !t.groups.contains_key(external_id) && exists|
            id: Seq<char>,
        | #[trigger]
            t.groups.contains_key(id) && t.groups[id].gid == any,
        !t.gid_exhausted(external_id, min, size) && !t.groups.contains_key(external_id) ==> min <= free
            < min + size && forall|id: Seq<char>| #[trigger]
            t.groups.contains_key(id) ==> t.groups[id].gid != free,
{
    lemma_exhausted_iff_range_full(t.gids(), external_id, min, size);
    if t.gid_exhausted(external_id, min, size) {
        assert(t.gids().contains(any));
        any
    } else if !t.groups.contains_key(external_id) {
        let free = choose|slot: u32|
            min <= slot < min + size && !#[trigger] t.gids().contains(slot);
        assert forall|id: Seq<char>| #[trigger] t.groups.contains_key(id) implies t.groups[id].gid
            != free by {
            if t.groups[id].gid == free {
                assert(t.gids().contains(free));
            }
        }
        free
    } else {
        any
    }
}

/// No two users share a UID, no two groups share a GID, and members belong to groups that
/// are there: that is what a well formed cache keeps to.
pub proof fn lemma_ids_are_unique(cache: &Cache, a: Seq<char>, b: Seq<char>)
    requires
        cache.wf(),
        cache.exclusive(),
    ensures
        cache@.users.contains_key(a) && cache@.users.contains_key(b) && cache@.users[a].uid
            == cache@.users[b].uid ==> a == b,
        cache@.groups.contains_key(a) && cache@.groups.contains_key(b) && cache@.groups[a].gid
            == cache@.groups[b].gid ==> a == b,
        cache@.members.contains((a, b)) ==> cache@.groups.contains_key(a),
{
}

/// Members that are listed are all the members and nothing else, each once.
pub proof fn lemma_listed_means(
    members: Set<(Seq<char>, Seq<char>)>,
    id: Seq<char>,
    names: Seq<String>,
)
    requires
        members_listed(members, id, names),
    ensures
        forall|i: int| 0 <= i < names.len() ==> members.contains((id, (#[trigger] names[i])@)),
        forall|m: Seq<char>| #[trigger]
            members.contains((id, m)) ==> exists|i: int|
                0 <= i < names.len() && (#[trigger] names[i])@ == m,
        forall|i: int, j: int|
            0 <= i < j < names.len() ==> (#[trigger] names[i])@ != (#[trigger] names[j])@,
{
}

/// A group that could not be stored, or not whole, has cost no user, and no group but those
/// with its external id or its GID.
pub proof fn lemma_group_is_not_stored(before: &Cache, after: &Cache, group: &Group, now: i64)
    requires
        before.group_not_stored(after, group@, now),
        before.exclusive(),
    ensures
        after.exclusive(),
        after.ttl() == before.ttl(),
        after@.users == before@.users,
        forall|id: Seq<char>|
            id != group.external_id@ && before@.groups.contains_key(id) && before@.groups[id].gid
                != group.gid ==> #[trigger] after@.groups.contains_key(id) && after@.groups[id]
                == before@.groups[id],
        forall|id: Seq<char>, m: Seq<char>|
            id != group.external_id@ && before@.groups.contains_key(id) && before@.groups[id].gid
                != group.gid ==> (#[trigger] after@.members.contains((id, m))
                <==> before@.members.contains((id, m))),
{
}

/// Whatever a purge removes, it adds and changes nothing.
pub proof fn lemma_purge_only_removes(before: &Cache, after: &Cache)
    requires
        before.shrinks_to(after),
        before.exclusive(),
    ensures
        after.exclusive(),
        after.ttl() == before.ttl(),
        after.path() == before.path(),
        forall|id: Seq<char>| #[trigger]
            after@.users.contains_key(id) ==> before@.users.contains_key(id) && after@.users[id]
                == before@.users[id],
        forall|id: Seq<char>| #[trigger]
            after@.groups.contains_key(id) ==> before@.groups.contains_key(id) && after@.groups[id]
                == before@.groups[id],
        forall|id: Seq<char>, m: Seq<char>| #[trigger]
            after@.members.contains((id, m)) ==> before@.members.contains((id, m)),
{
}

/// How errors of the cache are worded.
pub proof fn lemma_cache_wording(e: CacheError, message: Seq<char>)
    requires
        e.has_message(message),
    ensures
        e is Sqlite ==> "sqlite error: "@.is_prefix_of(message),
        e is RangeExhausted ==> message == "UID/GID range exhausted — all slots occupied"@,
        e matches CacheError::InsecurePermissions { path, detail } ==> message
            == "insecure permissions on cache "@ + path@ + ": "@ + detail@,
{
}

} // verus!
