//! What the NSS module answers: lookups, supplementary groups and enumerations.
use crate::buffer::{
    fill_group_buf, fill_passwd_buf, group_packed, group_size, passwd_packed, passwd_size,
    GroupEntry, PasswdEntry,
};
use crate::cache::CacheError;
use crate::model::{Group, User};
use crate::scim::{ScimError, ScimGroup, ScimUser};
use crate::service::{groups_enumerated, users_enumerated, Service, ServiceError};
use vstd::prelude::*;
use vstd::utf8::encode_utf8;

verus! {

/// NSS status codes.
#[derive(Debug, Clone, Copy, PartialEq, Eq, Structural)]
pub enum NssStatus {
    TryAgain,
    Unavail,
    NotFound,
    Success,
}

impl NssStatus {
    /// The number that glibc knows the status by.
    pub fn code(self) -> (code: i32)
        ensures
            code == match self {
                NssStatus::TryAgain => -2i32,
                NssStatus::Unavail => -1i32,
                NssStatus::NotFound => 0i32,
                NssStatus::Success => 1i32,
            },
    {
        match self {
            NssStatus::TryAgain => -2,
            NssStatus::Unavail => -1,
            NssStatus::NotFound => 0,
            NssStatus::Success => 1,
        }
    }
}

/// The error number for a buffer that is too small (Linux).
pub const ERANGE: i32 = 34;

/// An answer to glibc: the status, the error number to set, and on success what
/// was found.
#[derive(Debug, Clone, PartialEq, Eq)]
pub struct NssReply<T> {
    pub status: NssStatus,
    pub errno: i32,
    pub entry: Option<T>,
}

/// What is answered where there is no such user or group; a name that is no text
/// is nobody's name.
pub fn not_found<T>() -> (reply: NssReply<T>)
    ensures
        reply == (NssReply::<T> { status: NssStatus::NotFound, errno: 0, entry: None }),
{
    NssReply { status: NssStatus::NotFound, errno: 0, entry: None }
}

/// What is answered where the service cannot be had or fails.
pub fn unavailable<T>() -> (reply: NssReply<T>)
    ensures
        reply == (NssReply::<T> { status: NssStatus::Unavail, errno: 0, entry: None }),
{
    NssReply { status: NssStatus::Unavail, errno: 0, entry: None }
}

/// What is answered where the caller's buffer is too small; the caller tries again
/// with a larger one.
pub fn buffer_too_small<T>() -> (reply: NssReply<T>)
    ensures
        reply == (NssReply::<T> { status: NssStatus::TryAgain, errno: ERANGE, entry: None }),
        reply.errno == 34,
{
    NssReply { status: NssStatus::TryAgain, errno: ERANGE, entry: None }
}

/// What is answered where it was found.
pub fn success<T>(entry: T) -> (reply: NssReply<T>)
    ensures
        reply == (NssReply::<T> { status: NssStatus::Success, errno: 0, entry: Some(entry) }),
{
    NssReply { status: NssStatus::Success, errno: 0, entry: Some(entry) }
}

/// Whether `reply` hands out `user`, packed into `buf`: success with the entry where
/// the buffer is large enough, else another try.
pub open spec fn hands_out_user(user: User, buf: Seq<u8>, reply: NssReply<PasswdEntry>) -> bool {
    if passwd_size(user@) <= buf.len() {
        &&& reply.status == NssStatus::Success
        &&& reply.errno == 0
        &&& reply.entry matches Some(entry) && passwd_packed(user@, entry, buf)
    } else {
        reply == (NssReply::<PasswdEntry> {
            status: NssStatus::TryAgain,
            errno: ERANGE,
            entry: None,
        })
    }
}

/// Whether `reply` answers a lookup that came to `found`.
pub open spec fn answers_user(
    found: Result<Option<User>, ServiceError>,
    buf: Seq<u8>,
    reply: NssReply<PasswdEntry>,
) -> bool {
    match found {
        Ok(Some(user)) => hands_out_user(user, buf, reply),
        Ok(None) => reply == (NssReply::<PasswdEntry> {
            status: NssStatus::NotFound,
            errno: 0,
            entry: None,
        }),
        Err(_) => reply == (NssReply::<PasswdEntry> {
            status: NssStatus::Unavail,
            errno: 0,
            entry: None,
        }),
    }
}

fn hand_out_user(user: &User, buf: &mut Vec<u8>) -> (reply: NssReply<PasswdEntry>)
    ensures
        final(buf)@.len() == old(buf)@.len(),
        hands_out_user(*user, final(buf)@, reply),
{
    match fill_passwd_buf(user, buf) {
        Some(entry) => success(entry),
        None => buffer_too_small(),
    }
}

/// Answers a lookup of a user that came to `found`.
pub fn passwd_reply(found: Result<Option<User>, ServiceError>, buf: &mut Vec<u8>) -> (reply: NssReply<
    PasswdEntry,
>)
    ensures
        final(buf)@.len() == old(buf)@.len(),
        answers_user(found, final(buf)@, reply),
{
    match found {
        Ok(Some(user)) => hand_out_user(&user, buf),
        Ok(None) => not_found(),
        Err(_) => unavailable(),
    }
}

/// Look up a user by name and fill the passwd struct. `scim` is what SCIM said to
/// [`Service::user_by_name_request`].
pub fn passwd_by_name(
    service: &mut Service,
    name: &str,
    scim: Result<Option<ScimUser>, ScimError>,
    now: i64,
    buf: &mut Vec<u8>,
) -> (reply: NssReply<PasswdEntry>)
    requires
        old(service).ranges_valid(),
    ensures
        final(buf)@.len() == old(buf)@.len(),
        exists|found: Result<Option<User>, ServiceError>| #[trigger]
            old(service).user_looked_up(final(service), name@, scim, now, found) && answers_user(
                found,
                final(buf)@,
                reply,
            ),
{
    let found = service.lookup_user_by_name(name, scim, now);
    passwd_reply(found, buf)
}

/// What comes of looking up a user by UID at `now`.
pub open spec fn user_by_uid_found(
    service: &Service,
    uid: u32,
    now: i64,
    found: Result<Option<User>, ServiceError>,
) -> bool {
    match found {
        Ok(user) => service.cached().user_by_uid_answer(uid, now, user),
        Err(e) => e matches ServiceError::Cache(c) && c is Sqlite,
    }
}

/// Look up a user by UID and fill the passwd struct.
pub fn passwd_by_uid(service: &Service, uid: u32, now: i64, buf: &mut Vec<u8>) -> (reply: NssReply<
    PasswdEntry,
>)
    ensures
        final(buf)@.len() == old(buf)@.len(),
        exists|found: Result<Option<User>, ServiceError>| #[trigger]
            user_by_uid_found(service, uid, now, found) && answers_user(found, final(buf)@, reply),
{
    let found = service.lookup_user_by_uid(uid, now);
    assert(user_by_uid_found(service, uid, now, found));
    passwd_reply(found, buf)
}

/// Whether `reply` hands out `group`, packed into `buf`: success with the entry
/// where the buffer is large enough, else another try.
pub open spec fn hands_out_group(
    group: Group,
    buf: Seq<u8>,
    ptr_size: usize,
    ptr_align: usize,
    reply: NssReply<GroupEntry>,
) -> bool {
    if group_size(group@, ptr_size, ptr_align) <= buf.len() {
        &&& reply.status == NssStatus::Success
        &&& reply.errno == 0
        &&& reply.entry matches Some(entry) && group_packed(group@, entry, buf, ptr_size, ptr_align)
    } else {
        reply == (NssReply::<GroupEntry> {
            status: NssStatus::TryAgain,
            errno: ERANGE,
            entry: None,
        })
    }
}

/// Whether `reply` answers a lookup that came to `found`.
pub open spec fn answers_group(
    found: Result<Option<Group>, ServiceError>,
    buf: Seq<u8>,
    ptr_size: usize,
    ptr_align: usize,
    reply: NssReply<GroupEntry>,
) -> bool {
    match found {
        Ok(Some(group)) => hands_out_group(group, buf, ptr_size, ptr_align, reply),
        Ok(None) => reply == (NssReply::<GroupEntry> {
            status: NssStatus::NotFound,
            errno: 0,
            entry: None,
        }),
        Err(_) => reply == (NssReply::<GroupEntry> {
            status: NssStatus::Unavail,
            errno: 0,
            entry: None,
        }),
    }
}

fn hand_out_group(group: &Group, buf: &mut Vec<u8>, ptr_size: usize, ptr_align: usize) -> (reply:
    NssReply<GroupEntry>)
    requires
        ptr_align > 0,
    ensures
        final(buf)@.len() == old(buf)@.len(),
        hands_out_group(*group, final(buf)@, ptr_size, ptr_align, reply),
{
    match fill_group_buf(group, buf, ptr_size, ptr_align) {
        Some(entry) => success(entry),
        None => buffer_too_small(),
    }
}

/// Answers a lookup of a group that came to `found`.
pub fn group_reply(
    found: Result<Option<Group>, ServiceError>,
    buf: &mut Vec<u8>,
    ptr_size: usize,
    ptr_align: usize,
) -> (reply: NssReply<GroupEntry>)
    requires
        ptr_align > 0,
    ensures
        final(buf)@.len() == old(buf)@.len(),
        answers_group(found, final(buf)@, ptr_size, ptr_align, reply),
{
    match found {
        Ok(Some(group)) => hand_out_group(&group, buf, ptr_size, ptr_align),
        Ok(None) => not_found(),
        Err(_) => unavailable(),
    }
}

/// Look up a group by name and fill the group struct. `scim` is what SCIM said to
/// [`Service::group_by_name_request`].
pub fn group_by_name(
    service: &mut Service,
    name: &str,
    scim: Result<Option<ScimGroup>, ScimError>,
    now: i64,
    buf: &mut Vec<u8>,
    ptr_size: usize,
    ptr_align: usize,
) -> (reply: NssReply<GroupEntry>)
    requires
        old(service).ranges_valid(),
        ptr_align > 0,
    ensures
        final(buf)@.len() == old(buf)@.len(),
        exists|found: Result<Option<Group>, ServiceError>| #[trigger]
            old(service).group_looked_up(final(service), name@, scim, now, found) && answers_group(
                found,
                final(buf)@,
                ptr_size,
                ptr_align,
                reply,
            ),
{
    let found = service.lookup_group_by_name(name, scim, now);
    group_reply(found, buf, ptr_size, ptr_align)
}

/// What comes of looking up a group by GID at `now`.
pub open spec fn group_by_gid_found(
    service: &Service,
    gid: u32,
    now: i64,
    found: Result<Option<Group>, ServiceError>,
) -> bool {
    match found {
        Ok(group) => service.cached().group_by_gid_answer(gid, now, group),
        Err(e) => e matches ServiceError::Cache(c) && c is Sqlite,
    }
}

/// Look up a group by GID and fill the group struct.
pub fn group_by_gid(
    service: &Service,
    gid: u32,
    now: i64,
    buf: &mut Vec<u8>,
    ptr_size: usize,
    ptr_align: usize,
) -> (reply: NssReply<GroupEntry>)
    requires
        ptr_align > 0,
    ensures
        final(buf)@.len() == old(buf)@.len(),
        exists|found: Result<Option<Group>, ServiceError>| #[trigger]
            group_by_gid_found(service, gid, now, found) && answers_group(
                found,
                final(buf)@,
                ptr_size,
                ptr_align,
                reply,
            ),
{
    let found = service.lookup_group_by_gid(gid, now);
    assert(group_by_gid_found(service, gid, now, found));
    group_reply(found, buf, ptr_size, ptr_align)
}

/// `present` with those of `gids` behind it that are neither the primary group nor
/// there already, each once, in order.
pub open spec fn merged(present: Seq<u32>, primary: u32, gids: Seq<u32>) -> Seq<u32>
    decreases gids.len(),
{
    if gids.len() == 0 {
        present
    } else {
        let before = merged(present, primary, gids.drop_last());
        if gids.last() == primary || before.contains(gids.last()) {
            before
        } else {
            before.push(gids.last())
        }
    }
}

/// Adds supplementary groups to the caller's array.
///
/// `present` is what the array holds, and `size` how many entries it has room for.
/// The primary group and groups that are there already are skipped, those that were
/// added by this call included. Where the room ends before the groups do, the array
/// is full and the answer says so.
pub fn merge_groups(present: &mut Vec<u32>, size: usize, primary: u32, gids: &Vec<u32>) -> (reply:
    NssReply<()>)
    requires
        old(present)@.len() <= size,
    ensures
        ({
            let all = merged(old(present)@, primary, gids@);
            if all.len() <= size {
                &&& final(present)@ == all
                &&& reply == (NssReply { status: NssStatus::Success, errno: 0, entry: Some(()) })
            } else {
                &&& final(present)@ == all.take(size as int)
                &&& reply == (NssReply::<()> {
                    status: NssStatus::TryAgain,
                    errno: ERANGE,
                    entry: None,
                })
            }
        }),
{
    let ghost first = present@;
    assert(gids@.take(0) =~= Seq::<u32>::empty());
    for i in 0..gids.len()
        invariant
            first == old(present)@,
            present@.len() <= size,
            present@ == merged(first, primary, gids@.take(i as int)),
    {
        let gid: u32 = gids[i];
        assert(gids@.take(i + 1).drop_last() =~= gids@.take(i as int));
        if gid != primary && !contains_gid(present, gid) {
            if present.len() >= size {
                proof {
                    lemma_merged_grows(first, primary, gids@, i + 1);
                    let all = merged(first, primary, gids@);
                    let here = merged(first, primary, gids@.take(i + 1));
                    assert(here == present@.push(gid));
                    assert(all.take(size as int) =~= here.take(size as int));
                    assert(here.take(size as int) =~= present@);
                }
                return buffer_too_small();
            }
            present.push(gid);
        }
    }
    assert(gids@.take(gids@.len() as int) =~= gids@);
    success(())
}

fn contains_gid(gids: &Vec<u32>, gid: u32) -> (found: bool)
    ensures
        found == gids@.contains(gid),
{
    for i in 0..gids.len()
        invariant
            forall|j: int| 0 <= j < i ==> gids@[j] != gid,
    {
        if gids[i] == gid {
            return true;
        }
    }
    false
}

/// What the first few groups come to is how all of them start.
pub proof fn lemma_merged_grows(present: Seq<u32>, primary: u32, gids: Seq<u32>, n: int)
    requires
        0 <= n <= gids.len(),
    ensures
        merged(present, primary, gids.take(n)).len() <= merged(present, primary, gids).len(),
        merged(present, primary, gids).take(
            merged(present, primary, gids.take(n)).len() as int,
        ) == merged(present, primary, gids.take(n)),
    decreases gids.len(),
{
    let part = merged(present, primary, gids.take(n));
    if n < gids.len() {
        lemma_merged_grows(present, primary, gids.drop_last(), n);
        assert(gids.drop_last().take(n) =~= gids.take(n));
        assert(merged(present, primary, gids).take(part.len() as int) =~= merged(
            present,
            primary,
            gids.drop_last(),
        ).take(part.len() as int));
    } else {
        assert(gids.take(n) =~= gids);
        assert(part.take(part.len() as int) =~= part);
    }
}

/// Merging keeps what is there, adds no group twice and not the primary one, adds
/// nothing but the user's groups, and leaves none of them out.
pub proof fn lemma_merged_groups(present: Seq<u32>, primary: u32, gids: Seq<u32>)
    ensures
        present.len() <= merged(present, primary, gids).len(),
        merged(present, primary, gids).take(present.len() as int) == present,
        present.no_duplicates() ==> merged(present, primary, gids).no_duplicates(),
        forall|i: int|
            present.len() <= i < merged(present, primary, gids).len() ==> {
                &&& #[trigger] merged(present, primary, gids)[i] != primary
                &&& gids.contains(merged(present, primary, gids)[i])
                &&& !present.contains(merged(present, primary, gids)[i])
            },
        forall|gid: u32| #[trigger]
            gids.contains(gid) && gid != primary ==> merged(present, primary, gids).contains(gid),
    decreases gids.len(),
{
    let all = merged(present, primary, gids);
    if gids.len() == 0 {
        assert(all.take(present.len() as int) =~= present);
    } else {
        let front = gids.drop_last();
        let before = merged(present, primary, front);
        lemma_merged_groups(present, primary, front);
        assert(all.take(present.len() as int) =~= before.take(present.len() as int));
        assert forall|i: int| present.len() <= i < all.len() implies {
            &&& #[trigger] all[i] != primary
            &&& gids.contains(all[i])
            &&& !present.contains(all[i])
        } by {
            if i < before.len() {
                assert(all[i] == before[i]);
                let j = choose|j: int| 0 <= j < front.len() && front[j] == before[i];
                assert(gids[j] == all[i]);
            } else {
                assert(gids[gids.len() - 1] == all[i]);
                if present.contains(all[i]) {
                    let j = choose|j: int| 0 <= j < present.len() && present[j] == all[i];
                    assert(before.take(present.len() as int)[j] == before[j]);
                    assert(before.contains(all[i]));
                }
            }
        }
        assert forall|gid: u32| #[trigger]
            gids.contains(gid) && gid != primary implies all.contains(gid) by {
            let j = choose|j: int| 0 <= j < gids.len() && gids[j] == gid;
            if j < front.len() {
                assert(front[j] == gid);
                assert(front.contains(gid));
                assert(before.contains(gid));
                let i = choose|i: int| 0 <= i < before.len() && before[i] == gid;
                assert(all[i] == gid);
            } else if !before.contains(gid) {
                assert(all[all.len() - 1] == gid);
            }
        }
    }
}

/// Return supplementary group IDs for a user: looks them up and adds them to the
/// caller's array. `scim` is what SCIM said to [`Service::user_by_name_request`].
pub fn initgroups(
    service: &mut Service,
    user: &str,
    scim: Result<Option<ScimUser>, ScimError>,
    now: i64,
    primary: u32,
    present: &mut Vec<u32>,
    size: usize,
) -> (reply: NssReply<()>)
    requires
        old(service).ranges_valid(),
        old(present)@.len() <= size,
    ensures
        exists|found: Result<Vec<u32>, ServiceError>| #[trigger]
            old(service).groups_looked_up(final(service), user@, scim, now, found) && match found {
                Err(_) => {
                    &&& final(present)@ == old(present)@
                    &&& reply == (NssReply::<()> {
                        status: NssStatus::Unavail,
                        errno: 0,
                        entry: None,
                    })
                },
                Ok(gids) => {
                    let all = merged(old(present)@, primary, gids@);
                    if all.len() <= size {
                        &&& final(present)@ == all
                        &&& reply == (NssReply {
                            status: NssStatus::Success,
                            errno: 0,
                            entry: Some(()),
                        })
                    } else {
                        &&& final(present)@ == all.take(size as int)
                        &&& reply == (NssReply::<()> {
                            status: NssStatus::TryAgain,
                            errno: ERANGE,
                            entry: None,
                        })
                    }
                },
            },
{
    let found = service.lookup_groups_for_user(user, scim, now);
    assert(old(service).groups_looked_up(service, user@, scim, now, found));
    match found {
        Ok(gids) => merge_groups(present, size, primary, &gids),
        Err(_) => unavailable(),
    }
}

/// The setpwent/getpwent_r/endpwent cycle: the users that are handed out, and how
/// many of them have been.
pub struct UserEnum {
    users: Option<Vec<User>>,
    next: usize,
}

impl View for UserEnum {
    type V = Option<(Seq<User>, int)>;

    closed spec fn view(&self) -> Option<(Seq<User>, int)> {
        match self.users {
            Some(users) => Some((users@, self.next as int)),
            None => None,
        }
    }
}

impl UserEnum {
    /// No enumeration has begun.
    pub fn new() -> (state: UserEnum)
        ensures
            state@ is None,
    {
        UserEnum { users: None, next: 0 }
    }

    /// Begin user enumeration with these users.
    pub fn set(&mut self, users: Vec<User>)
        ensures
            final(self)@ == Some((users@, 0int)),
    {
        self.users = Some(users);
        self.next = 0;
    }

    /// Return the next user in the enumeration. One that does not fit into the
    /// buffer is the next one still.
    pub fn get(&mut self, buf: &mut Vec<u8>) -> (reply: NssReply<PasswdEntry>)
        ensures
            final(buf)@.len() == old(buf)@.len(),
            match old(self)@ {
                None => {
                    &&& final(self)@ is None
                    &&& reply == (NssReply::<PasswdEntry> {
                        status: NssStatus::Unavail,
                        errno: 0,
                        entry: None,
                    })
                },
                Some((users, next)) => if 0 <= next < users.len() {
                    &&& hands_out_user(users[next], final(buf)@, reply)
                    &&& final(self)@ == Some(
                        (
                            users,
                            if reply.status == NssStatus::Success {
                                next + 1
                            } else {
                                next
                            },
                        ),
                    )
                } else {
                    &&& reply == (NssReply::<PasswdEntry> {
                        status: NssStatus::NotFound,
                        errno: 0,
                        entry: None,
                    })
                    &&& final(self)@ == old(self)@
                },
            },
    {
        match &self.users {
            None => unavailable(),
            Some(users) => {
                if self.next >= users.len() {
                    return not_found();
                }
                let reply = hand_out_user(&users[self.next], buf);
                if reply.status == NssStatus::Success {
                    self.next = self.next + 1;
                }
                reply
            },
        }
    }

    /// End user enumeration: free the state.
    pub fn end(&mut self)
        ensures
            final(self)@ is None,
    {
        self.users = None;
    }
}

/// How the beginning of an enumeration came out.
#[derive(Debug)]
pub struct Started {
    /// What is answered.
    pub status: NssStatus,
    /// For each user or group that is handed out, what came of storing it in the cache.
    pub stored: Vec<Result<(), CacheError>>,
    /// Why the others are left out, in order.
    pub failures: Vec<ServiceError>,
}

/// Begin user enumeration: resolves and caches the users of the list that SCIM gave,
/// if it gave one, and hands out those that could be resolved. The others are left out.
pub fn setpwent(
    service: &mut Service,
    state: &mut UserEnum,
    reply: Result<Vec<ScimUser>, ScimError>,
    now: i64,
) -> (started: Started)
    requires
        old(service).ranges_valid(),
    ensures
        match reply {
            Err(_) => {
                &&& started.status == NssStatus::Unavail
                &&& started.stored@.len() == 0
                &&& started.failures@.len() == 0
                &&& *final(service) == *old(service)
                &&& *final(state) == *old(state)
            },
            Ok(list) => {
                &&& started.status == NssStatus::Success
                &&& final(state)@ matches Some((entries, next)) && next == 0 && users_enumerated(
                    *old(service),
                    *final(service),
                    list@,
                    entries,
                    started.stored@,
                    started.failures@,
                    now,
                )
            },
        },
{
    match reply {
        Ok(list) => {
            let all = service.enumerate_users(&list, now);
            state.set(all.entries);
            Started { status: NssStatus::Success, stored: all.stored, failures: all.failures }
        },
        Err(_) => Started {
            status: NssStatus::Unavail,
            stored: Vec::new(),
            failures: Vec::new(),
        },
    }
}

/// The setgrent/getgrent_r/endgrent cycle: the groups that are handed out, and how
/// many of them have been.
pub struct GroupEnum {
    groups: Option<Vec<Group>>,
    next: usize,
}

impl View for GroupEnum {
    type V = Option<(Seq<Group>, int)>;

    closed spec fn view(&self) -> Option<(Seq<Group>, int)> {
        match self.groups {
            Some(groups) => Some((groups@, self.next as int)),
            None => None,
        }
    }
}

impl GroupEnum {
    /// No enumeration has begun.
    pub fn new() -> (state: GroupEnum)
        ensures
            state@ is None,
    {
        GroupEnum { groups: None, next: 0 }
    }

    /// Begin group enumeration with these groups.
    pub fn set(&mut self, groups: Vec<Group>)
        ensures
            final(self)@ == Some((groups@, 0int)),
    {
        self.groups = Some(groups);
        self.next = 0;
    }

    /// Return the next group in the enumeration. One that does not fit into the
    /// buffer is the next one still.
    pub fn get(&mut self, buf: &mut Vec<u8>, ptr_size: usize, ptr_align: usize) -> (reply: NssReply<
        GroupEntry,
    >)
        requires
            ptr_align > 0,
        ensures
            final(buf)@.len() == old(buf)@.len(),
            match old(self)@ {
                None => {
                    &&& final(self)@ is None
                    &&& reply == (NssReply::<GroupEntry> {
                        status: NssStatus::Unavail,
                        errno: 0,
                        entry: None,
                    })
                },
                Some((groups, next)) => if 0 <= next < groups.len() {
                    &&& hands_out_group(groups[next], final(buf)@, ptr_size, ptr_align, reply)
                    &&& final(self)@ == Some(
                        (
                            groups,
                            if reply.status == NssStatus::Success {
                                next + 1
                            } else {
                                next
                            },
                        ),
                    )
                } else {
                    &&& reply == (NssReply::<GroupEntry> {
                        status: NssStatus::NotFound,
                        errno: 0,
                        entry: None,
                    })
                    &&& final(self)@ == old(self)@
                },
            },
    {
        match &self.groups {
            None => unavailable(),
            Some(groups) => {
                if self.next >= groups.len() {
                    return not_found();
                }
                let reply = hand_out_group(&groups[self.next], buf, ptr_size, ptr_align);
                if reply.status == NssStatus::Success {
                    self.next = self.next + 1;
                }
                reply
            },
        }
    }

    /// End group enumeration: free the state.
    pub fn end(&mut self)
        ensures
            final(self)@ is None,
    {
        self.groups = None;
    }
}

/// Begin group enumeration: resolves and caches the groups of the list that SCIM gave,
/// if it gave one, and hands out those that could be resolved. The others are left out.
pub fn setgrent(
    service: &mut Service,
    state: &mut GroupEnum,
    reply: Result<Vec<ScimGroup>, ScimError>,
    now: i64,
) -> (started: Started)
    requires
        old(service).ranges_valid(),
    ensures
        match reply {
            Err(_) => {
                &&& started.status == NssStatus::Unavail
                &&& started.stored@.len() == 0
                &&& started.failures@.len() == 0
                &&& *final(service) == *old(service)
                &&& *final(state) == *old(state)
            },
            Ok(list) => {
                &&& started.status == NssStatus::Success
                &&& final(state)@ matches Some((entries, next)) && next == 0 && groups_enumerated(
                    *old(service),
                    *final(service),
                    list@,
                    entries,
                    started.stored@,
                    started.failures@,
                    now,
                )
            },
        },
{
    match reply {
        Ok(list) => {
            let all = service.enumerate_groups(&list, now);
            state.set(all.entries);
            Started { status: NssStatus::Success, stored: all.stored, failures: all.failures }
        },
        Err(_) => Started {
            status: NssStatus::Unavail,
            stored: Vec::new(),
            failures: Vec::new(),
        },
    }
}

/// The error number is that of Linux.
pub proof fn lemma_error_number()
    ensures
        ERANGE == 34,
{
}

/// A lookup of a user that failed is answered as unavailable, one that found nobody as not
/// found, and one that found a user with the packed user where the five texts and their
/// NULs fit into the buffer, and with another try where they do not.
pub proof fn lemma_user_answer(
    found: Result<Option<User>, ServiceError>,
    buf: Seq<u8>,
    reply: NssReply<PasswdEntry>,
)
    requires
        answers_user(found, buf, reply),
    ensures
        found is Err <==> reply.status == NssStatus::Unavail,
        found is Ok && found->Ok_0 is None <==> reply.status == NssStatus::NotFound,
        found is Ok && found->Ok_0 is Some ==> {
            let user = found->Ok_0->0;
            let fits = encode_utf8(user.name@).len() + encode_utf8("x"@).len() + encode_utf8(
                user.gecos@,
            ).len() + encode_utf8(user.home@).len() + encode_utf8(user.shell@).len() + 5 <= buf.len();
            &&& fits ==> reply.status == NssStatus::Success && reply.entry is Some && passwd_packed(
                user@,
                reply.entry->0,
                buf,
            )
            &&& !fits ==> reply.status == NssStatus::TryAgain
        },
        reply.entry is Some <==> reply.status == NssStatus::Success,
        reply.errno == if reply.status == NssStatus::TryAgain {
            34int
        } else {
            0int
        },
{
    if found is Ok && found->Ok_0 is Some {
        crate::buffer::lemma_passwd_size(found->Ok_0->0@);
    }
}

/// A lookup of a group is answered in the same way, with room for the pointers to the
/// members behind the texts.
pub proof fn lemma_group_answer(
    found: Result<Option<Group>, ServiceError>,
    buf: Seq<u8>,
    ptr_size: usize,
    ptr_align: usize,
    reply: NssReply<GroupEntry>,
)
    requires
        answers_group(found, buf, ptr_size, ptr_align, reply),
    ensures
        found is Err <==> reply.status == NssStatus::Unavail,
        found is Ok && found->Ok_0 is None <==> reply.status == NssStatus::NotFound,
        found is Ok && found->Ok_0 is Some ==> {
            let group = found->Ok_0->0;
            let fits = group_size(group@, ptr_size, ptr_align) <= buf.len();
            &&& fits ==> reply.status == NssStatus::Success && reply.entry is Some && group_packed(
                group@,
                reply.entry->0,
                buf,
                ptr_size,
                ptr_align,
            )
            &&& !fits ==> reply.status == NssStatus::TryAgain
        },
        reply.entry is Some <==> reply.status == NssStatus::Success,
        reply.errno == if reply.status == NssStatus::TryAgain {
            34int
        } else {
            0int
        },
{
}

/// A lookup by number goes by what the cache answers at that time.
pub proof fn lemma_found_by_number(
    service: &Service,
    id: u32,
    now: i64,
    user: Result<Option<User>, ServiceError>,
    group: Result<Option<Group>, ServiceError>,
)
    ensures
        user_by_uid_found(service, id, now, user) && user is Ok
            ==> service.cached().user_by_uid_answer(id, now, user->Ok_0),
        user_by_uid_found(service, id, now, user) && user is Err ==> user->Err_0 is Cache,
        group_by_gid_found(service, id, now, group) && group is Ok
            ==> service.cached().group_by_gid_answer(id, now, group->Ok_0),
        group_by_gid_found(service, id, now, group) && group is Err ==> group->Err_0 is Cache,
{
}

/// A group is added where it is neither the primary one nor there already, and nothing
/// changes where it is.
pub proof fn lemma_one_more_group(present: Seq<u32>, primary: u32, gids: Seq<u32>, gid: u32)
    ensures
        merged(present, primary, Seq::empty()) == present,
        gid == primary || merged(present, primary, gids).contains(gid) ==> merged(
            present,
            primary,
            gids.push(gid),
        ) == merged(present, primary, gids),
        gid != primary && !merged(present, primary, gids).contains(gid) ==> merged(
            present,
            primary,
            gids.push(gid),
        ) == merged(present, primary, gids).push(gid),
{
    assert(gids.push(gid).drop_last() =~= gids);
}

} // verus!
