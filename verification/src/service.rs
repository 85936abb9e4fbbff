//! The façade used by the NSS and PAM modules to resolve users and groups.
//!
//! The caller sends the SCIM requests and hands in the replies; what is looked
//! up, stored and answered is decided here. Times are seconds of the Unix epoch,
//! as [`Service::now`] tells them.
use crate::cache::{
    group_row, lemma_failed_purge, lemma_first_free_in_range, lemma_group_read_back,
    lemma_groups_found_of, lemma_purged_exactly, lemma_put_group_with_wf, lemma_put_user_wf,
    lemma_resolved_gid_is_stable, lemma_resolved_uid_is_stable, lemma_user_found_by_name,
    lemma_user_read_back, lemma_user_read_back_by_name, user_row, Cache, CacheError,
};
use crate::config::{Config, MappingConfig, OfflineAuthPolicy, UserDefaultsConfig};
use crate::mapping::IdRangeExhausted;
use crate::model::{group_view, user_view, Group, GroupView, User, UserView};
use crate::scim::{
    escaped, ScimClient, ScimError, ScimGroup, ScimMemberRef, ScimRequest, ScimUser,
};
use crate::store::{clock_time, cutoff_exact, fresh, Tables};
use crate::text::{replace_all, replaced};
use vstd::prelude::*;
use vstd::utf8::encode_utf8;

verus! {

/// Why a user or group could not be resolved.
#[derive(Debug)]
pub enum ServiceError {
    /// SCIM did not answer.
    Scim(ScimError),
    /// The cache did not answer.
    Cache(CacheError),
    /// Every UID or GID of the range has an owner.
    RangeExhausted,
}

impl From<IdRangeExhausted> for ServiceError {
    fn from(_exhausted: IdRangeExhausted) -> (err: Self) {
        ServiceError::RangeExhausted
    }
}

impl vstd::std_specs::convert::FromSpecImpl<IdRangeExhausted> for ServiceError {
    open spec fn obeys_from_spec() -> bool {
        true
    }

    open spec fn from_spec(_exhausted: IdRangeExhausted) -> Self {
        ServiceError::RangeExhausted
    }
}

impl ServiceError {
    /// The message for the log.
    pub fn message(&self) -> (message: String)
        ensures
            match self {
                ServiceError::Scim(e) => message@ == "SCIM error: "@ + e.text(),
                ServiceError::Cache(e) => exists|reason: Seq<char>| #[trigger]
                    e.has_message(reason) && message@ == "cache error: "@ + reason,
                ServiceError::RangeExhausted => message@
                    == "UID/GID range exhausted — all slots occupied"@,
            },
    {
        match self {
            ServiceError::Scim(e) => {
                let reason = e.message();
                let mut m = "SCIM error: ".to_owned();
                m.append(reason.as_str());
                m
            },
            ServiceError::Cache(e) => {
                let reason = e.message();
                let mut m = "cache error: ".to_owned();
                m.append(reason.as_str());
                m
            },
            ServiceError::RangeExhausted => {
                "UID/GID range exhausted — all slots occupied".to_owned()
            },
        }
    }
}

/// Maximum length for user/group name lookups (matches `LOGIN_NAME_MAX`).
pub const MAX_NAME_LEN: usize = 256;

/// Whether a name takes more bytes than any name that is looked up.
pub open spec fn oversized(name: Seq<char>) -> bool {
    encode_utf8(name).len() > MAX_NAME_LEN
}

fn is_oversized(name: &str) -> (res: bool)
    ensures
        res == oversized(name@),
{
    name.as_bytes().len() > MAX_NAME_LEN
}

/// What an optional text holds, or nothing.
pub open spec fn text_or_empty(text: Option<String>) -> Seq<char> {
    match text {
        Some(t) => t@,
        None => Seq::empty(),
    }
}

/// The external id that a user's primary group is resolved from: the first
/// group of the user, or the user itself.
pub open spec fn primary_group_id(scim_user: ScimUser) -> Seq<char> {
    if scim_user.groups@.len() > 0 {
        scim_user.groups@[0].value@
    } else {
        scim_user.id@
    }
}

/// Whether `user` has what `scim_user` and the defaults say, UID and GID aside.
pub open spec fn describes_user(
    defaults: UserDefaultsConfig,
    scim_user: ScimUser,
    user: UserView,
) -> bool {
    &&& user.external_id == scim_user.id@
    &&& user.name == scim_user.user_name@
    &&& user.gecos == text_or_empty(scim_user.display_name)
    &&& user.home == replaced(defaults.home_template@, "{user}"@, scim_user.user_name@)
    &&& user.shell == defaults.shell@
    &&& user.active == (scim_user.active != Some(false))
}

/// Whether `user` is what `scim_user` is resolved to while the cache holds `t`.
pub open spec fn models_user(
    t: Tables,
    mapping: MappingConfig,
    defaults: UserDefaultsConfig,
    scim_user: ScimUser,
    user: UserView,
) -> bool {
    &&& describes_user(defaults, scim_user, user)
    &&& t.resolves_uid(
        scim_user.id@,
        mapping.uid_range_min,
        mapping.uid_range_size,
        user.uid,
    )
    &&& t.resolves_gid(
        primary_group_id(scim_user),
        mapping.gid_range_min,
        mapping.gid_range_size,
        user.gid,
    )
}

/// Whether `e` is an error of the cache that leaves an identifier unresolved: SQLite
/// failed, or a range is `exhausted`.
pub open spec fn leaves_unresolved(e: ServiceError, exhausted: bool) -> bool {
    e matches ServiceError::Cache(c) && (c is Sqlite || (c is RangeExhausted && exhausted))
}

/// The names of the members that have one, in order.
pub open spec fn display_names(members: Seq<ScimMemberRef>) -> Seq<Seq<char>>
    decreases members.len(),
{
    if members.len() == 0 {
        Seq::empty()
    } else {
        let names = display_names(members.drop_last());
        match members.last().display {
            Some(name) => names.push(name@),
            None => names,
        }
    }
}

/// Whether `at` are the places of the members that have a display name: all of them, in
/// order, and no others.
pub open spec fn picks_named(members: Seq<ScimMemberRef>, at: Seq<int>) -> bool {
    &&& forall|k: int|
        0 <= k < at.len() ==> 0 <= #[trigger] at[k] < members.len() && members[at[k]].display is Some
    &&& forall|k: int, l: int| 0 <= k < l < at.len() ==> #[trigger] at[k] < #[trigger] at[l]
    &&& forall|i: int|
        0 <= i < members.len() && (#[trigger] members[i]).display is Some ==> at.contains(i)
}

/// Whether `names` are the display names at these places, one for each.
pub open spec fn names_at(
    members: Seq<ScimMemberRef>,
    at: Seq<int>,
    names: Seq<Seq<char>>,
) -> bool {
    &&& names.len() == at.len()
    &&& forall|k: int|
        0 <= k < names.len() ==> members[at[k]].display is Some && #[trigger] names[k]
            == members[at[k]].display->0@
}

/// The display names are those of all members that have one, in order, and nothing else:
/// for each of them there is one place of such a member, the places ascend, and no such
/// member is left out.
pub proof fn lemma_display_names(members: Seq<ScimMemberRef>) -> (at: Seq<int>)
    ensures
        picks_named(members, at),
        names_at(members, at, display_names(members)),
        at.len() == display_names(members).len(),
        forall|k: int|
            0 <= k < at.len() ==> 0 <= #[trigger] at[k] < members.len() && members[at[k]].display
                is Some && display_names(members)[k] == members[at[k]].display->0@,
        forall|k: int, l: int| 0 <= k < l < at.len() ==> #[trigger] at[k] < #[trigger] at[l],
        forall|i: int|
            0 <= i < members.len() && (#[trigger] members[i]).display is Some ==> exists|k: int|
                0 <= k < at.len() && #[trigger] at[k] == i,
        forall|i: int|
            0 <= i < members.len() && (#[trigger] members[i]).display is Some
                ==> display_names(members).contains(members[i].display->0@),
    decreases members.len(),
{
    if members.len() == 0 {
        Seq::empty()
    } else {
        let front = members.drop_last();
        let last = members.len() - 1;
        let before = lemma_display_names(front);
        let names = display_names(members);
        let at = if members.last().display is Some {
            before.push(last)
        } else {
            before
        };
        assert forall|k: int| 0 <= k < at.len() implies 0 <= #[trigger] at[k] < members.len()
            && members[at[k]].display is Some && names[k] == members[at[k]].display->0@ by {
            if k < before.len() {
                assert(at[k] == before[k]);
                assert(front[before[k]] == members[before[k]]);
                assert(display_names(front)[k] == front[before[k]].display->0@);
            }
        }
        assert forall|i: int|
            0 <= i < members.len() && (#[trigger] members[i]).display is Some implies exists|k: int|
            0 <= k < at.len() && #[trigger] at[k] == i by {
            if i < last {
                assert(front[i] == members[i]);
                let k = choose|k: int| 0 <= k < before.len() && #[trigger] before[k] == i;
                assert(at[k] == i);
            } else {
                assert(at[before.len() as int] == i);
            }
        }
        assert forall|i: int|
            0 <= i < members.len() && (#[trigger] members[i]).display is Some implies at.contains(i)
            && names.contains(members[i].display->0@) by {
            let k = choose|k: int| 0 <= k < at.len() && #[trigger] at[k] == i;
            assert(names[k] == members[i].display->0@);
        }
        at
    }
}

/// Whether `group` has what `scim_group` says, the GID aside.
pub open spec fn describes_group(scim_group: ScimGroup, group: GroupView) -> bool {
    &&& group.external_id == scim_group.id@
    &&& group.name == scim_group.display_name@
    &&& group.members == display_names(scim_group.members@)
}

/// Whether `group` is what `scim_group` is resolved to while the cache holds `t`.
pub open spec fn models_group(
    t: Tables,
    mapping: MappingConfig,
    scim_group: ScimGroup,
    group: GroupView,
) -> bool {
    &&& describes_group(scim_group, group)
    &&& t.resolves_gid(
        scim_group.id@,
        mapping.gid_range_min,
        mapping.gid_range_size,
        group.gid,
    )
}

/// What an enumeration came to.
pub struct Enumerated<T> {
    /// What was resolved, in order.
    pub entries: Vec<T>,
    /// For each entry, what came of storing it in the cache.
    pub stored: Vec<Result<(), CacheError>>,
    /// Why the others were not resolved, in order.
    pub failures: Vec<ServiceError>,
}

/// Whether each of `scim_users` was, in order, either resolved to one of `entries`,
/// which was stored or not as `stored` says, or the cause of one of `failures`, with
/// `first` before and `last` after.
pub open spec fn users_enumerated(
    first: Service,
    last: Service,
    scim_users: Seq<ScimUser>,
    entries: Seq<User>,
    stored: Seq<Result<(), CacheError>>,
    failures: Seq<ServiceError>,
    now: i64,
) -> bool
    decreases scim_users.len(),
{
    if scim_users.len() == 0 {
        &&& entries.len() == 0
        &&& stored.len() == 0
        &&& failures.len() == 0
        &&& first.unchanged(&last)
    } else {
        ||| entries.len() > 0 && stored.len() > 0 && exists|before: Service|
            {
                &&& #[trigger] before.user_kept(
                    &last,
                    scim_users.last(),
                    entries.last()@,
                    stored.last(),
                    now,
                )
                &&& users_enumerated(
                    first,
                    before,
                    scim_users.drop_last(),
                    entries.drop_last(),
                    stored.drop_last(),
                    failures,
                    now,
                )
            }
        ||| failures.len() > 0 && last.user_unresolved(scim_users.last(), failures.last())
            && users_enumerated(
            first,
            last,
            scim_users.drop_last(),
            entries,
            stored,
            failures.drop_last(),
            now,
        )
    }
}

/// Whether each of `scim_groups` was, in order, either resolved to one of `entries`,
/// which was stored or not as `stored` says, or the cause of one of `failures`, with
/// `first` before and `last` after.
pub open spec fn groups_enumerated(
    first: Service,
    last: Service,
    scim_groups: Seq<ScimGroup>,
    entries: Seq<Group>,
    stored: Seq<Result<(), CacheError>>,
    failures: Seq<ServiceError>,
    now: i64,
) -> bool
    decreases scim_groups.len(),
{
    if scim_groups.len() == 0 {
        &&& entries.len() == 0
        &&& stored.len() == 0
        &&& failures.len() == 0
        &&& first.unchanged(&last)
    } else {
        ||| entries.len() > 0 && stored.len() > 0 && exists|before: Service|
            {
                &&& #[trigger] before.group_kept(
                    &last,
                    scim_groups.last(),
                    entries.last()@,
                    stored.last(),
                    now,
                )
                &&& groups_enumerated(
                    first,
                    before,
                    scim_groups.drop_last(),
                    entries.drop_last(),
                    stored.drop_last(),
                    failures,
                    now,
                )
            }
        ||| failures.len() > 0 && last.group_unresolved(scim_groups.last(), failures.last())
            && groups_enumerated(
            first,
            last,
            scim_groups.drop_last(),
            entries,
            stored,
            failures.drop_last(),
            now,
        )
    }
}

/// Façade used by NSS and PAM modules to resolve users and groups.
pub struct Service {
    scim: ScimClient,
    cache: Cache,
    config: Config,
    /// Why expired entries could not be purged at the start, if they could not.
    purge_failure: Option<CacheError>,
}

impl Service {
    /// The cache behind the service.
    pub closed spec fn cached(&self) -> Cache {
        self.cache
    }

    /// The configuration that the service works with.
    pub closed spec fn configured(&self) -> Config {
        self.config
    }

    /// The client that the requests are made with.
    pub closed spec fn client(&self) -> ScimClient {
        self.scim
    }

    /// Why expired entries could not be purged at the start, if they could not.
    pub closed spec fn purge_error(&self) -> Option<CacheError> {
        self.purge_failure
    }

    /// Whether the configured ranges are ranges of identifiers.
    pub open spec fn ranges_valid(&self) -> bool {
        self.configured().mapping.valid()
    }

    /// Whether only what the cache holds may differ.
    pub open spec fn same_setup(&self, new: &Service) -> bool {
        &&& new.configured() == self.configured()
        &&& new.client() == self.client()
        &&& new.purge_error() == self.purge_error()
    }

    /// Whether nothing differs.
    pub open spec fn unchanged(&self, new: &Service) -> bool {
        self.same_setup(new) && new.cached() == self.cached()
    }

    /// Whether `e` is a reason not to resolve `scim_user`: SQLite failed, or there is
    /// no UID or no GID left for it.
    pub open spec fn user_unresolved(&self, scim_user: ScimUser, e: ServiceError) -> bool {
        let t = self.cached()@;
        let mapping = self.configured().mapping;
        leaves_unresolved(
            e,
            self.cached().exclusive() ==> (t.uid_exhausted(
                scim_user.id@,
                mapping.uid_range_min,
                mapping.uid_range_size,
            ) || t.gid_exhausted(
                primary_group_id(scim_user),
                mapping.gid_range_min,
                mapping.gid_range_size,
            )),
        )
    }

    /// Whether `e` is a reason not to resolve the group `id`: SQLite failed, or there
    /// is no GID left for it.
    pub open spec fn gid_unresolved(&self, id: Seq<char>, e: ServiceError) -> bool {
        let mapping = self.configured().mapping;
        leaves_unresolved(
            e,
            self.cached().exclusive() ==> self.cached()@.gid_exhausted(
                id,
                mapping.gid_range_min,
                mapping.gid_range_size,
            ),
        )
    }

    /// Whether `e` is a reason not to resolve `scim_group`.
    pub open spec fn group_unresolved(&self, scim_group: ScimGroup, e: ServiceError) -> bool {
        self.gid_unresolved(scim_group.id@, e)
    }

    /// A service on this configuration, client and cache. Entries of the cache
    /// that have expired are purged; where that fails, [`Service::purge_failure`] says
    /// why.
    pub fn new(config: Config, scim: ScimClient, cache: Cache) -> (service: Service)
        ensures
            service.configured() == config,
            service.client() == scim,
            cache.shrinks_to(&service.cached()),
            service.purge_error() is None ==> config.cache.ttl_seconds <= i64::MAX,
            service.purge_error() matches Some(e) ==> e is Sqlite,
            exists|now: i64| #[trigger]
                clock_time(now) && (cache.reads_clock(now) || (service.purge_error() is Some
                    && cache.becomes(&service.cached(), cache@))) && (cutoff_exact(
                    now,
                    config.cache.ttl_seconds,
                ) ==> cache.purged(
                    &service.cached(),
                    now,
                    config.cache.ttl_seconds,
                    service.purge_error() is None,
                )),
    {
        let ttl: u64 = config.cache.ttl_seconds;
        let mut cache = cache;
        let purge_failure: Option<CacheError> = match cache.purge_expired(ttl) {
            Ok(_) => None,
            Err(e) => Some(e),
        };
        Service { scim, cache, config, purge_failure }
    }

    /// Why expired entries could not be purged at the start, if they could not.
    pub fn purge_failure(&self) -> (failure: Option<&CacheError>)
        ensures
            match failure {
                Some(e) => self.purge_error() == Some(*e),
                None => self.purge_error() is None,
            },
    {
        match &self.purge_failure {
            Some(e) => Some(e),
            None => None,
        }
    }

    /// The time that the cache goes by: a reading of its clock.
    pub fn now(&self) -> (res: Result<i64, ServiceError>)
        ensures
            res matches Err(e) ==> e matches ServiceError::Cache(c) && c is Sqlite,
            res matches Ok(now) ==> self.cached().reads_clock(now) && clock_time(now),
    {
        match self.cache.now() {
            Ok(now) => Ok(now),
            Err(e) => Err(ServiceError::Cache(e)),
        }
    }

    /// Resolves a SCIM user: its UID and GID come from the cache or from the
    /// configured ranges, the rest from the resource and the defaults.
    pub fn scim_user_to_model(&self, scim_user: &ScimUser) -> (res: Result<User, ServiceError>)
        requires
            self.ranges_valid(),
        ensures
            res matches Ok(user) ==> {
                &&& user.external_id@ == scim_user.id@
                &&& user.name@ == scim_user.user_name@
                &&& user.gecos@ == (match scim_user.display_name {
                    Some(name) => name@,
                    None => Seq::<char>::empty(),
                })
                &&& user.home@ == replaced(
                    self.configured().user_defaults.home_template@,
                    "{user}"@,
                    scim_user.user_name@,
                )
                &&& user.shell@ == self.configured().user_defaults.shell@
                &&& user.active == (match scim_user.active {
                    Some(active) => active,
                    None => true,
                })
                &&& describes_user(self.configured().user_defaults, *scim_user, user@)
                &&& self.cached().exclusive() ==> models_user(
                    self.cached()@,
                    self.configured().mapping,
                    self.configured().user_defaults,
                    *scim_user,
                    user@,
                )
            },
            res matches Err(e) ==> self.user_unresolved(*scim_user, e),
    {
        let mapping: MappingConfig = self.config.mapping;
        let uid: u32 = match self.cache.resolve_uid(
            scim_user.id.as_str(),
            mapping.uid_range_min,
            mapping.uid_range_size,
        ) {
            Ok(uid) => uid,
            Err(e) => return Err(ServiceError::Cache(e)),
        };
        let gid_external: &str = if scim_user.groups.len() > 0 {
            scim_user.groups[0].value.as_str()
        } else {
            scim_user.id.as_str()
        };
        let gid: u32 = match self.cache.resolve_gid(
            gid_external,
            mapping.gid_range_min,
            mapping.gid_range_size,
        ) {
            Ok(gid) => gid,
            Err(e) => return Err(ServiceError::Cache(e)),
        };
        proof {
            reveal_strlit("{user}");
        }
        let home = replace_all(
            self.config.user_defaults.home_template.as_str(),
            "{user}",
            scim_user.user_name.as_str(),
        );
        let gecos: String = match &scim_user.display_name {
            Some(name) => name.clone(),
            None => String::new(),
        };
        let active: bool = match scim_user.active {
            Some(active) => active,
            None => true,
        };
        Ok(
            User {
                external_id: scim_user.id.clone(),
                name: scim_user.user_name.clone(),
                uid,
                gid,
                gecos,
                home,
                shell: self.config.user_defaults.shell.clone(),
                active,
            },
        )
    }

    /// Resolves a SCIM group: its GID comes from the cache or from the configured
    /// range, its members are those that have a display name.
    pub fn scim_group_to_model(&self, scim_group: &ScimGroup) -> (res: Result<Group, ServiceError>)
        requires
            self.ranges_valid(),
        ensures
            res matches Ok(group) ==> {
                &&& describes_group(*scim_group, group@)
                &&& self.cached().exclusive() ==> models_group(
                    self.cached()@,
                    self.configured().mapping,
                    *scim_group,
                    group@,
                )
                &&& group.external_id@ == scim_group.id@
                &&& group.name@ == scim_group.display_name@
                &&& exists|at: Seq<int>| #[trigger]
                    picks_named(scim_group.members@, at) && names_at(
                        scim_group.members@,
                        at,
                        group@.members,
                    )
                &&& forall|i: int|
                    0 <= i < scim_group.members@.len() && (#[trigger] scim_group.members@[i]).display is Some
                        ==> group@.members.contains(scim_group.members@[i].display->0@)
            },
            res matches Err(e) ==> self.group_unresolved(*scim_group, e),
    {
        let mapping: MappingConfig = self.config.mapping;
        let gid: u32 = match self.cache.resolve_gid(
            scim_group.id.as_str(),
            mapping.gid_range_min,
            mapping.gid_range_size,
        ) {
            Ok(gid) => gid,
            Err(e) => return Err(ServiceError::Cache(e)),
        };
        let mut members: Vec<String> = Vec::new();
        for i in 0..scim_group.members.len()
            invariant
                crate::model::texts(members@) == display_names(
                    scim_group.members@.take(i as int),
                ),
        {
            assert(scim_group.members@.take(i + 1).drop_last() =~= scim_group.members@.take(
                i as int,
            ));
            match &scim_group.members[i].display {
                Some(name) => {
                    members.push(name.clone());
                },
                None => {},
            }
            assert(crate::model::texts(members@) =~= display_names(
                scim_group.members@.take(i + 1),
            ));
        }
        assert(scim_group.members@.take(scim_group.members@.len() as int) =~= scim_group.members@);
        proof {
            let at = lemma_display_names(scim_group.members@);
            assert(picks_named(scim_group.members@, at));
        }
        Ok(
            Group {
                external_id: scim_group.id.clone(),
                name: scim_group.display_name.clone(),
                gid,
                members,
            },
        )
    }

    /// The request to send before [`Service::lookup_user_by_name`] and its like:
    /// none for a name that is not looked up.
    pub fn user_by_name_request(&self, name: &str) -> (request: Option<ScimRequest>)
        ensures
            match request {
                Some(r) => !oversized(name@) && r@ == self.client().request(
                    "/Users"@,
                    seq![("filter"@, "userName"@ + " eq \""@ + escaped(name@) + "\""@)],
                ),
                None => oversized(name@),
            },
    {
        if is_oversized(name) {
            None
        } else {
            Some(self.scim.get_user_by_name(name))
        }
    }

    /// The request to send before [`Service::lookup_group_by_name`]: none for a
    /// name that is not looked up.
    pub fn group_by_name_request(&self, name: &str) -> (request: Option<ScimRequest>)
        ensures
            match request {
                Some(r) => !oversized(name@) && r@ == self.client().request(
                    "/Groups"@,
                    seq![("filter"@, "displayName"@ + " eq \""@ + escaped(name@) + "\""@)],
                ),
                None => oversized(name@),
            },
    {
        if is_oversized(name) {
            None
        } else {
            Some(self.scim.get_group_by_name(name))
        }
    }

    /// Check if the SCIM backend is reachable: the request to send.
    pub fn is_online(&self) -> (request: ScimRequest)
        ensures
            request@ == self.client().request("/Users"@, seq![("count"@, "0"@)]),
    {
        self.scim.is_online()
    }

    /// Whether `user` is what `scim_user` was resolved to and stored as at `now`.
    pub open spec fn user_resolved(
        &self,
        new: &Service,
        scim_user: ScimUser,
        user: UserView,
        now: i64,
    ) -> bool {
        &&& self.same_setup(new)
        &&& describes_user(self.configured().user_defaults, scim_user, user)
        &&& self.cached().exclusive() ==> models_user(
            self.cached()@,
            self.configured().mapping,
            self.configured().user_defaults,
            scim_user,
            user,
        )
        &&& self.cached().becomes(
            &new.cached(),
            self.cached()@.put_user(user.external_id, user_row(user, now)),
        )
    }

    /// Whether `user` is what `scim_user` was resolved to, and storing it at `now` came
    /// to `stored`: where that is an error of SQLite, it was not stored.
    pub open spec fn user_kept(
        &self,
        new: &Service,
        scim_user: ScimUser,
        user: UserView,
        stored: Result<(), CacheError>,
        now: i64,
    ) -> bool {
        &&& self.same_setup(new)
        &&& describes_user(self.configured().user_defaults, scim_user, user)
        &&& self.cached().exclusive() ==> models_user(
            self.cached()@,
            self.configured().mapping,
            self.configured().user_defaults,
            scim_user,
            user,
        )
        &&& match stored {
            Ok(_) => self.cached().becomes(
                &new.cached(),
                self.cached()@.put_user(user.external_id, user_row(user, now)),
            ),
            Err(e) => e is Sqlite && self.cached().becomes(&new.cached(), self.cached()@),
        }
    }

    /// Whether `scim_user` was not stored, because of an error of the cache.
    pub open spec fn not_stored(&self, new: &Service, scim_user: ScimUser, e: ServiceError) -> bool {
        &&& self.same_setup(new)
        &&& self.cached().becomes(&new.cached(), self.cached()@)
        &&& self.user_unresolved(scim_user, e)
    }

    /// Resolves a SCIM user and stores it in the cache.
    fn resolve_user(&mut self, scim_user: &ScimUser, now: i64) -> (res: Result<User, ServiceError>)
        requires
            old(self).ranges_valid(),
        ensures
            match res {
                Ok(user) => old(self).user_resolved(final(self), *scim_user, user@, now),
                Err(e) => old(self).not_stored(final(self), *scim_user, e),
            },
    {
        let user = self.scim_user_to_model(scim_user)?;
        match self.cache.store_user_at(&user, now) {
            Ok(_) => Ok(user),
            Err(e) => Err(ServiceError::Cache(e)),
        }
    }

    /// What comes of looking up a user by name at `now`, given what SCIM said.
    pub open spec fn user_looked_up(
        &self,
        new: &Service,
        name: Seq<char>,
        reply: Result<Option<ScimUser>, ScimError>,
        now: i64,
        res: Result<Option<User>, ServiceError>,
    ) -> bool {
        if oversized(name) {
            res == Ok::<Option<User>, ServiceError>(None) && self.unchanged(new)
        } else {
            match reply {
                Ok(Some(scim_user)) => match res {
                    Ok(Some(user)) => self.user_resolved(
                        new,
                        scim_user,
                        user@,
                        now,
                    ),
                    Ok(None) => false,
                    Err(e) => self.not_stored(new, scim_user, e),
                },
                _ => self.unchanged(new) && match res {
                    Ok(found) => self.cached().user_by_name_answer(name, now, found),
                    Err(e) => e matches ServiceError::Cache(c) && c is Sqlite,
                },
            }
        }
    }

    /// Look up a user by login name. Tries SCIM first, falls back to cache.
    ///
    /// `reply` is what SCIM said to [`Service::user_by_name_request`]. A name that
    /// is too long is nobody's.
    pub fn lookup_user_by_name(
        &mut self,
        name: &str,
        reply: Result<Option<ScimUser>, ScimError>,
        now: i64,
    ) -> (res: Result<Option<User>, ServiceError>)
        requires
            old(self).ranges_valid(),
        ensures
            old(self).user_looked_up(final(self), name@, reply, now, res),
    {
        if is_oversized(name) {
            return Ok(None);
        }
        match reply {
            Ok(Some(scim_user)) => {
                let user = self.resolve_user(&scim_user, now)?;
                Ok(Some(user))
            },
            _ => match self.cache.get_user_by_name_at(name, now) {
                Ok(found) => Ok(found),
                Err(e) => Err(ServiceError::Cache(e)),
            },
        }
    }

    /// Look up a user by UID, in the cache: SCIM cannot be asked for a UID, so
    /// only users that were resolved before are found.
    pub fn lookup_user_by_uid(&self, uid: u32, now: i64) -> (res: Result<
        Option<User>,
        ServiceError,
    >)
        ensures
            match res {
                Ok(found) => self.cached().user_by_uid_answer(uid, now, found),
                Err(e) => e matches ServiceError::Cache(c) && c is Sqlite,
            },
    {
        match self.cache.get_user_by_uid_at(uid, now) {
            Ok(found) => Ok(found),
            Err(e) => Err(ServiceError::Cache(e)),
        }
    }

    /// Whether `group` is what `scim_group` was resolved to and stored as at `now`.
    pub open spec fn group_resolved(
        &self,
        new: &Service,
        scim_group: ScimGroup,
        group: GroupView,
        now: i64,
    ) -> bool {
        &&& self.same_setup(new)
        &&& describes_group(scim_group, group)
        &&& self.cached().exclusive() ==> models_group(
            self.cached()@,
            self.configured().mapping,
            scim_group,
            group,
        )
        &&& self.cached().group_stored(&new.cached(), group, now)
    }

    /// Whether `group` is what `scim_group` was resolved to, and storing it at `now` came
    /// to `stored`: where that is an error of SQLite, it was not stored, or not whole.
    pub open spec fn group_kept(
        &self,
        new: &Service,
        scim_group: ScimGroup,
        group: GroupView,
        stored: Result<(), CacheError>,
        now: i64,
    ) -> bool {
        &&& self.same_setup(new)
        &&& describes_group(scim_group, group)
        &&& self.cached().exclusive() ==> models_group(
            self.cached()@,
            self.configured().mapping,
            scim_group,
            group,
        )
        &&& match stored {
            Ok(_) => self.cached().group_stored(&new.cached(), group, now),
            Err(e) => e is Sqlite && self.cached().group_not_stored(&new.cached(), group, now),
        }
    }

    /// Whether `scim_group` could not be resolved or could not be stored at `now`,
    /// because of an error of the cache.
    pub open spec fn group_not_resolved(
        &self,
        new: &Service,
        scim_group: ScimGroup,
        e: ServiceError,
        now: i64,
    ) -> bool {
        &&& self.same_setup(new)
        &&& self.group_unresolved(scim_group, e)
        &&& self.cached().becomes(&new.cached(), self.cached()@) || exists|group: GroupView|
            {
                &&& #[trigger] describes_group(scim_group, group)
                &&& self.cached().exclusive() ==> models_group(
                    self.cached()@,
                    self.configured().mapping,
                    scim_group,
                    group,
                )
                &&& self.cached().group_not_stored(&new.cached(), group, now)
            }
    }

    /// Resolves a SCIM group and stores it in the cache.
    fn resolve_group(&mut self, scim_group: &ScimGroup, now: i64) -> (res: Result<
        Group,
        ServiceError,
    >)
        requires
            old(self).ranges_valid(),
        ensures
            match res {
                Ok(group) => old(self).group_resolved(final(self), *scim_group, group@, now),
                Err(e) => old(self).group_not_resolved(final(self), *scim_group, e, now),
            },
    {
        match self.scim_group_to_model(scim_group) {
            Ok(group) => match self.cache.store_group_at(&group, now) {
                Ok(_) => Ok(group),
                Err(e) => {
                    assert(describes_group(*scim_group, group@));
                    Err(ServiceError::Cache(e))
                },
            },
            Err(e) => Err(e),
        }
    }

    /// What comes of looking up a group by name at `now`, given what SCIM said.
    pub open spec fn group_looked_up(
        &self,
        new: &Service,
        name: Seq<char>,
        reply: Result<Option<ScimGroup>, ScimError>,
        now: i64,
        res: Result<Option<Group>, ServiceError>,
    ) -> bool {
        if oversized(name) {
            res == Ok::<Option<Group>, ServiceError>(None) && self.unchanged(new)
        } else {
            match reply {
                Ok(Some(scim_group)) => match res {
                    Ok(Some(group)) => self.group_resolved(
                        new,
                        scim_group,
                        group@,
                        now,
                    ),
                    Ok(None) => false,
                    Err(e) => self.group_not_resolved(new, scim_group, e, now),
                },
                _ => self.unchanged(new) && match res {
                    Ok(found) => self.cached().group_by_name_answer(name, now, found),
                    Err(e) => e matches ServiceError::Cache(c) && c is Sqlite,
                },
            }
        }
    }

    /// Look up a group by name. Tries SCIM first, falls back to cache.
    ///
    /// `reply` is what SCIM said to [`Service::group_by_name_request`]. A name that
    /// is too long is no group's.
    pub fn lookup_group_by_name(
        &mut self,
        name: &str,
        reply: Result<Option<ScimGroup>, ScimError>,
        now: i64,
    ) -> (res: Result<Option<Group>, ServiceError>)
        requires
            old(self).ranges_valid(),
        ensures
            old(self).group_looked_up(final(self), name@, reply, now, res),
    {
        if is_oversized(name) {
            return Ok(None);
        }
        match reply {
            Ok(Some(scim_group)) => {
                let group = self.resolve_group(&scim_group, now)?;
                Ok(Some(group))
            },
            _ => match self.cache.get_group_by_name_at(name, now) {
                Ok(found) => Ok(found),
                Err(e) => Err(ServiceError::Cache(e)),
            },
        }
    }

    /// Look up a group by GID, in the cache.
    pub fn lookup_group_by_gid(&self, gid: u32, now: i64) -> (res: Result<
        Option<Group>,
        ServiceError,
    >)
        ensures
            match res {
                Ok(found) => self.cached().group_by_gid_answer(gid, now, found),
                Err(e) => e matches ServiceError::Cache(c) && c is Sqlite,
            },
    {
        match self.cache.get_group_by_gid_at(gid, now) {
            Ok(found) => Ok(found),
            Err(e) => Err(ServiceError::Cache(e)),
        }
    }

    /// What comes of asking at `now` whether a user is active, given what SCIM said.
    pub open spec fn activity_checked(
        &self,
        new: &Service,
        name: Seq<char>,
        reply: Result<Option<ScimUser>, ScimError>,
        now: i64,
        res: Result<bool, ServiceError>,
    ) -> bool {
        if oversized(name) {
            res == Ok::<bool, ServiceError>(false) && self.unchanged(new)
        } else {
            match reply {
                Ok(Some(scim_user)) => match res {
                    Ok(active) => active == (scim_user.active != Some(false)) && exists|
                        user: UserView,
                    | #[trigger]
                        self.user_resolved(new, scim_user, user, now),
                    Err(e) => self.not_stored(new, scim_user, e),
                },
                Ok(None) => res == Ok::<bool, ServiceError>(false) && self.unchanged(
                    new,
                ),
                Err(_) => self.unchanged(new) && match self.configured().security.offline_auth_policy {
                    OfflineAuthPolicy::Deny => res == Ok::<bool, ServiceError>(false),
                    OfflineAuthPolicy::CachedStatus => match res {
                        Ok(active) => exists|found: Option<User>| #[trigger]
                            self.cached().user_by_name_answer(name, now, found) && active
                                == (found matches Some(user) && user.active),
                        Err(e) => e matches ServiceError::Cache(c) && c is Sqlite,
                    },
                },
            }
        }
    }

    /// Check if a user is active. Tries SCIM first; where SCIM did not answer, the
    /// offline policy decides: `deny` lets nobody in, `cached_status` those whom
    /// the cache knows as active.
    ///
    /// `reply` is what SCIM said to [`Service::user_by_name_request`]. A user that
    /// SCIM does not know, or whose name is too long, is not active.
    pub fn check_user_active(
        &mut self,
        name: &str,
        reply: Result<Option<ScimUser>, ScimError>,
        now: i64,
    ) -> (res: Result<bool, ServiceError>)
        requires
            old(self).ranges_valid(),
        ensures
            old(self).activity_checked(final(self), name@, reply, now, res),
    {
        if is_oversized(name) {
            return Ok(false);
        }
        match reply {
            Ok(Some(scim_user)) => {
                let user = self.resolve_user(&scim_user, now)?;
                assert(old(self).user_resolved(self, scim_user, user@, now));
                Ok(user.active)
            },
            Ok(None) => Ok(false),
            Err(_) => match self.config.security.offline_auth_policy {
                OfflineAuthPolicy::Deny => Ok(false),
                OfflineAuthPolicy::CachedStatus => {
                    match self.cache.get_user_by_name_at(name, now) {
                        Ok(found) => {
                            assert(old(self).cached().user_by_name_answer(name@, now, found));
                            match found {
                                Some(user) => Ok(user.active),
                                None => Ok(false),
                            }
                        },
                        Err(e) => Err(ServiceError::Cache(e)),
                    }
                },
            },
        }
    }

    /// Whether `gids` are the GIDs of the groups that `scim_user` names, in order.
    pub open spec fn resolves_groups(&self, scim_user: ScimUser, gids: Seq<u32>) -> bool {
        &&& gids.len() == scim_user.groups@.len()
        &&& self.cached().exclusive() ==> forall|i: int|
            0 <= i < gids.len() ==> self.cached()@.resolves_gid(
                scim_user.groups@[i].value@,
                self.configured().mapping.gid_range_min,
                self.configured().mapping.gid_range_size,
                #[trigger] gids[i],
            )
    }

    /// What comes of looking up the groups of a user at `now`, given what SCIM said.
    pub open spec fn groups_looked_up(
        &self,
        new: &Service,
        name: Seq<char>,
        reply: Result<Option<ScimUser>, ScimError>,
        now: i64,
        res: Result<Vec<u32>, ServiceError>,
    ) -> bool {
        if oversized(name) {
            &&& res matches Ok(gids) && gids@ == Seq::<u32>::empty()
            &&& self.unchanged(new)
        } else {
            match reply {
                Ok(Some(scim_user)) => match res {
                    Ok(gids) => {
                        &&& new.resolves_groups(scim_user, gids@)
                        &&& exists|user: UserView| #[trigger]
                            self.user_resolved(new, scim_user, user, now)
                    },
                    Err(e) => {
                        ||| self.not_stored(new, scim_user, e)
                        ||| {
                            &&& exists|user: UserView| #[trigger]
                                self.user_resolved(new, scim_user, user, now)
                            &&& exists|i: int|
                                0 <= i < scim_user.groups@.len() && new.gid_unresolved(
                                    (#[trigger] scim_user.groups@[i]).value@,
                                    e,
                                )
                        }
                    },
                },
                Ok(None) => {
                    &&& res matches Ok(gids) && gids@ == Seq::<u32>::empty()
                    &&& self.unchanged(new)
                },
                Err(_) => self.unchanged(new) && match res {
                    Ok(gids) => exists|groups: Seq<Group>| #[trigger]
                        self.cached().groups_of_answer(name, now, groups) && gids@
                            == groups.map_values(|g: Group| g.gid),
                    Err(e) => e matches ServiceError::Cache(c) && c is Sqlite,
                },
            }
        }
    }

    /// Look up all groups a user belongs to by login name.
    /// Returns the GIDs from the user's SCIM `groups` attribute, or, where SCIM did
    /// not answer, of the cached groups that list the user.
    ///
    /// `reply` is what SCIM said to [`Service::user_by_name_request`]. A user that
    /// SCIM does not know, or whose name is too long, belongs to no group.
    pub fn lookup_groups_for_user(
        &mut self,
        name: &str,
        reply: Result<Option<ScimUser>, ScimError>,
        now: i64,
    ) -> (res: Result<Vec<u32>, ServiceError>)
        requires
            old(self).ranges_valid(),
        ensures
            old(self).groups_looked_up(final(self), name@, reply, now, res),
    {
        if is_oversized(name) {
            return Ok(Vec::new());
        }
        match reply {
            Ok(Some(scim_user)) => {
                let user = self.resolve_user(&scim_user, now)?;
                let mapping: MappingConfig = self.config.mapping;
                let mut gids: Vec<u32> = Vec::new();
                let ghost stored = *self;
                assert(old(self).user_resolved(self, scim_user, user@, now));
                for i in 0..scim_user.groups.len()
                    invariant
                        *self == stored,
                        mapping == stored.configured().mapping,
                        mapping.valid(),
                        gids@.len() == i,
                        old(self).user_resolved(&stored, scim_user, user@, now),
                        !oversized(name@),
                        reply == Ok::<Option<ScimUser>, ScimError>(Some(scim_user)),
                        stored.cached().exclusive() ==> forall|j: int|
                            0 <= j < i ==> stored.cached()@.resolves_gid(
                                scim_user.groups@[j].value@,
                                mapping.gid_range_min,
                                mapping.gid_range_size,
                                #[trigger] gids@[j],
                            ),
                {
                    match self.cache.resolve_gid(
                        scim_user.groups[i].value.as_str(),
                        mapping.gid_range_min,
                        mapping.gid_range_size,
                    ) {
                        Ok(gid) => {
                            gids.push(gid);
                        },
                        Err(e) => {
                            return Err(ServiceError::Cache(e));
                        },
                    }
                }
                Ok(gids)
            },
            Ok(None) => Ok(Vec::new()),
            Err(_) => {
                let groups: Vec<Group> = match self.cache.get_groups_for_member_at(name, now) {
                    Ok(groups) => groups,
                    Err(e) => return Err(ServiceError::Cache(e)),
                };
                assert(old(self).cached().groups_of_answer(name@, now, groups@));
                let mut gids: Vec<u32> = Vec::new();
                for i in 0..groups.len()
                    invariant
                        gids@ == groups@.take(i as int).map_values(|g: Group| g.gid),
                {
                    gids.push(groups[i].gid);
                    assert(gids@ =~= groups@.take(i + 1).map_values(|g: Group| g.gid));
                }
                assert(groups@.take(groups@.len() as int) =~= groups@);
                Ok(gids)
            },
        }
    }

    /// Whether `users` are what `scim_users` were resolved to, one after the other,
    /// each stored at `now` before the next was resolved.
    pub open spec fn users_resolved(
        &self,
        new: &Service,
        scim_users: Seq<ScimUser>,
        users: Seq<User>,
        now: i64,
    ) -> bool {
        &&& self.same_setup(new)
        &&& users.len() == scim_users.len()
        &&& forall|i: int|
            0 <= i < users.len() ==> describes_user(
                self.configured().user_defaults,
                scim_users[i],
                (#[trigger] users[i])@,
            )
        &&& self.cached().exclusive() ==> forall|i: int|
            0 <= i < users.len() ==> models_user(
                stored_users(self.cached()@, users.take(i), now),
                self.configured().mapping,
                self.configured().user_defaults,
                scim_users[i],
                (#[trigger] users[i])@,
            )
        &&& self.cached().becomes(&new.cached(), stored_users(self.cached()@, users, now))
    }

    /// Whether some of `scim_users` were resolved and stored at `now`, and the next
    /// one was not because of an error of the cache.
    pub open spec fn users_partly_resolved(
        &self,
        new: &Service,
        scim_users: Seq<ScimUser>,
        e: ServiceError,
        now: i64,
    ) -> bool {
        exists|users: Seq<User>|
            {
                &&& users.len() < scim_users.len()
                &&& #[trigger] self.users_resolved(
                    new,
                    scim_users.take(users.len() as int),
                    users,
                    now,
                )
                &&& new.user_unresolved(scim_users[users.len() as int], e)
            }
    }

    /// List all users from SCIM, convert to models, and cache each.
    ///
    /// `reply` is what came of [`ScimClient::list_users`]. The first user that
    /// cannot be resolved or stored ends the list with that error; those before it
    /// stay in the cache.
    pub fn list_all_users(&mut self, reply: Result<Vec<ScimUser>, ScimError>, now: i64) -> (res:
        Result<Vec<User>, ServiceError>)
        requires
            old(self).ranges_valid(),
        ensures
            match reply {
                Err(failure) => res == Err::<Vec<User>, ServiceError>(ServiceError::Scim(failure))
                    && old(self).unchanged(final(self)),
                Ok(scim_users) => match res {
                    Ok(users) => old(self).users_resolved(
                        final(self),
                        scim_users@,
                        users@,
                        now,
                    ),
                    Err(e) => old(self).users_partly_resolved(final(self), scim_users@, e, now),
                },
            },
    {
        let scim_users: Vec<ScimUser> = match reply {
            Ok(scim_users) => scim_users,
            Err(e) => return Err(ServiceError::Scim(e)),
        };
        let mut users: Vec<User> = Vec::new();
        assert(old(self).users_resolved(self, scim_users@.take(0), users@, now));
        for i in 0..scim_users.len()
            invariant
                self.ranges_valid(),
                users@.len() == i,
                reply == Ok::<Vec<ScimUser>, ScimError>(scim_users),
                old(self).users_resolved(self, scim_users@.take(i as int), users@, now),
        {
            let ghost before = *self;
            let ghost done = users@;
            match self.resolve_user(&scim_users[i], now) {
                Ok(user) => {
                    users.push(user);
                    proof {
                        lemma_one_more_user(
                            old(self),
                            &before,
                            self,
                            scim_users@,
                            done,
                            user,
                            now,
                        );
                    }
                },
                Err(e) => {
                    proof {
                        assert(before.not_stored(self, scim_users@[i as int], e));
                        assert(old(self).users_resolved(
                            self,
                            scim_users@.take(done.len() as int),
                            done,
                            now,
                        ));
                        assert(old(self).users_partly_resolved(self, scim_users@, e, now));
                    }
                    return Err(e);
                },
            }
        }
        assert(scim_users@.take(scim_users@.len() as int) =~= scim_users@);
        Ok(users)
    }

    /// Whether `groups` are what `scim_groups` were resolved to, one after the
    /// other, each stored at `now` before the next was resolved.
    pub open spec fn groups_resolved(
        &self,
        new: &Service,
        scim_groups: Seq<ScimGroup>,
        groups: Seq<Group>,
        now: i64,
    ) -> bool {
        &&& self.same_setup(new)
        &&& groups.len() == scim_groups.len()
        &&& forall|i: int|
            0 <= i < groups.len() ==> describes_group(scim_groups[i], (#[trigger] groups[i])@)
        &&& self.cached().exclusive() ==> forall|i: int|
            0 <= i < groups.len() ==> models_group(
                stored_groups(self.cached()@, groups.take(i), now),
                self.configured().mapping,
                scim_groups[i],
                (#[trigger] groups[i])@,
            )
        &&& self.cached().becomes(&new.cached(), stored_groups(self.cached()@, groups, now))
    }

    /// Whether some of `scim_groups` were resolved and stored at `now`, and the next
    /// one was not because of an error of the cache.
    pub open spec fn groups_partly_resolved(
        &self,
        new: &Service,
        scim_groups: Seq<ScimGroup>,
        e: ServiceError,
        now: i64,
    ) -> bool {
        exists|groups: Seq<Group>, before: Service|
            {
                &&& groups.len() < scim_groups.len()
                &&& #[trigger] self.groups_resolved(
                    &before,
                    scim_groups.take(groups.len() as int),
                    groups,
                    now,
                )
                &&& before.group_not_resolved(new, scim_groups[groups.len() as int], e, now)
            }
    }

    /// List all groups from SCIM, convert to models, and cache each.
    ///
    /// `reply` is what came of [`ScimClient::list_groups`]. The first group that
    /// cannot be resolved or stored ends the list with that error; those before it
    /// stay in the cache.
    pub fn list_all_groups(&mut self, reply: Result<Vec<ScimGroup>, ScimError>, now: i64) -> (res:
        Result<Vec<Group>, ServiceError>)
        requires
            old(self).ranges_valid(),
        ensures
            match reply {
                Err(failure) => res == Err::<Vec<Group>, ServiceError>(ServiceError::Scim(failure))
                    && old(self).unchanged(final(self)),
                Ok(scim_groups) => match res {
                    Ok(groups) => old(self).groups_resolved(
                        final(self),
                        scim_groups@,
                        groups@,
                        now,
                    ),
                    Err(e) => old(self).groups_partly_resolved(final(self), scim_groups@, e, now),
                },
            },
    {
        let scim_groups: Vec<ScimGroup> = match reply {
            Ok(scim_groups) => scim_groups,
            Err(e) => return Err(ServiceError::Scim(e)),
        };
        let mut groups: Vec<Group> = Vec::new();
        assert(old(self).groups_resolved(self, scim_groups@.take(0), groups@, now));
        for i in 0..scim_groups.len()
            invariant
                self.ranges_valid(),
                groups@.len() == i,
                reply == Ok::<Vec<ScimGroup>, ScimError>(scim_groups),
                old(self).groups_resolved(self, scim_groups@.take(i as int), groups@, now),
        {
            let ghost before = *self;
            let ghost done = groups@;
            match self.resolve_group(&scim_groups[i], now) {
                Ok(group) => {
                    groups.push(group);
                    proof {
                        lemma_one_more_group(
                            old(self),
                            &before,
                            self,
                            scim_groups@,
                            done,
                            group,
                            now,
                        );
                    }
                },
                Err(e) => {
                    proof {
                        assert(before.group_not_resolved(self, scim_groups@[i as int], e, now));
                        assert(old(self).groups_resolved(
                            &before,
                            scim_groups@.take(done.len() as int),
                            done,
                            now,
                        ));
                        assert(old(self).groups_partly_resolved(self, scim_groups@, e, now));
                    }
                    return Err(e);
                },
            }
        }
        assert(scim_groups@.take(scim_groups@.len() as int) =~= scim_groups@);
        Ok(groups)
    }

    /// Resolves all of `scim_users` for an enumeration and caches each. One that
    /// cannot be resolved is left out and its error kept; one that cannot be stored
    /// is kept all the same, with the error of the cache.
    pub fn enumerate_users(&mut self, scim_users: &Vec<ScimUser>, now: i64) -> (res: Enumerated<
        User,
    >)
        requires
            old(self).ranges_valid(),
        ensures
            old(self).same_setup(final(self)),
            old(self).cached().same_cache(&final(self).cached()),
            old(self).cached().wf() ==> final(self).cached().wf(),
            users_enumerated(
                *old(self),
                *final(self),
                scim_users@,
                res.entries@,
                res.stored@,
                res.failures@,
                now,
            ),
    {
        let mut entries: Vec<User> = Vec::new();
        let mut stored: Vec<Result<(), CacheError>> = Vec::new();
        let mut failures: Vec<ServiceError> = Vec::new();
        for i in 0..scim_users.len()
            invariant
                self.ranges_valid(),
                old(self).same_setup(self),
                old(self).cached().same_cache(&self.cached()),
                old(self).cached().wf() ==> self.cached().wf(),
                users_enumerated(
                    *old(self),
                    *self,
                    scim_users@.take(i as int),
                    entries@,
                    stored@,
                    failures@,
                    now,
                ),
        {
            let ghost before = *self;
            let ghost kept = entries@;
            let ghost outcomes = stored@;
            let ghost failed = failures@;
            let ghost next = scim_users@.take(i + 1);
            assert(next.drop_last() =~= scim_users@.take(i as int));
            assert(next.last() == scim_users@[i as int]);
            match self.scim_user_to_model(&scim_users[i]) {
                Ok(user) => {
                    let outcome = self.cache.store_user_at(&user, now);
                    assert(before.user_kept(self, next.last(), user@, outcome, now));
                    entries.push(user);
                    stored.push(outcome);
                    assert(entries@.drop_last() =~= kept);
                    assert(stored@.drop_last() =~= outcomes);
                    proof {
                        lemma_user_enumerated(
                            *old(self),
                            before,
                            *self,
                            next,
                            entries@,
                            stored@,
                            failures@,
                            now,
                        );
                    }
                },
                Err(e) => {
                    failures.push(e);
                    assert(failures@.drop_last() =~= failed);
                },
            }
        }
        assert(scim_users@.take(scim_users@.len() as int) =~= scim_users@);
        Enumerated { entries, stored, failures }
    }

    /// Resolves all of `scim_groups` for an enumeration and caches each. One that
    /// cannot be resolved is left out and its error kept; one that cannot be stored
    /// is kept all the same, with the error of the cache.
    pub fn enumerate_groups(&mut self, scim_groups: &Vec<ScimGroup>, now: i64) -> (res: Enumerated<
        Group,
    >)
        requires
            old(self).ranges_valid(),
        ensures
            old(self).same_setup(final(self)),
            old(self).cached().same_cache(&final(self).cached()),
            old(self).cached().wf() ==> final(self).cached().wf(),
            groups_enumerated(
                *old(self),
                *final(self),
                scim_groups@,
                res.entries@,
                res.stored@,
                res.failures@,
                now,
            ),
    {
        let mut entries: Vec<Group> = Vec::new();
        let mut stored: Vec<Result<(), CacheError>> = Vec::new();
        let mut failures: Vec<ServiceError> = Vec::new();
        for i in 0..scim_groups.len()
            invariant
                self.ranges_valid(),
                old(self).same_setup(self),
                old(self).cached().same_cache(&self.cached()),
                old(self).cached().wf() ==> self.cached().wf(),
                groups_enumerated(
                    *old(self),
                    *self,
                    scim_groups@.take(i as int),
                    entries@,
                    stored@,
                    failures@,
                    now,
                ),
        {
            let ghost before = *self;
            let ghost kept = entries@;
            let ghost outcomes = stored@;
            let ghost failed = failures@;
            let ghost next = scim_groups@.take(i + 1);
            assert(next.drop_last() =~= scim_groups@.take(i as int));
            assert(next.last() == scim_groups@[i as int]);
            match self.scim_group_to_model(&scim_groups[i]) {
                Ok(group) => {
                    let outcome = self.cache.store_group_at(&group, now);
                    assert(before.group_kept(self, next.last(), group@, outcome, now));
                    entries.push(group);
                    stored.push(outcome);
                    assert(entries@.drop_last() =~= kept);
                    assert(stored@.drop_last() =~= outcomes);
                    proof {
                        lemma_group_enumerated(
                            *old(self),
                            before,
                            *self,
                            next,
                            entries@,
                            stored@,
                            failures@,
                            now,
                        );
                    }
                },
                Err(e) => {
                    failures.push(e);
                    assert(failures@.drop_last() =~= failed);
                },
            }
        }
        assert(scim_groups@.take(scim_groups@.len() as int) =~= scim_groups@);
        Enumerated { entries, stored, failures }
    }
}

proof fn lemma_user_enumerated(
    first: Service,
    before: Service,
    last: Service,
    scim_users: Seq<ScimUser>,
    entries: Seq<User>,
    stored: Seq<Result<(), CacheError>>,
    failures: Seq<ServiceError>,
    now: i64,
)
    requires
        scim_users.len() > 0,
        entries.len() > 0,
        stored.len() > 0,
        before.user_kept(&last, scim_users.last(), entries.last()@, stored.last(), now),
        users_enumerated(
            first,
            before,
            scim_users.drop_last(),
            entries.drop_last(),
            stored.drop_last(),
            failures,
            now,
        ),
    ensures
        users_enumerated(first, last, scim_users, entries, stored, failures, now),
{
}

proof fn lemma_one_more_user(
    first: &Service,
    before: &Service,
    after: &Service,
    scim_users: Seq<ScimUser>,
    done: Seq<User>,
    user: User,
    now: i64,
)
    requires
        done.len() < scim_users.len(),
        first.users_resolved(before, scim_users.take(done.len() as int), done, now),
        before.user_resolved(after, scim_users[done.len() as int], user@, now),
    ensures
        first.users_resolved(
            after,
            scim_users.take(done.len() as int + 1),
            done.push(user),
            now,
        ),
{
    let n = done.len() as int;
    let users = done.push(user);
    assert(users.drop_last() =~= done);
    assert(users.take(n) =~= done);
    assert(stored_users(first.cached()@, users, now) == stored_users(
        first.cached()@,
        done,
        now,
    ).put_user(user@.external_id, user_row(user@, now)));
    if first.cached().exclusive() {
        assert forall|i: int| 0 <= i < users.len() implies models_user(
            stored_users(first.cached()@, users.take(i), now),
            first.configured().mapping,
            first.configured().user_defaults,
            scim_users.take(n + 1)[i],
            (#[trigger] users[i])@,
        ) by {
            if i < n {
                assert(users.take(i) =~= done.take(i));
                assert(users[i] == done[i]);
                assert(scim_users.take(n)[i] == scim_users[i]);
            }
        }
    }
    assert forall|i: int| 0 <= i < users.len() implies describes_user(
        first.configured().user_defaults,
        scim_users.take(n + 1)[i],
        (#[trigger] users[i])@,
    ) by {
        if i < n {
            assert(users[i] == done[i]);
            assert(scim_users.take(n)[i] == scim_users[i]);
        }
    }
}

proof fn lemma_group_enumerated(
    first: Service,
    before: Service,
    last: Service,
    scim_groups: Seq<ScimGroup>,
    entries: Seq<Group>,
    stored: Seq<Result<(), CacheError>>,
    failures: Seq<ServiceError>,
    now: i64,
)
    requires
        scim_groups.len() > 0,
        entries.len() > 0,
        stored.len() > 0,
        before.group_kept(&last, scim_groups.last(), entries.last()@, stored.last(), now),
        groups_enumerated(
            first,
            before,
            scim_groups.drop_last(),
            entries.drop_last(),
            stored.drop_last(),
            failures,
            now,
        ),
    ensures
        groups_enumerated(first, last, scim_groups, entries, stored, failures, now),
{
}

proof fn lemma_one_more_group(
    first: &Service,
    before: &Service,
    after: &Service,
    scim_groups: Seq<ScimGroup>,
    done: Seq<Group>,
    group: Group,
    now: i64,
)
    requires
        done.len() < scim_groups.len(),
        first.groups_resolved(before, scim_groups.take(done.len() as int), done, now),
        before.group_resolved(after, scim_groups[done.len() as int], group@, now),
    ensures
        first.groups_resolved(
            after,
            scim_groups.take(done.len() as int + 1),
            done.push(group),
            now,
        ),
{
    let n = done.len() as int;
    let groups = done.push(group);
    assert(groups.drop_last() =~= done);
    assert(groups.take(n) =~= done);
    assert(stored_groups(first.cached()@, groups, now) == stored_groups(
        first.cached()@,
        done,
        now,
    ).put_group_with(group@, now, group@.members.len() as int));
    if first.cached().exclusive() {
        assert forall|i: int| 0 <= i < groups.len() implies models_group(
            stored_groups(first.cached()@, groups.take(i), now),
            first.configured().mapping,
            scim_groups.take(n + 1)[i],
            (#[trigger] groups[i])@,
        ) by {
            if i < n {
                assert(groups.take(i) =~= done.take(i));
                assert(groups[i] == done[i]);
                assert(scim_groups.take(n)[i] == scim_groups[i]);
            }
        }
    }
    assert forall|i: int| 0 <= i < groups.len() implies describes_group(
        scim_groups.take(n + 1)[i],
        (#[trigger] groups[i])@,
    ) by {
        if i < n {
            assert(groups[i] == done[i]);
            assert(scim_groups.take(n)[i] == scim_groups[i]);
        }
    }
}

/// What the cache holds after `users` have been stored one after the other.
pub open spec fn stored_users(t: Tables, users: Seq<User>, now: i64) -> Tables
    decreases users.len(),
{
    if users.len() == 0 {
        t
    } else {
        stored_users(t, users.drop_last(), now).put_user(
            users.last()@.external_id,
            user_row(users.last()@, now),
        )
    }
}

/// What the cache holds after `groups` have been stored one after the other.
pub open spec fn stored_groups(t: Tables, groups: Seq<Group>, now: i64) -> Tables
    decreases groups.len(),
{
    if groups.len() == 0 {
        t
    } else {
        stored_groups(t, groups.drop_last(), now).put_group_with(
            groups.last()@,
            now,
            groups.last()@.members.len() as int,
        )
    }
}

/// A user that was resolved through SCIM is found by UID in the cache for as long
/// as the entry is fresh, whether SCIM can be reached or not.
pub proof fn lemma_resolved_user_is_found_by_uid(
    before: &Service,
    after: &Service,
    scim_user: ScimUser,
    user: UserView,
    now: i64,
    later: i64,
    found: Option<User>,
)
    requires
        before.cached().exclusive(),
        before.cached().wf(),
        before.user_resolved(after, scim_user, user, now),
        fresh(now, later, after.cached().ttl()),
        cutoff_exact(later, after.cached().ttl()),
        after.cached().user_by_uid_answer(user.uid, later, found),
    ensures
        user_view(found) == Some(user),
{
    lemma_user_read_back(
        before.cached()@,
        user,
        now,
        later,
        after.cached().ttl(),
        user_view(found),
    );
}

/// A user that was resolved through SCIM is found by name in the cache for as
/// long as the entry is fresh, also when SCIM does not answer, unless another
/// user has that name too.
pub proof fn lemma_resolved_user_is_found_offline(
    before: &Service,
    after: &Service,
    scim_user: ScimUser,
    user: UserView,
    now: i64,
    later: i64,
    found: Option<User>,
)
    requires
        before.cached().exclusive(),
        before.user_resolved(after, scim_user, user, now),
        forall|id: Seq<char>|
            id != user.external_id && #[trigger] before.cached()@.users.contains_key(id)
                ==> before.cached()@.users[id].login != user.name,
        fresh(now, later, after.cached().ttl()),
        cutoff_exact(later, after.cached().ttl()),
        after.cached().user_by_name_answer(user.name, later, found),
    ensures
        user_view(found) == Some(user),
{
    lemma_user_read_back_by_name(
        before.cached()@,
        user,
        now,
        later,
        after.cached().ttl(),
        user_view(found),
    );
}

/// A group that was resolved through SCIM is found by GID in the cache for as long
/// as the entry is fresh, with the same members.
pub proof fn lemma_resolved_group_is_found_by_gid(
    before: &Service,
    after: &Service,
    scim_group: ScimGroup,
    group: GroupView,
    now: i64,
    later: i64,
    found: Option<Group>,
)
    requires
        before.cached().exclusive(),
        before.cached().wf(),
        before.group_resolved(after, scim_group, group, now),
        fresh(now, later, after.cached().ttl()),
        cutoff_exact(later, after.cached().ttl()),
        after.cached().group_by_gid_answer(group.gid, later, found),
    ensures
        found matches Some(g) && g@.external_id == group.external_id && g@.name == group.name
            && g@.gid == group.gid && g@.members.no_duplicates() && forall|m: Seq<char>|
            #[trigger] g@.members.contains(m) <==> group.members.contains(m),
{
    lemma_group_read_back(
        before.cached()@,
        group,
        now,
        later,
        after.cached().ttl(),
        group_view(found),
    );
}

/// Resolving a user takes no other user's place in the cache, and the user keeps
/// its UID when it is resolved again.
pub proof fn lemma_resolved_uid_is_kept(
    before: &Service,
    after: &Service,
    scim_user: ScimUser,
    user: UserView,
    now: i64,
    again: UserView,
)
    requires
        before.cached().exclusive(),
        before.cached().wf(),
        before.user_resolved(after, scim_user, user, now),
        models_user(
            after.cached()@,
            after.configured().mapping,
            after.configured().user_defaults,
            scim_user,
            again,
        ),
    ensures
        again.uid == user.uid,
        after.cached()@.users == before.cached()@.users.insert(
            user.external_id,
            user_row(user, now),
        ),
{
    lemma_resolved_uid_is_stable(
        before.cached()@,
        user,
        now,
        before.configured().mapping.uid_range_min,
        before.configured().mapping.uid_range_size,
    );
}

/// Users that were resolved and stored one after the other are all there in the end,
/// and nobody else's entry has changed.
#[verifier::rlimit(40)]
proof fn lemma_stored_users(
    t: Tables,
    mapping: MappingConfig,
    defaults: UserDefaultsConfig,
    scim_users: Seq<ScimUser>,
    users: Seq<User>,
    now: i64,
    n: int,
)
    requires
        t.wf(),
        0 <= n <= users.len(),
        users.len() == scim_users.len(),
        distinct_users(scim_users),
        forall|i: int|
            0 <= i < users.len() ==> models_user(
                stored_users(t, users.take(i), now),
                mapping,
                defaults,
                scim_users[i],
                (#[trigger] users[i])@,
            ),
    ensures
        stored_users(t, users.take(n), now).wf(),
        forall|i: int|
            0 <= i < n ==> holds_user(
                stored_users(t, users.take(n), now),
                (#[trigger] users[i])@,
                now,
            ),
        forall|k: Seq<char>|
            (forall|i: int| 0 <= i < n ==> (#[trigger] scim_users[i]).id@ != k) ==> (
            #[trigger] stored_users(t, users.take(n), now).users.contains_key(k)
                <==> t.users.contains_key(k)),
    decreases n,
{
    let after = stored_users(t, users.take(n), now);
    if n == 0 {
        assert(after == t);
    } else {
        lemma_stored_users(t, mapping, defaults, scim_users, users, now, n - 1);
        let before = stored_users(t, users.take(n - 1), now);
        let user = users[n - 1]@;
        assert(users.take(n).drop_last() =~= users.take(n - 1));
        assert(users.take(n).last() == users[n - 1]);
        assert(after == before.put_user(user.external_id, user_row(user, now)));
        lemma_put_user_wf(before, user.external_id, user_row(user, now));
        lemma_resolved_uid_is_stable(
            before,
            user,
            now,
            mapping.uid_range_min,
            mapping.uid_range_size,
        );
        assert forall|i: int| 0 <= i < n implies holds_user(after, (#[trigger] users[i])@, now) by {
            if i < n - 1 {
                assert(scim_users[i].id@ != scim_users[n - 1].id@);
                assert(users[i]@.external_id == scim_users[i].id@);
                assert(holds_user(before, users[i]@, now));
            }
        }
        assert forall|k: Seq<char>|
            (forall|i: int| 0 <= i < n ==> (#[trigger] scim_users[i]).id@ != k) implies (
        #[trigger] after.users.contains_key(k) <==> t.users.contains_key(k)) by {
            assert(scim_users[n - 1].id@ != k);
            assert(before.users.contains_key(k) <==> t.users.contains_key(k));
        }
    }
}

/// Whether no two of `scim_users` have the same id.
pub open spec fn distinct_users(scim_users: Seq<ScimUser>) -> bool {
    forall|i: int, j: int|
        0 <= i < j < scim_users.len() ==> (#[trigger] scim_users[i]).id@ != (
        #[trigger] scim_users[j]).id@
}

/// Whether no two of `scim_groups` have the same id.
pub open spec fn distinct_groups(scim_groups: Seq<ScimGroup>) -> bool {
    forall|i: int, j: int|
        0 <= i < j < scim_groups.len() ==> (#[trigger] scim_groups[i]).id@ != (
        #[trigger] scim_groups[j]).id@
}

/// Whether the tables hold `user` as it was stored at `now`.
pub open spec fn holds_user(t: Tables, user: UserView, now: i64) -> bool {
    t.users.contains_key(user.external_id) && t.users[user.external_id] == user_row(user, now)
}

/// Whether the tables hold `group` as it was stored at `now`, with its members.
pub open spec fn holds_group(t: Tables, group: GroupView, now: i64) -> bool {
    &&& t.groups.contains_key(group.external_id)
    &&& t.groups[group.external_id] == group_row(group, now)
    &&& forall|m: Seq<char>|
        #[trigger] t.members.contains((group.external_id, m)) <==> group.members.contains(m)
}

/// Users of one list get UIDs that are pairwise distinct, in the configured range
/// unless they have one already, and all of them are in the cache in the end, each as
/// it was listed.
pub proof fn lemma_listed_users(
    before: &Service,
    after: &Service,
    scim_users: Seq<ScimUser>,
    users: Seq<User>,
    now: i64,
)
    requires
        before.cached().exclusive(),
        before.cached().wf(),
        before.ranges_valid(),
        before.users_resolved(after, scim_users, users, now),
        distinct_users(scim_users),
    ensures
        forall|i: int, j: int|
            0 <= i < j < users.len() ==> (#[trigger] users[i]).uid != (#[trigger] users[j]).uid,
        forall|i: int|
            0 <= i < users.len() ==> holds_user(after.cached()@, (#[trigger] users[i])@, now),
        forall|i: int|
            0 <= i < users.len() && !before.cached()@.users.contains_key(scim_users[i].id@)
                ==> before.configured().mapping.uid_range_min <= (#[trigger] users[i]).uid
                < before.configured().mapping.uid_range_min
                + before.configured().mapping.uid_range_size,
{
    let t = before.cached()@;
    let mapping = before.configured().mapping;
    let defaults = before.configured().user_defaults;
    lemma_stored_users(t, mapping, defaults, scim_users, users, now, users.len() as int);
    assert(users.take(users.len() as int) =~= users);
    let end = after.cached()@;
    assert forall|i: int, j: int| 0 <= i < j < users.len() implies (#[trigger] users[i]).uid != (
    #[trigger] users[j]).uid by {
        assert(scim_users[i].id@ != scim_users[j].id@);
        assert(holds_user(end, users[i]@, now) && holds_user(end, users[j]@, now));
        assert(users[i]@.external_id == scim_users[i].id@);
        assert(users[j]@.external_id == scim_users[j].id@);
        assert(end.users[users[i]@.external_id].uid == users[i].uid);
        assert(end.users[users[j]@.external_id].uid == users[j].uid);
    }
    assert forall|i: int|
        0 <= i < users.len() && !t.users.contains_key(scim_users[i].id@) implies mapping.uid_range_min
        <= (#[trigger] users[i]).uid < mapping.uid_range_min + mapping.uid_range_size by {
        lemma_stored_users(t, mapping, defaults, scim_users, users, now, i);
        let at = stored_users(t, users.take(i), now);
        assert(!at.users.contains_key(scim_users[i].id@));
        lemma_first_free_in_range(
            at.uids(),
            scim_users[i].id@,
            mapping.uid_range_min,
            mapping.uid_range_size,
            users[i].uid,
        );
    }
}

/// What the tables hold of a user is found by its UID for as long as it is fresh.
pub proof fn lemma_held_user_is_found(
    t: Tables,
    user: UserView,
    now: i64,
    later: i64,
    ttl: u64,
    found: Option<UserView>,
)
    requires
        t.wf(),
        holds_user(t, user, now),
        fresh(now, later, ttl),
        t.finds_user_by_uid(user.uid, later, ttl, found),
    ensures
        found == Some(user),
{
    assert(t.user_fresh(user.external_id, later, ttl));
    assert(t.users[user.external_id].uid == user.uid);
    match found {
        Some(u) => {
            assert(t.users[u.external_id].uid == user.uid);
        },
        None => {},
    }
}

/// Each user of a list is found by its UID afterwards, as it was listed, for as long as
/// the entry is fresh.
pub proof fn lemma_listed_user_is_found_by_uid(
    before: &Service,
    after: &Service,
    scim_users: Seq<ScimUser>,
    users: Seq<User>,
    now: i64,
    i: int,
    later: i64,
    found: Option<User>,
)
    requires
        before.cached().exclusive(),
        before.cached().wf(),
        before.ranges_valid(),
        before.users_resolved(after, scim_users, users, now),
        distinct_users(scim_users),
        0 <= i < users.len(),
        fresh(now, later, after.cached().ttl()),
        cutoff_exact(later, after.cached().ttl()),
        after.cached().user_by_uid_answer(users[i].uid, later, found),
    ensures
        user_view(found) == Some(users[i]@),
{
    lemma_listed_users(before, after, scim_users, users, now);
    lemma_held_user_is_found(
        after.cached()@,
        users[i]@,
        now,
        later,
        after.cached().ttl(),
        user_view(found),
    );
}

/// Groups that were resolved and stored one after the other are all there in the end,
/// with their members, and no other group's entry has changed.
#[verifier::rlimit(40)]
proof fn lemma_stored_groups(
    t: Tables,
    mapping: MappingConfig,
    scim_groups: Seq<ScimGroup>,
    groups: Seq<Group>,
    now: i64,
    n: int,
)
    requires
        t.wf(),
        0 <= n <= groups.len(),
        groups.len() == scim_groups.len(),
        distinct_groups(scim_groups),
        forall|i: int|
            0 <= i < groups.len() ==> models_group(
                stored_groups(t, groups.take(i), now),
                mapping,
                scim_groups[i],
                (#[trigger] groups[i])@,
            ),
    ensures
        stored_groups(t, groups.take(n), now).wf(),
        forall|i: int|
            0 <= i < n ==> holds_group(
                stored_groups(t, groups.take(n), now),
                (#[trigger] groups[i])@,
                now,
            ),
        forall|k: Seq<char>|
            (forall|i: int| 0 <= i < n ==> (#[trigger] scim_groups[i]).id@ != k) ==> (
            #[trigger] stored_groups(t, groups.take(n), now).groups.contains_key(k)
                <==> t.groups.contains_key(k)),
    decreases n,
{
    let after = stored_groups(t, groups.take(n), now);
    if n == 0 {
        assert(after == t);
    } else {
        lemma_stored_groups(t, mapping, scim_groups, groups, now, n - 1);
        let before = stored_groups(t, groups.take(n - 1), now);
        let group = groups[n - 1]@;
        let count = group.members.len() as int;
        assert(groups.take(n).drop_last() =~= groups.take(n - 1));
        assert(groups.take(n).last() == groups[n - 1]);
        assert(after == before.put_group_with(group, now, count));
        lemma_put_group_with_wf(before, group, now, count);
        lemma_resolved_gid_is_stable(
            before,
            group,
            now,
            mapping.gid_range_min,
            mapping.gid_range_size,
        );
        assert(group.members.take(count) =~= group.members);
        assert forall|i: int| 0 <= i < n implies holds_group(
            after,
            (#[trigger] groups[i])@,
            now,
        ) by {
            if i < n - 1 {
                let id = groups[i]@.external_id;
                assert(scim_groups[i].id@ != scim_groups[n - 1].id@);
                assert(id == scim_groups[i].id@);
                assert(holds_group(before, groups[i]@, now));
                assert forall|m: Seq<char>|
                    #[trigger] after.members.contains((id, m)) <==> groups[i]@.members.contains(
                        m,
                    ) by {
                    assert(after.members.contains((id, m)) <==> before.members.contains((id, m)));
                }
            }
        }
        assert forall|k: Seq<char>|
            (forall|i: int| 0 <= i < n ==> (#[trigger] scim_groups[i]).id@ != k) implies (
        #[trigger] after.groups.contains_key(k) <==> t.groups.contains_key(k)) by {
            assert(scim_groups[n - 1].id@ != k);
            assert(before.groups.contains_key(k) <==> t.groups.contains_key(k));
        }
    }
}

/// Groups of one list get GIDs that are pairwise distinct, in the configured range
/// unless they have one already, and all of them are in the cache in the end, each with
/// its members as it was listed.
pub proof fn lemma_listed_groups(
    before: &Service,
    after: &Service,
    scim_groups: Seq<ScimGroup>,
    groups: Seq<Group>,
    now: i64,
)
    requires
        before.cached().exclusive(),
        before.cached().wf(),
        before.ranges_valid(),
        before.groups_resolved(after, scim_groups, groups, now),
        distinct_groups(scim_groups),
    ensures
        forall|i: int, j: int|
            0 <= i < j < groups.len() ==> (#[trigger] groups[i]).gid != (#[trigger] groups[j]).gid,
        forall|i: int|
            0 <= i < groups.len() ==> holds_group(after.cached()@, (#[trigger] groups[i])@, now),
        forall|i: int|
            0 <= i < groups.len() && !before.cached()@.groups.contains_key(scim_groups[i].id@)
                ==> before.configured().mapping.gid_range_min <= (#[trigger] groups[i]).gid
                < before.configured().mapping.gid_range_min
                + before.configured().mapping.gid_range_size,
{
    let t = before.cached()@;
    let mapping = before.configured().mapping;
    lemma_stored_groups(t, mapping, scim_groups, groups, now, groups.len() as int);
    assert(groups.take(groups.len() as int) =~= groups);
    let end = after.cached()@;
    assert forall|i: int, j: int| 0 <= i < j < groups.len() implies (#[trigger] groups[i]).gid != (
    #[trigger] groups[j]).gid by {
        assert(scim_groups[i].id@ != scim_groups[j].id@);
        assert(holds_group(end, groups[i]@, now) && holds_group(end, groups[j]@, now));
        assert(groups[i]@.external_id == scim_groups[i].id@);
        assert(groups[j]@.external_id == scim_groups[j].id@);
        assert(end.groups[groups[i]@.external_id].gid == groups[i].gid);
        assert(end.groups[groups[j]@.external_id].gid == groups[j].gid);
    }
    assert forall|i: int|
        0 <= i < groups.len() && !t.groups.contains_key(
            scim_groups[i].id@,
        ) implies mapping.gid_range_min <= (#[trigger] groups[i]).gid < mapping.gid_range_min
        + mapping.gid_range_size by {
        lemma_stored_groups(t, mapping, scim_groups, groups, now, i);
        let at = stored_groups(t, groups.take(i), now);
        assert(!at.groups.contains_key(scim_groups[i].id@));
        lemma_first_free_in_range(
            at.gids(),
            scim_groups[i].id@,
            mapping.gid_range_min,
            mapping.gid_range_size,
            groups[i].gid,
        );
    }
}

/// Where everything that an enumeration of users resolved could be stored, no two of
/// its entries share a UID, and all of them are in the cache in the end.
pub proof fn lemma_enumerated_users(
    first: Service,
    last: Service,
    scim_users: Seq<ScimUser>,
    entries: Seq<User>,
    stored: Seq<Result<(), CacheError>>,
    failures: Seq<ServiceError>,
    now: i64,
)
    requires
        first.cached().exclusive(),
        first.cached().wf(),
        users_enumerated(first, last, scim_users, entries, stored, failures, now),
        distinct_users(scim_users),
        forall|i: int| 0 <= i < stored.len() ==> #[trigger] stored[i] is Ok,
    ensures
        last.cached().exclusive(),
        last.cached().wf(),
        entries.len() == stored.len(),
        forall|i: int|
            0 <= i < entries.len() ==> holds_user(last.cached()@, (#[trigger] entries[i])@, now),
        forall|i: int|
            0 <= i < entries.len() ==> exists|k: int|
                0 <= k < scim_users.len() && (#[trigger] entries[i])@.external_id == (
                #[trigger] scim_users[k]).id@,
        forall|i: int, j: int|
            0 <= i < j < entries.len() ==> (#[trigger] entries[i]).uid != (#[trigger] entries[j]).uid,
    decreases scim_users.len(),
{
    if scim_users.len() > 0 {
        let front = scim_users.drop_last();
        assert forall|i: int, j: int| 0 <= i < j < front.len() implies (#[trigger] front[i]).id@ != (
        #[trigger] front[j]).id@ by {
            assert(scim_users[i].id@ != scim_users[j].id@);
        }
        let kept = exists|before: Service|
            {
                &&& #[trigger] before.user_kept(
                    &last,
                    scim_users.last(),
                    entries.last()@,
                    stored.last(),
                    now,
                )
                &&& users_enumerated(
                    first,
                    before,
                    front,
                    entries.drop_last(),
                    stored.drop_last(),
                    failures,
                    now,
                )
            };
        if entries.len() > 0 && stored.len() > 0 && kept {
            let before = choose|before: Service|
                {
                    &&& #[trigger] before.user_kept(
                        &last,
                        scim_users.last(),
                        entries.last()@,
                        stored.last(),
                        now,
                    )
                    &&& users_enumerated(
                        first,
                        before,
                        front,
                        entries.drop_last(),
                        stored.drop_last(),
                        failures,
                        now,
                    )
                };
            let sooner = entries.drop_last();
            let outcomes = stored.drop_last();
            assert forall|i: int| 0 <= i < outcomes.len() implies #[trigger] outcomes[i] is Ok by {
                assert(stored[i] is Ok);
            }
            lemma_enumerated_users(first, before, front, sooner, outcomes, failures, now);
            assert(stored.last() is Ok);
            let user = entries.last()@;
            let mapping = before.configured().mapping;
            lemma_resolved_uid_is_stable(
                before.cached()@,
                user,
                now,
                mapping.uid_range_min,
                mapping.uid_range_size,
            );
            assert forall|i: int| 0 <= i < entries.len() implies holds_user(
                last.cached()@,
                (#[trigger] entries[i])@,
                now,
            ) by {
                if i < sooner.len() {
                    assert(sooner[i] == entries[i]);
                    assert(holds_user(before.cached()@, sooner[i]@, now));
                    let k = choose|k: int|
                        0 <= k < front.len() && sooner[i]@.external_id == (#[trigger] front[k]).id@;
                    assert(scim_users[k].id@ != scim_users[scim_users.len() - 1].id@);
                }
            }
            assert forall|i: int| 0 <= i < entries.len() implies exists|k: int|
                0 <= k < scim_users.len() && (#[trigger] entries[i])@.external_id == (
                #[trigger] scim_users[k]).id@ by {
                if i < sooner.len() {
                    assert(sooner[i] == entries[i]);
                    let k = choose|k: int|
                        0 <= k < front.len() && sooner[i]@.external_id == (#[trigger] front[k]).id@;
                    assert(scim_users[k] == front[k]);
                } else {
                    assert(entries[i]@.external_id == scim_users[scim_users.len() - 1].id@);
                }
            }
            assert forall|i: int, j: int| 0 <= i < j < entries.len() implies (
            #[trigger] entries[i]).uid != (#[trigger] entries[j]).uid by {
                assert(sooner[i] == entries[i]);
                if j < sooner.len() {
                    assert(sooner[j] == entries[j]);
                } else {
                    let k = choose|k: int|
                        0 <= k < front.len() && sooner[i]@.external_id == (#[trigger] front[k]).id@;
                    assert(scim_users[k].id@ != scim_users[scim_users.len() - 1].id@);
                    let t = last.cached()@;
                    assert(holds_user(t, entries[i]@, now) && holds_user(t, entries[j]@, now));
                    assert(t.users[entries[i]@.external_id].uid == entries[i].uid);
                    assert(t.users[entries[j]@.external_id].uid == entries[j].uid);
                }
            }
        } else {
            lemma_enumerated_users(
                first,
                last,
                front,
                entries,
                stored,
                failures.drop_last(),
                now,
            );
            assert forall|i: int| 0 <= i < entries.len() implies exists|k: int|
                0 <= k < scim_users.len() && (#[trigger] entries[i])@.external_id == (
                #[trigger] scim_users[k]).id@ by {
                let k = choose|k: int|
                    0 <= k < front.len() && entries[i]@.external_id == (#[trigger] front[k]).id@;
                assert(scim_users[k] == front[k]);
            }
        }
    }
}

/// Where everything that an enumeration of groups resolved could be stored, no two of
/// its entries share a GID, and all of them are in the cache in the end.
pub proof fn lemma_enumerated_groups(
    first: Service,
    last: Service,
    scim_groups: Seq<ScimGroup>,
    entries: Seq<Group>,
    stored: Seq<Result<(), CacheError>>,
    failures: Seq<ServiceError>,
    now: i64,
)
    requires
        first.cached().exclusive(),
        first.cached().wf(),
        groups_enumerated(first, last, scim_groups, entries, stored, failures, now),
        distinct_groups(scim_groups),
        forall|i: int| 0 <= i < stored.len() ==> #[trigger] stored[i] is Ok,
    ensures
        last.cached().exclusive(),
        last.cached().wf(),
        entries.len() == stored.len(),
        forall|i: int|
            0 <= i < entries.len() ==> holds_group(last.cached()@, (#[trigger] entries[i])@, now),
        forall|i: int|
            0 <= i < entries.len() ==> exists|k: int|
                0 <= k < scim_groups.len() && (#[trigger] entries[i])@.external_id == (
                #[trigger] scim_groups[k]).id@,
        forall|i: int, j: int|
            0 <= i < j < entries.len() ==> (#[trigger] entries[i]).gid != (#[trigger] entries[j]).gid,
    decreases scim_groups.len(),
{
    if scim_groups.len() > 0 {
        let front = scim_groups.drop_last();
        assert forall|i: int, j: int| 0 <= i < j < front.len() implies (#[trigger] front[i]).id@ != (
        #[trigger] front[j]).id@ by {
            assert(scim_groups[i].id@ != scim_groups[j].id@);
        }
        let kept = exists|before: Service|
            {
                &&& #[trigger] before.group_kept(
                    &last,
                    scim_groups.last(),
                    entries.last()@,
                    stored.last(),
                    now,
                )
                &&& groups_enumerated(
                    first,
                    before,
                    front,
                    entries.drop_last(),
                    stored.drop_last(),
                    failures,
                    now,
                )
            };
        if entries.len() > 0 && stored.len() > 0 && kept {
            let before = choose|before: Service|
                {
                    &&& #[trigger] before.group_kept(
                        &last,
                        scim_groups.last(),
                        entries.last()@,
                        stored.last(),
                        now,
                    )
                    &&& groups_enumerated(
                        first,
                        before,
                        front,
                        entries.drop_last(),
                        stored.drop_last(),
                        failures,
                        now,
                    )
                };
            let sooner = entries.drop_last();
            let outcomes = stored.drop_last();
            assert forall|i: int| 0 <= i < outcomes.len() implies #[trigger] outcomes[i] is Ok by {
                assert(stored[i] is Ok);
            }
            lemma_enumerated_groups(first, before, front, sooner, outcomes, failures, now);
            assert(stored.last() is Ok);
            let group = entries.last()@;
            let mapping = before.configured().mapping;
            lemma_resolved_gid_is_stable(
                before.cached()@,
                group,
                now,
                mapping.gid_range_min,
                mapping.gid_range_size,
            );
            assert(group.members.take(group.members.len() as int) =~= group.members);
            assert forall|i: int| 0 <= i < entries.len() implies holds_group(
                last.cached()@,
                (#[trigger] entries[i])@,
                now,
            ) by {
                if i < sooner.len() {
                    assert(sooner[i] == entries[i]);
                    assert(holds_group(before.cached()@, sooner[i]@, now));
                    let k = choose|k: int|
                        0 <= k < front.len() && sooner[i]@.external_id == (#[trigger] front[k]).id@;
                    assert(scim_groups[k].id@ != scim_groups[scim_groups.len() - 1].id@);
                    let id = sooner[i]@.external_id;
                    assert forall|m: Seq<char>|
                        #[trigger] last.cached()@.members.contains((id, m))
                            <==> sooner[i]@.members.contains(m) by {
                        assert(last.cached()@.members.contains((id, m))
                            <==> before.cached()@.members.contains((id, m)));
                    }
                }
            }
            assert forall|i: int| 0 <= i < entries.len() implies exists|k: int|
                0 <= k < scim_groups.len() && (#[trigger] entries[i])@.external_id == (
                #[trigger] scim_groups[k]).id@ by {
                if i < sooner.len() {
                    assert(sooner[i] == entries[i]);
                    let k = choose|k: int|
                        0 <= k < front.len() && sooner[i]@.external_id == (#[trigger] front[k]).id@;
                    assert(scim_groups[k] == front[k]);
                } else {
                    assert(entries[i]@.external_id == scim_groups[scim_groups.len() - 1].id@);
                }
            }
            assert forall|i: int, j: int| 0 <= i < j < entries.len() implies (
            #[trigger] entries[i]).gid != (#[trigger] entries[j]).gid by {
                assert(sooner[i] == entries[i]);
                if j < sooner.len() {
                    assert(sooner[j] == entries[j]);
                } else {
                    let k = choose|k: int|
                        0 <= k < front.len() && sooner[i]@.external_id == (#[trigger] front[k]).id@;
                    assert(scim_groups[k].id@ != scim_groups[scim_groups.len() - 1].id@);
                    let t = last.cached()@;
                    assert(holds_group(t, entries[i]@, now) && holds_group(t, entries[j]@, now));
                    assert(t.groups[entries[i]@.external_id].gid == entries[i].gid);
                    assert(t.groups[entries[j]@.external_id].gid == entries[j].gid);
                }
            }
        } else {
            lemma_enumerated_groups(
                first,
                last,
                front,
                entries,
                stored,
                failures.drop_last(),
                now,
            );
            assert forall|i: int| 0 <= i < entries.len() implies exists|k: int|
                0 <= k < scim_groups.len() && (#[trigger] entries[i])@.external_id == (
                #[trigger] scim_groups[k]).id@ by {
                let k = choose|k: int|
                    0 <= k < front.len() && entries[i]@.external_id == (#[trigger] front[k]).id@;
                assert(scim_groups[k] == front[k]);
            }
        }
    }
}

/// What the tables hold of a group is found by its GID for as long as it is fresh, with
/// the same members in some order.
pub proof fn lemma_held_group_is_found(
    t: Tables,
    group: GroupView,
    now: i64,
    later: i64,
    ttl: u64,
    found: Option<GroupView>,
)
    requires
        t.wf(),
        holds_group(t, group, now),
        fresh(now, later, ttl),
        t.finds_group_by_gid(group.gid, later, ttl, found),
    ensures
        found is Some,
        found->0.external_id == group.external_id,
        found->0.name == group.name,
        found->0.gid == group.gid,
        found->0.members.no_duplicates(),
        forall|m: Seq<char>|
            #[trigger] found->0.members.contains(m) <==> group.members.contains(m),
{
    let id = group.external_id;
    assert(t.group_fresh(id, later, ttl));
    assert(t.groups[id].gid == group.gid);
    match found {
        Some(g) => {
            assert(t.groups[g.external_id].gid == group.gid);
            assert(g.external_id == id);
            assert forall|m: Seq<char>|
                #[trigger] g.members.contains(m) <==> group.members.contains(m) by {
                assert(g.members.contains(m) <==> t.members.contains((id, m)));
            }
        },
        None => {},
    }
}

/// A described user has the id and the name of the SCIM user, its display name or none as
/// GECOS, the home that the template gives for the name, the default shell, and is active
/// unless the SCIM user is said not to be.
pub proof fn lemma_described_user(defaults: UserDefaultsConfig, scim_user: ScimUser, user: User)
    requires
        describes_user(defaults, scim_user, user@),
    ensures
        user.external_id@ == scim_user.id@,
        user.name@ == scim_user.user_name@,
        scim_user.display_name matches Some(name) ==> user.gecos@ == name@,
        scim_user.display_name is None ==> user.gecos@.len() == 0,
        user.home@ == replaced(defaults.home_template@, "{user}"@, scim_user.user_name@),
        user.shell@ == defaults.shell@,
        scim_user.active matches Some(active) ==> user.active == active,
        scim_user.active is None ==> user.active,
{
}

/// A described group has the id and the name of the SCIM group, and as members the display
/// names of all its members that have one, in order: these are their places.
pub proof fn lemma_described_group(scim_group: ScimGroup, group: Group) -> (at: Seq<int>)
    requires
        describes_group(scim_group, group@),
    ensures
        group.external_id@ == scim_group.id@,
        group.name@ == scim_group.display_name@,
        group.members@.len() == at.len(),
        forall|k: int|
            0 <= k < at.len() ==> 0 <= #[trigger] at[k] < scim_group.members@.len()
                && scim_group.members@[at[k]].display is Some && group.members@[k]@
                == scim_group.members@[at[k]].display->0@,
        forall|k: int, l: int| 0 <= k < l < at.len() ==> #[trigger] at[k] < #[trigger] at[l],
        forall|i: int|
            0 <= i < scim_group.members@.len() && (#[trigger] scim_group.members@[i]).display is Some
                ==> exists|k: int| 0 <= k < at.len() && #[trigger] at[k] == i,
{
    let at = lemma_display_names(scim_group.members@);
    assert forall|k: int| 0 <= k < at.len() implies 0 <= #[trigger] at[k]
        < scim_group.members@.len() && scim_group.members@[at[k]].display is Some
        && group.members@[k]@ == scim_group.members@[at[k]].display->0@ by {
        assert(group@.members[k] == group.members@[k]@);
    }
    at
}

/// A resolved user has a UID that its id resolves to, and a GID that its first group
/// resolves to, or its own id where it has no group; a resolved group has a GID that its id
/// resolves to.
pub proof fn lemma_modelled(
    t: Tables,
    mapping: MappingConfig,
    defaults: UserDefaultsConfig,
    scim_user: ScimUser,
    user: User,
    scim_group: ScimGroup,
    group: Group,
)
    ensures
        models_user(t, mapping, defaults, scim_user, user@) ==> {
            &&& describes_user(defaults, scim_user, user@)
            &&& t.resolves_uid(
                scim_user.id@,
                mapping.uid_range_min,
                mapping.uid_range_size,
                user.uid,
            )
            &&& scim_user.groups@.len() > 0 ==> t.resolves_gid(
                scim_user.groups@[0].value@,
                mapping.gid_range_min,
                mapping.gid_range_size,
                user.gid,
            )
            &&& scim_user.groups@.len() == 0 ==> t.resolves_gid(
                scim_user.id@,
                mapping.gid_range_min,
                mapping.gid_range_size,
                user.gid,
            )
        },
        models_group(t, mapping, scim_group, group@) ==> {
            &&& describes_group(scim_group, group@)
            &&& t.resolves_gid(
                scim_group.id@,
                mapping.gid_range_min,
                mapping.gid_range_size,
                group.gid,
            )
        },
{
}

/// A SCIM user or group is left unresolved only for an error of the cache: that SQLite
/// failed, or that there is no identifier left for it.
pub proof fn lemma_left_unresolved(
    service: &Service,
    scim_user: ScimUser,
    scim_group: ScimGroup,
    e: ServiceError,
)
    ensures
        service.user_unresolved(scim_user, e) || service.group_unresolved(scim_group, e) ==> (
        e matches ServiceError::Cache(c) && (c is Sqlite || c is RangeExhausted)),
        service.user_unresolved(scim_user, e) && service.cached().exclusive() ==> (
        e matches ServiceError::Cache(c) && (c is RangeExhausted ==> service.cached()@.uid_exhausted(
            scim_user.id@,
            service.configured().mapping.uid_range_min,
            service.configured().mapping.uid_range_size,
        ) || service.cached()@.gid_exhausted(
            if scim_user.groups@.len() > 0 {
                scim_user.groups@[0].value@
            } else {
                scim_user.id@
            },
            service.configured().mapping.gid_range_min,
            service.configured().mapping.gid_range_size,
        ))),
        service.group_unresolved(scim_group, e) && service.cached().exclusive() ==> (
        e matches ServiceError::Cache(c) && (c is RangeExhausted ==> service.cached()@.gid_exhausted(
            scim_group.id@,
            service.configured().mapping.gid_range_min,
            service.configured().mapping.gid_range_size,
        ))),
{
}

/// A user that SCIM knows is resolved from what SCIM says and stored; of one that it does
/// not know or does not tell, the cache is asked and stays as it is; a name of more than
/// 256 bytes is nobody's; that SCIM failed is never the answer.
pub proof fn lemma_user_lookup(
    before: &Service,
    after: &Service,
    name: Seq<char>,
    reply: Result<Option<ScimUser>, ScimError>,
    now: i64,
    res: Result<Option<User>, ServiceError>,
)
    requires
        before.user_looked_up(after, name, reply, now, res),
    ensures
        after.configured() == before.configured(),
        after.client() == before.client(),
        res matches Err(e) ==> e is Cache,
        encode_utf8(name).len() > 256 ==> res == Ok::<Option<User>, ServiceError>(None)
            && after.cached() == before.cached(),
        encode_utf8(name).len() <= 256 ==> match reply {
            Ok(Some(scim_user)) => match res {
                Ok(found) => {
                    &&& found is Some
                    &&& before.user_resolved(after, scim_user, found->0@, now)
                    &&& describes_user(before.configured().user_defaults, scim_user, found->0@)
                    &&& found->0.external_id@ == scim_user.id@
                    &&& found->0.name@ == scim_user.user_name@
                    &&& before.cached().exclusive() ==> {
                        &&& models_user(
                            before.cached()@,
                            before.configured().mapping,
                            before.configured().user_defaults,
                            scim_user,
                            found->0@,
                        )
                        &&& after.cached()@.users.contains_key(scim_user.id@)
                        &&& after.cached()@.users[scim_user.id@].uid == found->0.uid
                        &&& after.cached()@.users[scim_user.id@].login == scim_user.user_name@
                        &&& after.cached()@.users[scim_user.id@].active == found->0.active
                        &&& after.cached()@.users[scim_user.id@].cached_at == now
                        &&& after.cached()@.groups == before.cached()@.groups
                    }
                },
                Err(e) => {
                    &&& before.user_unresolved(scim_user, e)
                    &&& before.cached().exclusive() ==> after.cached()@ == before.cached()@
                },
            },
            _ => {
                &&& after.cached() == before.cached()
                &&& res matches Ok(found) ==> before.cached().user_by_name_answer(name, now, found)
            },
        },
{
}

/// A group that SCIM knows is resolved from what SCIM says and stored; of one that it does
/// not know or does not tell, the cache is asked and stays as it is; a name of more than
/// 256 bytes is no group's; that SCIM failed is never the answer.
pub proof fn lemma_group_lookup(
    before: &Service,
    after: &Service,
    name: Seq<char>,
    reply: Result<Option<ScimGroup>, ScimError>,
    now: i64,
    res: Result<Option<Group>, ServiceError>,
)
    requires
        before.group_looked_up(after, name, reply, now, res),
    ensures
        after.configured() == before.configured(),
        after.client() == before.client(),
        res matches Err(e) ==> e is Cache,
        encode_utf8(name).len() > 256 ==> res == Ok::<Option<Group>, ServiceError>(None)
            && after.cached() == before.cached(),
        encode_utf8(name).len() <= 256 ==> match reply {
            Ok(Some(scim_group)) => match res {
                Ok(found) => {
                    &&& found is Some
                    &&& describes_group(scim_group, found->0@)
                    &&& found->0.external_id@ == scim_group.id@
                    &&& found->0.name@ == scim_group.display_name@
                    &&& before.cached().group_stored(&after.cached(), found->0@, now)
                    &&& before.cached().exclusive() ==> models_group(
                        before.cached()@,
                        before.configured().mapping,
                        scim_group,
                        found->0@,
                    )
                },
                Err(e) => before.group_unresolved(scim_group, e),
            },
            _ => {
                &&& after.cached() == before.cached()
                &&& res matches Ok(found) ==> before.cached().group_by_name_answer(name, now, found)
            },
        },
{
}

/// Who may log in: where SCIM answered, those whom it knows and does not say to be
/// inactive; where it did not, nobody under the policy to deny, and else those whom the
/// cache holds as active, by an entry that is younger than the time to live.
pub proof fn lemma_who_is_active(
    before: &Service,
    after: &Service,
    name: Seq<char>,
    reply: Result<Option<ScimUser>, ScimError>,
    now: i64,
    res: Result<bool, ServiceError>,
)
    requires
        before.activity_checked(after, name, reply, now, res),
    ensures
        after.configured() == before.configured(),
        res matches Err(e) ==> e is Cache,
        encode_utf8(name).len() > 256 ==> res == Ok::<bool, ServiceError>(false),
        encode_utf8(name).len() <= 256 ==> match reply {
            Ok(Some(scim_user)) => res matches Ok(active) ==> active == (match scim_user.active {
                Some(said) => said,
                None => true,
            }) && exists|user: UserView| #[trigger]
                before.user_resolved(after, scim_user, user, now),
            Ok(None) => res == Ok::<bool, ServiceError>(false) && after.cached() == before.cached(),
            Err(_) => match before.configured().security.offline_auth_policy {
                OfflineAuthPolicy::Deny => res == Ok::<bool, ServiceError>(false),
                OfflineAuthPolicy::CachedStatus => before.cached().exclusive() && now
                    - before.cached().ttl() >= i64::MIN ==> {
                    &&& res == Ok::<bool, ServiceError>(true) ==> exists|id: Seq<char>| #[trigger]
                        before.cached()@.users.contains_key(id) && before.cached()@.users[id].login
                            == name && before.cached()@.users[id].active && now
                            - before.cached()@.users[id].cached_at < before.cached().ttl()
                    &&& res == Ok::<bool, ServiceError>(false) ==> (exists|id: Seq<char>| #[trigger]
                        before.cached()@.users.contains_key(id) && before.cached()@.users[id].login
                            == name && !before.cached()@.users[id].active) || (forall|
                        id: Seq<char>,
                    | #[trigger]
                        before.cached()@.users.contains_key(id) && before.cached()@.users[id].login
                            == name ==> now - before.cached()@.users[id].cached_at
                            >= before.cached().ttl())
                },
            },
        },
{
    if encode_utf8(name).len() <= 256 && reply is Err && res is Ok
        && before.configured().security.offline_auth_policy == OfflineAuthPolicy::CachedStatus
        && before.cached().exclusive() && now - before.cached().ttl() >= i64::MIN {
        let found = choose|found: Option<User>| #[trigger]
            before.cached().user_by_name_answer(name, now, found) && res->Ok_0 == (
            found matches Some(user) && user.active);
        lemma_user_found_by_name(&before.cached(), name, now, found);
        if let Some(user) = found {
            assert(before.cached()@.users.contains_key(user.external_id@));
        }
    }
}

/// The groups of a user: where SCIM answered, the GIDs of all the groups that it names, in
/// order, or none of a user that it does not know; where it did not, the GIDs of exactly
/// the groups that the cache holds, that list the user, and that are younger than the time
/// to live.
pub proof fn lemma_groups_of_a_user(
    before: &Service,
    after: &Service,
    name: Seq<char>,
    reply: Result<Option<ScimUser>, ScimError>,
    now: i64,
    res: Result<Vec<u32>, ServiceError>,
)
    requires
        before.groups_looked_up(after, name, reply, now, res),
    ensures
        after.configured() == before.configured(),
        res matches Err(e) ==> e is Cache,
        encode_utf8(name).len() > 256 ==> (res matches Ok(gids) && gids@.len() == 0),
        encode_utf8(name).len() <= 256 ==> match reply {
            Ok(Some(scim_user)) => res matches Ok(gids) ==> {
                &&& gids@.len() == scim_user.groups@.len()
                &&& before.cached().exclusive() ==> forall|i: int|
                    0 <= i < gids@.len() ==> after.cached()@.resolves_gid(
                        scim_user.groups@[i].value@,
                        after.configured().mapping.gid_range_min,
                        after.configured().mapping.gid_range_size,
                        #[trigger] gids@[i],
                    )
                &&& exists|user: UserView| #[trigger]
                    before.user_resolved(after, scim_user, user, now)
            },
            Ok(None) => after.cached() == before.cached() && (res matches Ok(gids) && gids@.len()
                == 0),
            Err(_) => {
                &&& after.cached() == before.cached()
                &&& before.cached().exclusive() && now - before.cached().ttl() >= i64::MIN ==> (
                res matches Ok(gids) ==> {
                    &&& forall|id: Seq<char>| #[trigger]
                        before.cached()@.groups.contains_key(id)
                            && before.cached()@.members.contains((id, name)) && now
                            - before.cached()@.groups[id].cached_at < before.cached().ttl()
                            ==> gids@.contains(before.cached()@.groups[id].gid)
                    &&& forall|gid: u32| #[trigger]
                        gids@.contains(gid) ==> exists|id: Seq<char>| #[trigger]
                            before.cached()@.groups.contains_key(id)
                                && before.cached()@.members.contains((id, name)) && now
                                - before.cached()@.groups[id].cached_at < before.cached().ttl()
                                && before.cached()@.groups[id].gid == gid
                })
            },
        },
{
    if encode_utf8(name).len() <= 256 && reply is Err && res is Ok && before.cached().exclusive()
        && now - before.cached().ttl() >= i64::MIN {
        let gids = res->Ok_0@;
        let cache = before.cached();
        let groups = choose|groups: Seq<Group>| #[trigger]
            cache.groups_of_answer(name, now, groups) && gids == groups.map_values(
                |g: Group| g.gid,
            );
        lemma_groups_found_of(&cache, name, now, groups);
        assert forall|id: Seq<char>| #[trigger]
            cache@.groups.contains_key(id) && cache@.members.contains((id, name)) && now
                - cache@.groups[id].cached_at < cache.ttl() implies gids.contains(
            cache@.groups[id].gid,
        ) by {
            let i = choose|i: int|
                0 <= i < groups.len() && (#[trigger] groups[i]).external_id@ == id;
            assert(gids[i] == groups[i].gid);
            assert(cache@.groups[groups[i].external_id@].gid == groups[i].gid);
        }
        assert forall|gid: u32| #[trigger] gids.contains(gid) implies exists|id: Seq<char>| #[trigger]
            cache@.groups.contains_key(id) && cache@.members.contains((id, name)) && now
                - cache@.groups[id].cached_at < cache.ttl() && cache@.groups[id].gid == gid by {
            let k = choose|k: int| 0 <= k < gids.len() && gids[k] == gid;
            let id = groups[k].external_id@;
            assert(cache@.groups.contains_key(id));
            assert(gids[k] == groups[k].gid);
        }
    }
}

/// What is listed is the whole list, each user described, in order; where the list could
/// not be resolved to its end, nothing but an error of the cache stopped it.
pub proof fn lemma_whole_list_of_users(
    before: &Service,
    after: &Service,
    scim_users: Seq<ScimUser>,
    users: Seq<User>,
    e: ServiceError,
    now: i64,
)
    ensures
        before.users_resolved(after, scim_users, users, now) ==> {
            &&& users.len() == scim_users.len()
            &&& after.configured() == before.configured()
            &&& forall|i: int|
                0 <= i < users.len() ==> describes_user(
                    before.configured().user_defaults,
                    scim_users[i],
                    (#[trigger] users[i])@,
                ) && users[i].external_id@ == scim_users[i].id@ && users[i].name@
                    == scim_users[i].user_name@
        },
        before.users_partly_resolved(after, scim_users, e, now) ==> e is Cache && scim_users.len()
            > 0,
{
}

/// What is listed is the whole list, each group described, in order; where the list could
/// not be resolved to its end, nothing but an error of the cache stopped it.
pub proof fn lemma_whole_list_of_groups(
    before: &Service,
    after: &Service,
    scim_groups: Seq<ScimGroup>,
    groups: Seq<Group>,
    e: ServiceError,
    now: i64,
)
    ensures
        before.groups_resolved(after, scim_groups, groups, now) ==> {
            &&& groups.len() == scim_groups.len()
            &&& after.configured() == before.configured()
            &&& forall|i: int|
                0 <= i < groups.len() ==> describes_group(scim_groups[i], (#[trigger] groups[i])@)
                    && groups[i].external_id@ == scim_groups[i].id@ && groups[i].name@
                    == scim_groups[i].display_name@
        },
        before.groups_partly_resolved(after, scim_groups, e, now) ==> e is Cache
            && scim_groups.len() > 0,
{
}

/// A service starts with all the users and groups that are younger than the configured time
/// to live, each as it was, and, where nothing failed, with no older ones.
pub proof fn lemma_start(before: &Cache, service: &Service, now: i64, ttl: u64)
    requires
        before.exclusive(),
        before.wf(),
        before.purged(&service.cached(), now, ttl, service.purge_error() is None),
    ensures
        forall|id: Seq<char>|
            before@.users.contains_key(id) && now - before@.users[id].cached_at < ttl
                ==> #[trigger] service.cached()@.users.contains_key(id)
                && service.cached()@.users[id] == before@.users[id],
        forall|id: Seq<char>|
            before@.groups.contains_key(id) && now - before@.groups[id].cached_at < ttl
                ==> #[trigger] service.cached()@.groups.contains_key(id)
                && service.cached()@.groups[id] == before@.groups[id],
        service.purge_error() is None ==> forall|id: Seq<char>| #[trigger]
            service.cached()@.users.contains_key(id) ==> now - before@.users[id].cached_at < ttl,
        service.purge_error() is None ==> forall|id: Seq<char>| #[trigger]
            service.cached()@.groups.contains_key(id) ==> now - before@.groups[id].cached_at < ttl,
{
    if service.purge_error() is None {
        lemma_purged_exactly(before, &service.cached(), now, ttl);
    } else {
        lemma_failed_purge(before, &service.cached(), now, ttl);
    }
}

/// An enumeration accounts for every user of the list: each is either an entry that
/// describes it or the cause of a failure, both in the order of the list. These are the
/// places of the entries and of the failures.
pub proof fn lemma_every_user_is_accounted_for(
    first: Service,
    last: Service,
    scim_users: Seq<ScimUser>,
    entries: Seq<User>,
    stored: Seq<Result<(), CacheError>>,
    failures: Seq<ServiceError>,
    now: i64,
) -> (places: (Seq<int>, Seq<int>))
    requires
        users_enumerated(first, last, scim_users, entries, stored, failures, now),
    ensures
        last.configured() == first.configured(),
        places.0.len() == entries.len(),
        stored.len() == entries.len(),
        places.1.len() == failures.len(),
        entries.len() + failures.len() == scim_users.len(),
        forall|k: int|
            0 <= k < entries.len() ==> 0 <= #[trigger] places.0[k] < scim_users.len() && describes_user(first.configured().user_defaults, scim_users[places.0[k]], entries[k]@),
        forall|k: int, l: int|
            0 <= k < l < entries.len() ==> #[trigger] places.0[k] < #[trigger] places.0[l],
        forall|k: int|
            0 <= k < failures.len() ==> 0 <= #[trigger] places.1[k] < scim_users.len()
                && failures[k] is Cache,
        forall|k: int, l: int|
            0 <= k < l < failures.len() ==> #[trigger] places.1[k] < #[trigger] places.1[l],
        forall|k: int, l: int|
            0 <= k < entries.len() && 0 <= l < failures.len() ==> #[trigger] places.0[k]
                != #[trigger] places.1[l],
        forall|k: int| 0 <= k < stored.len() ==> (#[trigger] stored[k] matches Err(e) ==> e is Sqlite),
    decreases scim_users.len(),
{
    if scim_users.len() == 0 {
        (Seq::empty(), Seq::empty())
    } else {
        let front = scim_users.drop_last();
        let end = scim_users.len() - 1;
        let kept = exists|before: Service|
            {
                &&& #[trigger] before.user_kept(
                    &last,
                    scim_users.last(),
                    entries.last()@,
                    stored.last(),
                    now,
                )
                &&& users_enumerated(
                    first,
                    before,
                    front,
                    entries.drop_last(),
                    stored.drop_last(),
                    failures,
                    now,
                )
            };
        if entries.len() > 0 && stored.len() > 0 && kept {
            let before = choose|before: Service|
                {
                    &&& #[trigger] before.user_kept(
                        &last,
                        scim_users.last(),
                        entries.last()@,
                        stored.last(),
                        now,
                    )
                    &&& users_enumerated(
                        first,
                        before,
                        front,
                        entries.drop_last(),
                        stored.drop_last(),
                        failures,
                        now,
                    )
                };
            let sooner = lemma_every_user_is_accounted_for(
                first,
                before,
                front,
                entries.drop_last(),
                stored.drop_last(),
                failures,
                now,
            );
            let places = (sooner.0.push(end), sooner.1);
            assert forall|k: int| 0 <= k < entries.len() implies 0 <= #[trigger] places.0[k]
                < scim_users.len() && describes_user(first.configured().user_defaults, scim_users[places.0[k]], entries[k]@) by {
                if k < entries.len() - 1 {
                    assert(places.0[k] == sooner.0[k]);
                    assert(entries.drop_last()[k] == entries[k]);
                    assert(front[sooner.0[k]] == scim_users[sooner.0[k]]);
                }
            }
            assert forall|k: int| 0 <= k < stored.len() implies (#[trigger] stored[k] matches Err(e)
                ==> e is Sqlite) by {
                if k < stored.len() - 1 {
                    assert(stored.drop_last()[k] == stored[k]);
                }
            }
            assert forall|k: int, l: int|
                0 <= k < entries.len() && 0 <= l < failures.len() implies #[trigger] places.0[k]
                != #[trigger] places.1[l] by {
                if k < entries.len() - 1 {
                    assert(places.0[k] == sooner.0[k]);
                }
            }
            places
        } else {
            let sooner = lemma_every_user_is_accounted_for(
                first,
                last,
                front,
                entries,
                stored,
                failures.drop_last(),
                now,
            );
            let places = (sooner.0, sooner.1.push(end));
            assert forall|k: int| 0 <= k < entries.len() implies 0 <= #[trigger] places.0[k]
                < scim_users.len() && describes_user(first.configured().user_defaults, scim_users[places.0[k]], entries[k]@) by {
                assert(front[sooner.0[k]] == scim_users[sooner.0[k]]);
            }
            assert forall|k: int| 0 <= k < failures.len() implies 0 <= #[trigger] places.1[k]
                < scim_users.len() && failures[k] is Cache by {
                if k < failures.len() - 1 {
                    assert(places.1[k] == sooner.1[k]);
                    assert(failures.drop_last()[k] == failures[k]);
                }
            }
            places
        }
    }
}

/// An enumeration accounts for every group of the list: each is either an entry that
/// describes it or the cause of a failure, both in the order of the list. These are the
/// places of the entries and of the failures.
pub proof fn lemma_every_group_is_accounted_for(
    first: Service,
    last: Service,
    scim_groups: Seq<ScimGroup>,
    entries: Seq<Group>,
    stored: Seq<Result<(), CacheError>>,
    failures: Seq<ServiceError>,
    now: i64,
) -> (places: (Seq<int>, Seq<int>))
    requires
        groups_enumerated(first, last, scim_groups, entries, stored, failures, now),
    ensures
        last.configured() == first.configured(),
        places.0.len() == entries.len(),
        stored.len() == entries.len(),
        places.1.len() == failures.len(),
        entries.len() + failures.len() == scim_groups.len(),
        forall|k: int|
            0 <= k < entries.len() ==> 0 <= #[trigger] places.0[k] < scim_groups.len() && describes_group(scim_groups[places.0[k]], entries[k]@),
        forall|k: int, l: int|
            0 <= k < l < entries.len() ==> #[trigger] places.0[k] < #[trigger] places.0[l],
        forall|k: int|
            0 <= k < failures.len() ==> 0 <= #[trigger] places.1[k] < scim_groups.len()
                && failures[k] is Cache,
        forall|k: int, l: int|
            0 <= k < l < failures.len() ==> #[trigger] places.1[k] < #[trigger] places.1[l],
        forall|k: int, l: int|
            0 <= k < entries.len() && 0 <= l < failures.len() ==> #[trigger] places.0[k]
                != #[trigger] places.1[l],
        forall|k: int| 0 <= k < stored.len() ==> (#[trigger] stored[k] matches Err(e) ==> e is Sqlite),
    decreases scim_groups.len(),
{
    if scim_groups.len() == 0 {
        (Seq::empty(), Seq::empty())
    } else {
        let front = scim_groups.drop_last();
        let end = scim_groups.len() - 1;
        let kept = exists|before: Service|
            {
                &&& #[trigger] before.group_kept(
                    &last,
                    scim_groups.last(),
                    entries.last()@,
                    stored.last(),
                    now,
                )
                &&& groups_enumerated(
                    first,
                    before,
                    front,
                    entries.drop_last(),
                    stored.drop_last(),
                    failures,
                    now,
                )
            };
        if entries.len() > 0 && stored.len() > 0 && kept {
            let before = choose|before: Service|
                {
                    &&& #[trigger] before.group_kept(
                        &last,
                        scim_groups.last(),
                        entries.last()@,
                        stored.last(),
                        now,
                    )
                    &&& groups_enumerated(
                        first,
                        before,
                        front,
                        entries.drop_last(),
                        stored.drop_last(),
                        failures,
                        now,
                    )
                };
            let sooner = lemma_every_group_is_accounted_for(
                first,
                before,
                front,
                entries.drop_last(),
                stored.drop_last(),
                failures,
                now,
            );
            let places = (sooner.0.push(end), sooner.1);
            assert forall|k: int| 0 <= k < entries.len() implies 0 <= #[trigger] places.0[k]
                < scim_groups.len() && describes_group(scim_groups[places.0[k]], entries[k]@) by {
                if k < entries.len() - 1 {
                    assert(places.0[k] == sooner.0[k]);
                    assert(entries.drop_last()[k] == entries[k]);
                    assert(front[sooner.0[k]] == scim_groups[sooner.0[k]]);
                }
            }
            assert forall|k: int| 0 <= k < stored.len() implies (#[trigger] stored[k] matches Err(e)
                ==> e is Sqlite) by {
                if k < stored.len() - 1 {
                    assert(stored.drop_last()[k] == stored[k]);
                }
            }
            assert forall|k: int, l: int|
                0 <= k < entries.len() && 0 <= l < failures.len() implies #[trigger] places.0[k]
                != #[trigger] places.1[l] by {
                if k < entries.len() - 1 {
                    assert(places.0[k] == sooner.0[k]);
                }
            }
            places
        } else {
            let sooner = lemma_every_group_is_accounted_for(
                first,
                last,
                front,
                entries,
                stored,
                failures.drop_last(),
                now,
            );
            let places = (sooner.0, sooner.1.push(end));
            assert forall|k: int| 0 <= k < entries.len() implies 0 <= #[trigger] places.0[k]
                < scim_groups.len() && describes_group(scim_groups[places.0[k]], entries[k]@) by {
                assert(front[sooner.0[k]] == scim_groups[sooner.0[k]]);
            }
            assert forall|k: int| 0 <= k < failures.len() implies 0 <= #[trigger] places.1[k]
                < scim_groups.len() && failures[k] is Cache by {
                if k < failures.len() - 1 {
                    assert(places.1[k] == sooner.1[k]);
                    assert(failures.drop_last()[k] == failures[k]);
                }
            }
            places
        }
    }
}

/// A user that was resolved has been stored, as it is described, and with identifiers that
/// were its own or free.
pub proof fn lemma_resolved_user_is_stored(
    before: &Service,
    after: &Service,
    scim_user: ScimUser,
    user: UserView,
    now: i64,
)
    requires
        before.user_resolved(after, scim_user, user, now),
    ensures
        after.configured() == before.configured(),
        after.client() == before.client(),
        describes_user(before.configured().user_defaults, scim_user, user),
        before.cached().exclusive() ==> models_user(
            before.cached()@,
            before.configured().mapping,
            before.configured().user_defaults,
            scim_user,
            user,
        ),
        before.cached().becomes(
            &after.cached(),
            before.cached()@.put_user(user.external_id, user_row(user, now)),
        ),
{
}

/// What an enumeration keeps, it has stored, unless SQLite failed.
pub proof fn lemma_kept_is_stored(
    before: &Service,
    after: &Service,
    scim_user: ScimUser,
    user: UserView,
    scim_group: ScimGroup,
    group: GroupView,
    stored: Result<(), CacheError>,
    now: i64,
)
    ensures
        before.user_kept(after, scim_user, user, stored, now) ==> {
            &&& describes_user(before.configured().user_defaults, scim_user, user)
            &&& stored is Ok ==> before.cached().becomes(
                &after.cached(),
                before.cached()@.put_user(user.external_id, user_row(user, now)),
            )
            &&& stored matches Err(e) ==> e is Sqlite
            &&& before.cached().exclusive() ==> models_user(
                before.cached()@,
                before.configured().mapping,
                before.configured().user_defaults,
                scim_user,
                user,
            )
        },
        before.group_kept(after, scim_group, group, stored, now) ==> {
            &&& describes_group(scim_group, group)
            &&& stored is Ok ==> before.cached().group_stored(&after.cached(), group, now)
            &&& stored matches Err(e) ==> e is Sqlite
            &&& before.cached().exclusive() ==> models_group(
                before.cached()@,
                before.configured().mapping,
                scim_group,
                group,
            )
        },
{
}

/// Each group of a list is found by its GID afterwards, as it was listed and with the same
/// members, for as long as the entry is younger than the time to live.
pub proof fn lemma_listed_group_is_found_by_gid(
    before: &Service,
    after: &Service,
    scim_groups: Seq<ScimGroup>,
    groups: Seq<Group>,
    now: i64,
    i: int,
    later: i64,
    found: Option<Group>,
)
    requires
        before.cached().exclusive(),
        before.cached().wf(),
        before.ranges_valid(),
        before.groups_resolved(after, scim_groups, groups, now),
        distinct_groups(scim_groups),
        0 <= i < groups.len(),
        later - now < after.cached().ttl(),
        later - after.cached().ttl() >= i64::MIN,
        after.cached().group_by_gid_answer(groups[i].gid, later, found),
    ensures
        found matches Some(group) && group.external_id@ == groups[i].external_id@ && group.name@
            == groups[i].name@ && group.gid == groups[i].gid && forall|m: Seq<char>|
            #[trigger] group@.members.contains(m) <==> groups[i]@.members.contains(m),
{
    lemma_listed_groups(before, after, scim_groups, groups, now);
    lemma_held_group_is_found(
        after.cached()@,
        groups[i]@,
        now,
        later,
        after.cached().ttl(),
        group_view(found),
    );
}

/// Names of up to 256 bytes are looked up, longer ones are not.
pub proof fn lemma_name_limit(name: Seq<char>)
    ensures
        oversized(name) <==> encode_utf8(name).len() > 256,
{
}

/// Lookups leave the configuration, the SCIM client and the failure of the first purge as
/// they are; where nothing is stored, the cache too.
pub proof fn lemma_setup_stays(before: &Service, after: &Service)
    ensures
        before.same_setup(after) <==> after.configured() == before.configured() && after.client()
            == before.client() && after.purge_error() == before.purge_error(),
        before.unchanged(after) ==> before.same_setup(after) && after.cached() == before.cached(),
{
}

/// A lookup that could not resolve or store its user or group leaves the setup as it is,
/// and a user that was not stored is not there.
pub proof fn lemma_not_resolved(
    before: &Service,
    after: &Service,
    scim_user: ScimUser,
    scim_group: ScimGroup,
    e: ServiceError,
    now: i64,
)
    ensures
        before.not_stored(after, scim_user, e) ==> after.configured() == before.configured()
            && before.user_unresolved(scim_user, e) && (before.cached().exclusive()
            ==> after.cached()@ == before.cached()@),
        before.group_not_resolved(after, scim_group, e, now) ==> after.configured()
            == before.configured() && before.group_unresolved(scim_group, e),
{
}

} // verus!
