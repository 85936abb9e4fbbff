use sssd_oidc::cache::Cache;
use sssd_oidc::config::{
    CacheConfig, Config, MappingConfig, OfflineAuthPolicy, OidcConfig, ScimConfig, SecurityConfig,
    UserDefaultsConfig,
};
use sssd_oidc::mapping::id_to_uid;
use sssd_oidc::model::User;
use sssd_oidc::nss::{
    group_by_gid, group_by_name, initgroups, passwd_by_name, passwd_by_uid, setgrent, setpwent,
    GroupEnum, NssStatus, UserEnum, ERANGE,
};
use sssd_oidc::pam::{account_code, acct_mgmt, PAM_PERM_DENIED, PAM_SUCCESS};
use sssd_oidc::scim::{
    ScimClient, ScimError, ScimGroup, ScimGroupRef, ScimMemberRef, ScimUser,
};
use sssd_oidc::service::{Service, ServiceError, MAX_NAME_LEN};

fn config() -> Config {
    Config {
        scim: ScimConfig {
            base_url: "http://127.0.0.1:1".into(),
            bearer_token_file: "/nonexistent".into(),
            bearer_token: "test-bearer-token".into(),
        },
        oidc: OidcConfig {
            issuer_url: "http://127.0.0.1:1".into(),
            client_id: "test-client-id".into(),
            client_secret: None,
            allow_insecure: true,
        },
        mapping: MappingConfig::default(),
        user_defaults: UserDefaultsConfig::default(),
        cache: CacheConfig { db_path: ":memory:".into(), ttl_seconds: 3600 },
        security: SecurityConfig::default(),
    }
}

fn service_with(config: Config, cache: Cache) -> Service {
    let scim = ScimClient::new(&config.scim.base_url, &config.scim.bearer_token);
    Service::new(config, scim, cache)
}

fn make_service() -> Service {
    service_with(config(), Cache::open_in_memory().unwrap())
}

fn alice() -> ScimUser {
    ScimUser {
        id: "user-uuid-alice-001".into(),
        user_name: "alice".into(),
        display_name: Some("Alice Smith".into()),
        active: Some(true),
        groups: vec![ScimGroupRef {
            value: "group-uuid-eng-001".into(),
            display: Some("engineering".into()),
        }],
    }
}

fn disabled_bob() -> ScimUser {
    ScimUser {
        id: "user-uuid-bob-002".into(),
        user_name: "disabled_bob".into(),
        display_name: Some("Bob Disabled".into()),
        active: Some(false),
        groups: vec![],
    }
}

fn engineering() -> ScimGroup {
    ScimGroup {
        id: "group-uuid-eng-001".into(),
        display_name: "engineering".into(),
        members: vec![ScimMemberRef {
            value: "user-uuid-alice-001".into(),
            display: Some("alice".into()),
        }],
    }
}

fn down<T>() -> Result<T, ScimError> {
    Err(ScimError::Http("connection refused".into()))
}

fn in_range(id: u32) -> bool {
    id >= 200_000 && id < 400_000
}

fn text_at(buf: &[u8], at: usize) -> &str {
    let end = at + buf[at..].iter().position(|&b| b == 0).unwrap();
    std::str::from_utf8(&buf[at..end]).unwrap()
}

#[test]
fn lookup_user_by_name_via_scim() {
    let mut svc = make_service();
    let now = svc.now().unwrap();
    let user = svc
        .lookup_user_by_name("alice", Ok(Some(alice())), now)
        .unwrap()
        .expect("alice should be found");
    assert_eq!(user.name, "alice");
    assert_eq!(user.gecos, "Alice Smith");
    assert_eq!(user.home, "/home/alice");
    assert_eq!(user.shell, "/bin/bash");
    assert!(in_range(user.uid));
    assert!(in_range(user.gid));
    assert_eq!(user.uid, id_to_uid("user-uuid-alice-001", 200_000, 200_000));
    assert_eq!(user.gid, id_to_uid("group-uuid-eng-001", 200_000, 200_000));
    assert!(user.active);
}

#[test]
fn lookup_nonexistent_user() {
    let mut svc = make_service();
    let now = svc.now().unwrap();
    assert!(svc.lookup_user_by_name("nonexistent", Ok(None), now).unwrap().is_none());
}

#[test]
fn lookup_group_by_name_via_scim() {
    let mut svc = make_service();
    let now = svc.now().unwrap();
    let group = svc
        .lookup_group_by_name("engineering", Ok(Some(engineering())), now)
        .unwrap()
        .expect("engineering group should be found");
    assert_eq!(group.name, "engineering");
    assert!(in_range(group.gid));
    assert_eq!(group.members, vec!["alice"]);
}

#[test]
fn uid_reverse_lookup_after_cache() {
    let mut svc = make_service();
    let now = svc.now().unwrap();
    let user = svc
        .lookup_user_by_name("alice", Ok(Some(alice())), now)
        .unwrap()
        .expect("alice should be found");
    let by_uid = svc
        .lookup_user_by_uid(user.uid, now)
        .unwrap()
        .expect("alice should be found by UID");
    assert_eq!(by_uid.name, "alice");
    assert!(in_range(by_uid.uid));
    assert_eq!(by_uid, user);
    assert!(svc.lookup_user_by_uid(user.uid, now + 3600).unwrap().is_none());
}

#[test]
fn deterministic_uid_mapping() {
    let uid1 = id_to_uid("user-uuid-alice-001", 200_000, 200_000);
    let uid2 = id_to_uid("user-uuid-alice-001", 200_000, 200_000);
    assert_eq!(uid1, uid2);
    assert!(uid1 >= 200_000 && uid1 < 400_000);
}

#[test]
fn active_user_passes_acct_mgmt() {
    let mut svc = make_service();
    let now = svc.now().unwrap();
    assert!(svc.check_user_active("alice", Ok(Some(alice())), now).unwrap());
    let checked = acct_mgmt(&mut svc, "alice", Ok(Some(alice())), now);
    assert_eq!(account_code(&checked), PAM_SUCCESS);
}

#[test]
fn inactive_user_denied_by_acct_mgmt() {
    let mut svc = make_service();
    let now = svc.now().unwrap();
    assert!(!svc.check_user_active("disabled_bob", Ok(Some(disabled_bob())), now).unwrap());
    let checked = acct_mgmt(&mut svc, "disabled_bob", Ok(Some(disabled_bob())), now);
    assert_eq!(account_code(&checked), PAM_PERM_DENIED);
    // The cache remembers it.
    assert!(!svc.check_user_active("disabled_bob", down(), now).unwrap());
}

#[test]
fn acct_mgmt_falls_back_to_cache_on_scim_error() {
    let mut cache = Cache::open_in_memory().unwrap();
    let user = User {
        external_id: "user-uuid-alice-001".into(),
        name: "alice".into(),
        uid: 200_000,
        gid: 200_000,
        gecos: "Alice Smith".into(),
        home: "/home/alice".into(),
        shell: "/bin/bash".into(),
        active: true,
    };
    cache.store_user(&user).unwrap();
    let mut svc = service_with(config(), cache);
    let now = svc.now().unwrap();
    assert!(svc.check_user_active("alice", down(), now).unwrap());
    assert!(!svc.check_user_active("carol", down(), now).unwrap());
    // SCIM's word counts where it has one.
    assert!(!svc.check_user_active("alice", Ok(None), now).unwrap());
}

#[test]
fn the_deny_policy_lets_nobody_in_offline() {
    let mut config = config();
    config.security.offline_auth_policy = OfflineAuthPolicy::Deny;
    let mut svc = service_with(config, Cache::open_in_memory().unwrap());
    let now = svc.now().unwrap();
    assert!(svc.check_user_active("alice", Ok(Some(alice())), now).unwrap());
    assert!(!svc.check_user_active("alice", down(), now).unwrap());
    // Lookups still fall back to the cache.
    assert!(svc.lookup_user_by_name("alice", down(), now).unwrap().is_some());
}

#[test]
fn a_user_without_active_is_active() {
    let mut svc = make_service();
    let now = svc.now().unwrap();
    let mut user = alice();
    user.active = None;
    assert!(svc.check_user_active("alice", Ok(Some(user)), now).unwrap());
}

#[test]
fn initgroups_returns_supplementary_gids() {
    let mut svc = make_service();
    let now = svc.now().unwrap();
    let gids = svc.lookup_groups_for_user("alice", Ok(Some(alice())), now).unwrap();
    assert!(!gids.is_empty());
    assert!(gids.iter().all(|&g| g >= 200_000 && g < 400_000));
}

#[test]
fn initgroups_returns_empty_for_nonexistent_user() {
    let mut svc = make_service();
    let now = svc.now().unwrap();
    assert!(svc.lookup_groups_for_user("nonexistent", Ok(None), now).unwrap().is_empty());
}

#[test]
fn initgroups_falls_back_to_cached_members() {
    let mut svc = make_service();
    let now = svc.now().unwrap();
    let group = svc
        .lookup_group_by_name("engineering", Ok(Some(engineering())), now)
        .unwrap()
        .unwrap();
    assert_eq!(svc.lookup_groups_for_user("alice", down(), now).unwrap(), vec![group.gid]);
    assert!(svc.lookup_groups_for_user("bob", down(), now).unwrap().is_empty());
}

#[test]
fn enumerate_users_via_scim_pagination() {
    let mut svc = make_service();
    let now = svc.now().unwrap();
    let users = svc.list_all_users(Ok(vec![alice(), disabled_bob()]), now).unwrap();
    assert_eq!(users.len(), 2);
    let names: Vec<&str> = users.iter().map(|u| u.name.as_str()).collect();
    assert!(names.contains(&"alice"));
    assert!(names.contains(&"disabled_bob"));
    assert_eq!(svc.lookup_user_by_uid(users[1].uid, now).unwrap().unwrap(), users[1]);
}

#[test]
fn enumerate_groups_via_scim_pagination() {
    let mut svc = make_service();
    let now = svc.now().unwrap();
    let groups = svc.list_all_groups(Ok(vec![engineering()]), now).unwrap();
    assert_eq!(groups.len(), 1);
    assert_eq!(groups[0].name, "engineering");
}

#[test]
fn a_list_that_scim_does_not_give_is_an_error() {
    let mut svc = make_service();
    let now = svc.now().unwrap();
    let err = svc.list_all_users(down(), now).unwrap_err();
    assert!(matches!(err, ServiceError::Scim(_)));
    assert_eq!(err.message(), "SCIM error: HTTP request failed: connection refused");
    assert!(matches!(svc.list_all_groups(down(), now), Err(ServiceError::Scim(_))));
}

#[test]
fn an_enumeration_leaves_out_what_cannot_be_resolved() {
    let mut config = config();
    config.mapping.uid_range_size = 1;
    let mut svc = service_with(config, Cache::open_in_memory().unwrap());
    let now = svc.now().unwrap();
    let all = svc.enumerate_users(&vec![alice(), disabled_bob()], now);
    assert_eq!(all.entries.len(), 1);
    assert_eq!(all.entries[0].name, "alice");
    assert_eq!(all.failures.len(), 1);
    assert!(all.failures[0].message().starts_with("cache error: UID/GID range exhausted"));
    // The strict list ends with the error instead.
    let err = svc.list_all_users(Ok(vec![alice(), disabled_bob()]), now).unwrap_err();
    assert!(matches!(err, ServiceError::Cache(_)));
}

#[test]
fn an_enumeration_keeps_a_group_that_cannot_be_stored() {
    let mut svc = make_service();
    let now = svc.now().unwrap();
    let mut twice = engineering();
    twice.members.push(twice.members[0].clone());
    let all = svc.enumerate_groups(&vec![twice.clone()], now);
    assert_eq!(all.entries.len(), 1);
    assert_eq!(all.entries[0].members, vec!["alice", "alice"]);
    assert!(all.failures.is_empty());
    assert!(all.stored[0].is_err());
    assert!(svc.list_all_groups(Ok(vec![twice]), now).is_err());
}

#[test]
fn members_without_a_display_name_are_left_out() {
    let mut svc = make_service();
    let now = svc.now().unwrap();
    let mut group = engineering();
    group.members.insert(0, ScimMemberRef { value: "x".into(), display: None });
    let found = svc.lookup_group_by_name("engineering", Ok(Some(group)), now).unwrap().unwrap();
    assert_eq!(found.members, vec!["alice"]);
}

#[test]
fn names_that_are_too_long_are_nobodys() {
    let mut svc = make_service();
    let now = svc.now().unwrap();
    let long = "a".repeat(MAX_NAME_LEN + 1);
    assert!(svc.user_by_name_request(&long).is_none());
    assert!(svc.group_by_name_request(&long).is_none());
    assert!(svc.lookup_user_by_name(&long, Ok(Some(alice())), now).unwrap().is_none());
    assert!(svc.lookup_group_by_name(&long, Ok(Some(engineering())), now).unwrap().is_none());
    assert!(!svc.check_user_active(&long, Ok(Some(alice())), now).unwrap());
    assert!(svc.lookup_groups_for_user(&long, Ok(Some(alice())), now).unwrap().is_empty());
    // Bytes count, not characters.
    assert!(svc.user_by_name_request(&"é".repeat(129)).is_none());
    let request = svc.user_by_name_request(&"a".repeat(MAX_NAME_LEN)).unwrap();
    assert_eq!(request.url, "http://127.0.0.1:1/Users");
    assert_eq!(svc.is_online().query, vec![("count".to_string(), "0".to_string())]);
}

#[test]
fn the_home_template_is_filled_in_wherever_it_asks_for_the_user() {
    let mut config = config();
    config.user_defaults.home_template = "/{user}/{user}{use".into();
    let mut svc = service_with(config, Cache::open_in_memory().unwrap());
    let now = svc.now().unwrap();
    let user = svc.lookup_user_by_name("alice", Ok(Some(alice())), now).unwrap().unwrap();
    assert_eq!(user.home, "/alice/alice{use");
    let mut odd = alice();
    odd.user_name = "{user}".into();
    odd.display_name = None;
    odd.groups = vec![];
    let user = svc.lookup_user_by_name("{user}", Ok(Some(odd)), now).unwrap().unwrap();
    assert_eq!(user.home, "/{user}/{user}{use");
    assert_eq!(user.gecos, "");
    assert_eq!(user.gid, id_to_uid("user-uuid-alice-001", 200_000, 200_000));
}

#[test]
fn a_new_service_purges_what_has_expired() {
    let mut cache = Cache::open_in_memory().unwrap();
    let mut user = User {
        external_id: "a".into(),
        name: "a".into(),
        uid: 200_000,
        gid: 200_000,
        gecos: String::new(),
        home: "/".into(),
        shell: "/bin/sh".into(),
        active: true,
    };
    cache.store_user_at(&user, 1_000).unwrap();
    user.external_id = "b".into();
    user.uid = 200_001;
    cache.store_user(&user).unwrap();
    let svc = service_with(config(), cache);
    // Long ago the entry would have been fresh.
    assert!(svc.lookup_user_by_uid(200_000, 1_001).unwrap().is_none());
    let now = svc.now().unwrap();
    assert!(svc.lookup_user_by_uid(200_001, now).unwrap().is_some());
}

#[test]
fn nss_getpwnam_r_fills_passwd_struct() {
    let mut svc = make_service();
    let now = svc.now().unwrap();
    let mut buf = vec![0u8; 1024];
    let reply = passwd_by_name(&mut svc, "alice", Ok(Some(alice())), now, &mut buf);
    assert_eq!(reply.status, NssStatus::Success);
    assert_eq!(reply.errno, 0);
    let pw = reply.entry.unwrap();
    assert_eq!(text_at(&buf, pw.pw_name), "alice");
    assert_eq!(text_at(&buf, pw.pw_passwd), "x");
    assert!(in_range(pw.pw_uid));
    assert!(in_range(pw.pw_gid));
    assert_eq!(text_at(&buf, pw.pw_gecos), "Alice Smith");
    assert_eq!(text_at(&buf, pw.pw_dir), "/home/alice");
    assert_eq!(text_at(&buf, pw.pw_shell), "/bin/bash");
}

#[test]
fn nss_getpwnam_r_returns_notfound_for_unknown_user() {
    let mut svc = make_service();
    let now = svc.now().unwrap();
    let reply = passwd_by_name(&mut svc, "nonexistent", Ok(None), now, &mut vec![0u8; 1024]);
    assert_eq!(reply.status, NssStatus::NotFound);
    assert_eq!(reply.errno, 0);
}

#[test]
fn nss_getpwuid_r_after_name_lookup() {
    let mut svc = make_service();
    let now = svc.now().unwrap();
    let mut buf = vec![0u8; 1024];
    let reply = passwd_by_name(&mut svc, "alice", Ok(Some(alice())), now, &mut buf);
    assert_eq!(reply.status, NssStatus::Success);
    let uid = reply.entry.unwrap().pw_uid;
    let mut buf2 = vec![0u8; 1024];
    let reply2 = passwd_by_uid(&svc, uid, now, &mut buf2);
    assert_eq!(reply2.status, NssStatus::Success);
    let entry = reply2.entry.unwrap();
    assert_eq!(text_at(&buf2, entry.pw_name), "alice");
    assert!(in_range(entry.pw_uid));
}

#[test]
fn nss_getpwnam_r_returns_tryagain_on_small_buffer() {
    let mut svc = make_service();
    let now = svc.now().unwrap();
    let reply = passwd_by_name(&mut svc, "alice", Ok(Some(alice())), now, &mut vec![0u8; 1]);
    assert_eq!(reply.status, NssStatus::TryAgain);
    assert_eq!(reply.errno, ERANGE);
}

#[test]
fn nss_initgroups_dyn_returns_supplementary_gids() {
    let mut svc = make_service();
    let now = svc.now().unwrap();
    let mut gids = vec![];
    let reply = initgroups(&mut svc, "alice", Ok(Some(alice())), now, 0, &mut gids, 64);
    assert_eq!(reply.status, NssStatus::Success);
    assert_eq!(reply.errno, 0);
    assert!(!gids.is_empty(), "should have at least one supplementary group");
    assert!(gids.iter().all(|&g| g >= 200_000 && g < 400_000));
}

#[test]
fn nss_initgroups_dyn_returns_success_for_unknown_user() {
    let mut svc = make_service();
    let now = svc.now().unwrap();
    let mut gids = vec![];
    let reply = initgroups(&mut svc, "nonexistent", Ok(None), now, 0, &mut gids, 64);
    assert_eq!(reply.status, NssStatus::Success);
    assert_eq!(gids.len(), 0);
}

#[test]
fn nss_getgrnam_r_fills_group_struct() {
    let mut svc = make_service();
    let now = svc.now().unwrap();
    let mut buf = vec![0u8; 4096];
    let scim = Ok(Some(engineering()));
    let reply = group_by_name(&mut svc, "engineering", scim, now, &mut buf, 8, 8);
    assert_eq!(reply.status, NssStatus::Success);
    assert_eq!(reply.errno, 0);
    let grp = reply.entry.unwrap();
    assert_eq!(text_at(&buf, grp.gr_name), "engineering");
    assert_eq!(text_at(&buf, grp.gr_passwd), "x");
    assert!(in_range(grp.gr_gid));
    let members: Vec<&str> = grp.members.iter().map(|&at| text_at(&buf, at)).collect();
    assert!(members.contains(&"alice"));
}

#[test]
fn nss_getgrnam_r_returns_notfound_for_unknown_group() {
    let mut svc = make_service();
    let now = svc.now().unwrap();
    let mut buf = vec![0u8; 1024];
    let reply = group_by_name(&mut svc, "nonexistent", Ok(None), now, &mut buf, 8, 8);
    assert_eq!(reply.status, NssStatus::NotFound);
    assert_eq!(reply.errno, 0);
}

#[test]
fn nss_getgrgid_r_after_name_lookup() {
    let mut svc = make_service();
    let now = svc.now().unwrap();
    let mut buf = vec![0u8; 4096];
    let scim = Ok(Some(engineering()));
    let reply = group_by_name(&mut svc, "engineering", scim, now, &mut buf, 8, 8);
    assert_eq!(reply.status, NssStatus::Success);
    let gid = reply.entry.unwrap().gr_gid;
    let mut buf2 = vec![0u8; 4096];
    let reply2 = group_by_gid(&svc, gid, now, &mut buf2, 8, 8);
    assert_eq!(reply2.status, NssStatus::Success);
    let entry = reply2.entry.unwrap();
    assert_eq!(text_at(&buf2, entry.gr_name), "engineering");
    assert!(in_range(entry.gr_gid));
}

#[test]
fn an_enumeration_stores_what_it_resolves() {
    let mut svc = make_service();
    let now = svc.now().unwrap();
    let users = svc.enumerate_users(&vec![alice(), disabled_bob()], now);
    assert_eq!(users.entries.len(), 2);
    assert!(users.failures.is_empty());
    for user in &users.entries {
        assert_eq!(svc.lookup_user_by_uid(user.uid, now).unwrap().as_ref(), Some(user));
    }
    let groups = svc.enumerate_groups(&vec![engineering()], now);
    let found = svc.lookup_group_by_gid(groups.entries[0].gid, now).unwrap().unwrap();
    assert_eq!(found, groups.entries[0]);
}

#[test]
fn an_enumeration_begins_with_what_scim_lists() {
    let mut config = config();
    config.mapping.uid_range_size = 1;
    let mut svc = service_with(config, Cache::open_in_memory().unwrap());
    let now = svc.now().unwrap();
    let mut buf = vec![0u8; 1024];

    let mut users = UserEnum::new();
    let started = setpwent(&mut svc, &mut users, down(), now);
    assert_eq!(started.status, NssStatus::Unavail);
    assert_eq!(users.get(&mut buf).status, NssStatus::Unavail);
    let started = setpwent(&mut svc, &mut users, Ok(vec![alice(), disabled_bob()]), now);
    assert_eq!(started.status, NssStatus::Success);
    assert_eq!(started.failures.len(), 1);
    assert_eq!(started.stored.len(), 1);
    assert!(started.stored[0].is_ok());
    assert_eq!(users.get(&mut buf).entry.unwrap().pw_uid, 200_000);
    assert_eq!(users.get(&mut buf).status, NssStatus::NotFound);

    let mut groups = GroupEnum::new();
    let started = setgrent(&mut svc, &mut groups, down(), now);
    assert_eq!(started.status, NssStatus::Unavail);
    assert_eq!(groups.get(&mut buf, 8, 8).status, NssStatus::Unavail);
    let started = setgrent(&mut svc, &mut groups, Ok(vec![engineering()]), now);
    assert_eq!(started.status, NssStatus::Success);
    assert!(started.failures.is_empty());
    assert!(started.stored[0].is_ok());
    let entry = groups.get(&mut buf, 8, 8).entry.unwrap();
    assert!(svc.lookup_group_by_gid(entry.gr_gid, now).unwrap().is_some());
    assert_eq!(groups.get(&mut buf, 8, 8).status, NssStatus::NotFound);
}

#[test]
fn the_users_of_one_list_share_no_uid() {
    let mut config = config();
    config.mapping.uid_range_size = 20;
    let mut svc = service_with(config, Cache::open_in_memory().unwrap());
    let now = svc.now().unwrap();
    let list: Vec<ScimUser> = (0..20)
        .map(|i| {
            let mut user = alice();
            user.id = format!("id-{i}");
            user.user_name = format!("user-{i}");
            user
        })
        .collect();
    let users = svc.list_all_users(Ok(list.clone()), now).unwrap();
    let mut uids: Vec<u32> = users.iter().map(|u| u.uid).collect();
    uids.sort();
    assert_eq!(uids, (200_000..200_020).collect::<Vec<u32>>());
    for user in &users {
        assert_eq!(svc.lookup_user_by_uid(user.uid, now).unwrap().as_ref(), Some(user));
    }
    let again = svc.enumerate_users(&list, now);
    assert_eq!(again.entries, users);
    assert!(again.stored.iter().all(|s| s.is_ok()));
}

#[test]
fn a_service_says_why_it_could_not_purge() {
    assert!(make_service().purge_failure().is_none());
    let mut config = config();
    config.cache.ttl_seconds = u64::MAX;
    let svc = service_with(config, Cache::open_in_memory().unwrap());
    assert!(svc.purge_failure().unwrap().message().starts_with("sqlite error: "));
}
