use sssd_oidc::cache::{cache_file_hardened, harden_cache_file, Cache, CacheError, Harden};
use sssd_oidc::config::FileMeta;
use sssd_oidc::mapping::id_to_uid;
use sssd_oidc::model::{Group, User};

fn user(external_id: &str, name: &str, uid: u32) -> User {
    User {
        external_id: external_id.into(),
        name: name.into(),
        uid,
        gid: 200_001,
        gecos: String::new(),
        home: format!("/home/{name}"),
        shell: "/bin/bash".into(),
        active: true,
    }
}

fn group(external_id: &str, name: &str, gid: u32, members: &[&str]) -> Group {
    Group {
        external_id: external_id.into(),
        name: name.into(),
        gid,
        members: members.iter().map(|m| m.to_string()).collect(),
    }
}

#[test]
fn round_trip_user() {
    let mut cache = Cache::open_in_memory().unwrap();
    let user = User {
        external_id: "abc-123".into(),
        name: "alice".into(),
        uid: 200_042,
        gid: 200_001,
        gecos: "Alice Smith".into(),
        home: "/home/alice".into(),
        shell: "/bin/bash".into(),
        active: true,
    };
    cache.store_user(&user).unwrap();

    let by_uid = cache.get_user_by_uid(200_042).unwrap().unwrap();
    assert_eq!(by_uid, user);

    let by_name = cache.get_user_by_name("alice").unwrap().unwrap();
    assert_eq!(by_name, user);

    assert!(cache.get_user_by_uid(999_999).unwrap().is_none());
}

#[test]
fn round_trip_group() {
    let mut cache = Cache::open_in_memory().unwrap();
    let group = Group {
        external_id: "grp-456".into(),
        name: "engineering".into(),
        gid: 200_010,
        members: vec!["alice".into(), "bob".into()],
    };
    cache.store_group(&group).unwrap();

    let by_gid = cache.get_group_by_gid(200_010).unwrap().unwrap();
    assert_eq!(by_gid.name, "engineering");
    assert_eq!(by_gid.gid, 200_010);
    assert_eq!(by_gid.members, vec!["alice", "bob"]);

    let by_name = cache.get_group_by_name("engineering").unwrap().unwrap();
    assert_eq!(by_name.gid, 200_010);
    assert_eq!(by_name.members, vec!["alice", "bob"]);
}

#[test]
fn purge_expired_removes_old_entries() {
    let mut cache = Cache::open_in_memory().unwrap();
    let user = User {
        external_id: "abc-123".into(),
        name: "alice".into(),
        uid: 200_042,
        gid: 200_001,
        gecos: "Alice Smith".into(),
        home: "/home/alice".into(),
        shell: "/bin/bash".into(),
        active: true,
    };
    cache.store_user(&user).unwrap();

    let group = Group {
        external_id: "grp-456".into(),
        name: "engineering".into(),
        gid: 200_010,
        members: vec!["alice".into()],
    };
    cache.store_group(&group).unwrap();

    // With TTL=0 everything is already expired
    cache.purge_expired(0).unwrap();

    assert!(cache.get_user_by_uid(200_042).unwrap().is_none());
    assert!(cache.get_group_by_gid(200_010).unwrap().is_none());
}

#[test]
fn resolve_uid_returns_same_id_for_same_external_id() {
    let mut cache = Cache::open_in_memory().unwrap();
    let uid1 = cache.resolve_uid("user-aaa", 200_000, 200_000).unwrap();
    // Store a user so the cache knows this UID is taken by "user-aaa"
    cache
        .store_user(&User {
            external_id: "user-aaa".into(),
            name: "aaa".into(),
            uid: uid1,
            gid: 200_001,
            gecos: String::new(),
            home: "/home/aaa".into(),
            shell: "/bin/bash".into(),
            active: true,
        })
        .unwrap();
    // Same external_id should resolve to the same UID
    let uid2 = cache.resolve_uid("user-aaa", 200_000, 200_000).unwrap();
    assert_eq!(uid1, uid2);
}

#[test]
fn resolve_uid_linear_probes_on_collision() {
    let mut cache = Cache::open_in_memory().unwrap();
    // Get the candidate UID for user-aaa
    let uid_aaa = cache.resolve_uid("user-aaa", 200_000, 200_000).unwrap();
    // Occupy that slot with user-aaa
    cache
        .store_user(&User {
            external_id: "user-aaa".into(),
            name: "aaa".into(),
            uid: uid_aaa,
            gid: 200_001,
            gecos: String::new(),
            home: "/home/aaa".into(),
            shell: "/bin/bash".into(),
            active: true,
        })
        .unwrap();

    // Now manually insert a *different* user at the same UID that user-bbb
    // would hash to, to force a collision. We do this by finding user-bbb's
    // natural hash and pre-occupying it.
    let natural_bbb = id_to_uid("user-bbb", 200_000, 200_000);
    cache
        .store_user(&User {
            external_id: "blocker".into(),
            name: "blocker".into(),
            uid: natural_bbb,
            gid: 200_001,
            gecos: String::new(),
            home: "/home/blocker".into(),
            shell: "/bin/bash".into(),
            active: true,
        })
        .unwrap();

    // user-bbb should get a different UID (probed)
    let uid_bbb = cache.resolve_uid("user-bbb", 200_000, 200_000).unwrap();
    assert_ne!(uid_bbb, natural_bbb);
    assert!(uid_bbb >= 200_000 && uid_bbb < 400_000);
}

#[test]
fn resolve_gid_handles_collision() {
    let mut cache = Cache::open_in_memory().unwrap();
    let gid_a = cache.resolve_gid("group-a", 300_000, 100).unwrap();
    cache
        .store_group(&Group {
            external_id: "group-a".into(),
            name: "alpha".into(),
            gid: gid_a,
            members: vec![],
        })
        .unwrap();

    // Occupy group-b's natural slot with group-a's data by inserting a
    // blocker at group-b's hash
    let natural_b = id_to_uid("group-b", 300_000, 100);
    if natural_b != gid_a {
        cache
            .store_group(&Group {
                external_id: "blocker".into(),
                name: "blocker".into(),
                gid: natural_b,
                members: vec![],
            })
            .unwrap();
    }

    let gid_b = cache.resolve_gid("group-b", 300_000, 100).unwrap();
    assert_ne!(gid_b, natural_b);
    assert!(gid_b >= 300_000 && gid_b < 300_100);
}

#[test]
fn get_groups_for_member_returns_matching_groups() {
    let mut cache = Cache::open_in_memory().unwrap();
    let eng = Group {
        external_id: "grp-eng".into(),
        name: "engineering".into(),
        gid: 200_010,
        members: vec!["alice".into(), "bob".into()],
    };
    let ops = Group {
        external_id: "grp-ops".into(),
        name: "operations".into(),
        gid: 200_020,
        members: vec!["alice".into(), "carol".into()],
    };
    let design = Group {
        external_id: "grp-des".into(),
        name: "design".into(),
        gid: 200_030,
        members: vec!["carol".into()],
    };
    cache.store_group(&eng).unwrap();
    cache.store_group(&ops).unwrap();
    cache.store_group(&design).unwrap();

    let alice_groups = cache.get_groups_for_member("alice").unwrap();
    let mut alice_gids: Vec<u32> = alice_groups.iter().map(|g| g.gid).collect();
    alice_gids.sort();
    assert_eq!(alice_gids, vec![200_010, 200_020]);

    let carol_groups = cache.get_groups_for_member("carol").unwrap();
    let mut carol_gids: Vec<u32> = carol_groups.iter().map(|g| g.gid).collect();
    carol_gids.sort();
    assert_eq!(carol_gids, vec![200_020, 200_030]);

    let nobody = cache.get_groups_for_member("nobody").unwrap();
    assert!(nobody.is_empty());
}

#[test]
fn purge_expired_keeps_recent_entries() {
    let mut cache = Cache::open_in_memory().unwrap();
    let user = User {
        external_id: "abc-123".into(),
        name: "alice".into(),
        uid: 200_042,
        gid: 200_001,
        gecos: "Alice Smith".into(),
        home: "/home/alice".into(),
        shell: "/bin/bash".into(),
        active: true,
    };
    cache.store_user(&user).unwrap();

    // With a large TTL, entries should be kept
    cache.purge_expired(86400).unwrap();

    assert!(cache.get_user_by_uid(200_042).unwrap().is_some());
}

#[test]
fn entries_are_misses_once_they_are_older_than_the_ttl() {
    let mut cache = Cache::open(":memory:", 100, |_| Ok(())).unwrap();
    cache.store_user_at(&user("a", "alice", 1), 1_000).unwrap();
    assert!(cache.get_user_by_uid_at(1, 1_099).unwrap().is_some());
    assert!(cache.get_user_by_uid_at(1, 1_100).unwrap().is_none());
    assert!(cache.get_user_by_name_at("alice", 1_099).unwrap().is_some());
    assert!(cache.get_user_by_name_at("alice", 1_100).unwrap().is_none());
    cache.store_group_at(&group("g", "eng", 7, &["alice"]), 1_000).unwrap();
    assert!(cache.get_group_by_gid_at(7, 1_099).unwrap().is_some());
    assert!(cache.get_group_by_gid_at(7, 1_100).unwrap().is_none());
    assert!(cache.get_group_by_name_at("eng", 1_099).unwrap().is_some());
    assert!(cache.get_group_by_name_at("eng", 1_100).unwrap().is_none());
    assert_eq!(cache.get_groups_for_member_at("alice", 1_099).unwrap().len(), 1);
    assert!(cache.get_groups_for_member_at("alice", 1_100).unwrap().is_empty());
}

#[test]
fn a_ttl_that_sqlite_cannot_hold_is_an_error() {
    let mut cache = Cache::open(":memory:", u64::MAX, |_| Ok(())).unwrap();
    let err = cache.get_user_by_uid(1).unwrap_err();
    assert!(matches!(err, CacheError::Sqlite(_)));
    assert!(err.message().starts_with("sqlite error: "));
    assert!(cache.purge_expired(u64::MAX).is_err());
    assert!(cache.get_groups_for_member("a").is_err());
}

#[test]
fn the_clock_is_between_this_century_and_the_year_ten_thousand() {
    let cache = Cache::open_in_memory().unwrap();
    let now = cache.now().unwrap();
    assert!(now > 946_684_800 && now < 253_402_300_800);
}

#[test]
fn a_user_takes_the_place_of_the_one_with_its_uid() {
    let mut cache = Cache::open_in_memory().unwrap();
    cache.store_user(&user("a", "alice", 5)).unwrap();
    cache.store_user(&user("b", "bob", 5)).unwrap();
    assert_eq!(cache.get_user_by_uid(5).unwrap().unwrap().name, "bob");
    assert!(cache.get_user_by_name("alice").unwrap().is_none());
}

#[test]
fn a_user_takes_the_place_of_the_one_with_its_id() {
    let mut cache = Cache::open_in_memory().unwrap();
    cache.store_user(&user("a", "alice", 5)).unwrap();
    cache.store_user(&user("a", "alice2", 6)).unwrap();
    assert!(cache.get_user_by_uid(5).unwrap().is_none());
    assert_eq!(cache.get_user_by_uid(6).unwrap().unwrap().name, "alice2");
}

#[test]
fn a_group_takes_the_place_of_the_one_with_its_gid_and_of_its_members() {
    let mut cache = Cache::open_in_memory().unwrap();
    cache.store_group(&group("g", "eng", 7, &["alice", "bob"])).unwrap();
    cache.store_group(&group("h", "ops", 7, &["carol"])).unwrap();
    assert!(cache.get_group_by_name("eng").unwrap().is_none());
    assert!(cache.get_groups_for_member("alice").unwrap().is_empty());
    // The members of the displaced group do not come back with its name.
    cache.store_group(&group("g", "eng", 8, &[])).unwrap();
    assert!(cache.get_group_by_name("eng").unwrap().unwrap().members.is_empty());
}

#[test]
fn storing_a_group_again_replaces_its_members() {
    let mut cache = Cache::open_in_memory().unwrap();
    cache.store_group(&group("g", "eng", 7, &["alice", "bob"])).unwrap();
    cache.store_group(&group("g", "eng", 7, &["bob", "carol"])).unwrap();
    let mut members = cache.get_group_by_gid(7).unwrap().unwrap().members;
    members.sort();
    assert_eq!(members, vec!["bob", "carol"]);
}

#[test]
fn a_member_given_twice_fails_after_the_first() {
    let mut cache = Cache::open_in_memory().unwrap();
    let res = cache.store_group(&group("g", "eng", 7, &["alice", "alice", "bob"]));
    assert!(matches!(res, Err(CacheError::Sqlite(_))));
    assert_eq!(cache.get_group_by_gid(7).unwrap().unwrap().members, vec!["alice"]);
}

#[test]
fn purging_keeps_exactly_what_is_fresh() {
    let mut cache = Cache::open(":memory:", 1_000_000, |_| Ok(())).unwrap();
    cache.store_user_at(&user("old", "o", 1), 100).unwrap();
    cache.store_user_at(&user("new", "n", 2), 200).unwrap();
    cache.store_group_at(&group("og", "og", 1, &["o"]), 100).unwrap();
    cache.store_group_at(&group("ng", "ng", 2, &["n", "o"]), 200).unwrap();
    cache.purge_expired_at(50, 220).unwrap();
    assert!(cache.get_user_by_uid_at(1, 220).unwrap().is_none());
    assert!(cache.get_user_by_uid_at(2, 220).unwrap().is_some());
    assert!(cache.get_group_by_gid_at(1, 220).unwrap().is_none());
    // A second purge at the same time changes nothing.
    cache.purge_expired_at(50, 220).unwrap();
    let of_o = cache.get_groups_for_member_at("o", 220).unwrap();
    assert_eq!(of_o.len(), 1);
    assert_eq!(of_o[0].gid, 2);
}

#[test]
fn a_cached_user_keeps_its_uid_when_its_home_slot_becomes_free() {
    let mut cache = Cache::open_in_memory().unwrap();
    let home = id_to_uid("user-a", 100, 10);
    cache.store_user(&user("blocker", "blocker", home)).unwrap();
    let uid = cache.resolve_uid("user-a", 100, 10).unwrap();
    assert_eq!(uid, 100 + (home - 100 + 1) % 10);
    cache.store_user(&user("user-a", "a", uid)).unwrap();
    cache.store_user(&user("blocker", "blocker", 500)).unwrap();
    assert_eq!(cache.resolve_uid("user-a", 100, 10).unwrap(), uid);
}

#[test]
fn a_full_range_is_exhausted() {
    let mut cache = Cache::open_in_memory().unwrap();
    for i in 0..3 {
        let id = format!("u{i}");
        let uid = cache.resolve_uid(&id, 100, 3).unwrap();
        cache.store_user(&user(&id, &id, uid)).unwrap();
        let gid = cache.resolve_gid(&id, 100, 3).unwrap();
        cache.store_group(&group(&id, &id, gid, &[])).unwrap();
    }
    let err = cache.resolve_uid("late", 100, 3).unwrap_err();
    assert!(matches!(err, CacheError::RangeExhausted));
    assert_eq!(err.message(), "UID/GID range exhausted — all slots occupied");
    assert!(matches!(cache.resolve_gid("late", 100, 3), Err(CacheError::RangeExhausted)));
}

#[test]
fn opening_asks_for_hardening_of_a_file_only() {
    // The empty path is a temporary database of its own.
    let refused = Cache::open("", 10, |path| {
        Err(CacheError::InsecurePermissions { path: path.to_string(), detail: "no".into() })
    });
    assert!(matches!(refused, Err(CacheError::InsecurePermissions { .. })));
    assert!(Cache::open("", 10, |_| Ok(())).is_ok());
    assert!(Cache::open(":memory:", 10, |_| Err(CacheError::RangeExhausted)).is_ok());
    assert!(matches!(
        Cache::open("/nonexistent/dir/cache.db", 10, |_| Ok(())),
        Err(CacheError::Sqlite(_))
    ));
}

#[test]
fn cache_file_rules() {
    let ok = FileMeta { regular: true, mode: 0o100600, uid: 0 };
    assert_eq!(harden_cache_file("c", Ok(ok), true).unwrap(), Harden::Keep);
    let open = FileMeta { regular: true, mode: 0o100644, uid: 0 };
    assert_eq!(harden_cache_file("c", Ok(open), true).unwrap(), Harden::SetMode(0o644));
    let link = FileMeta { regular: false, mode: 0o120777, uid: 0 };
    assert_eq!(
        harden_cache_file("c", Ok(link), true).unwrap_err().message(),
        "insecure permissions on cache c: not a regular file"
    );
    let owned = FileMeta { regular: true, mode: 0o100600, uid: 1000 };
    assert_eq!(
        harden_cache_file("c", Ok(owned), true).unwrap_err().message(),
        "insecure permissions on cache c: owned by uid 1000 but must be owned by root (uid 0)"
    );
    assert_eq!(harden_cache_file("c", Ok(owned), false).unwrap(), Harden::Keep);
    assert_eq!(
        harden_cache_file("c", Err("gone".into()), true).unwrap_err().message(),
        "insecure permissions on cache c: cannot stat file: gone"
    );
    assert!(cache_file_hardened("c", 0o644, Ok(())).is_ok());
    assert_eq!(
        cache_file_hardened("c", 0o644, Err("read-only".into())).unwrap_err().message(),
        "insecure permissions on cache c: permissions 0644 are too open and could not be \
         corrected: read-only. Run: chmod 600 c"
    );
}
