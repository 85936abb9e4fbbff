use sssd_oidc::buffer::{fill_group_buf, fill_passwd_buf, write_str};
use sssd_oidc::cache::CacheError;
use sssd_oidc::model::{Group, User};
use sssd_oidc::nss::{
    group_reply, merge_groups, passwd_reply, GroupEnum, NssStatus, UserEnum, ERANGE,
};
use sssd_oidc::service::ServiceError;

/// The C string that a reader sees at `at`.
fn text_at(buf: &[u8], at: usize) -> &str {
    let end = at + buf[at..].iter().position(|&b| b == 0).unwrap();
    std::str::from_utf8(&buf[at..end]).unwrap()
}

fn alice() -> User {
    User {
        external_id: "user-uuid-alice-001".into(),
        name: "alice".into(),
        uid: 200_042,
        gid: 200_001,
        gecos: "Alice Smith".into(),
        home: "/home/alice".into(),
        shell: "/bin/bash".into(),
        active: true,
    }
}

fn engineering() -> Group {
    Group {
        external_id: "group-uuid-eng-001".into(),
        name: "engineering".into(),
        gid: 200_010,
        members: vec!["alice".into(), "bob".into()],
    }
}

#[test]
fn write_str_writes_nul_terminated_string_and_advances_offset() {
    let mut buf = vec![0xffu8; 64];
    let mut offset: usize = 0;
    let at = write_str(&mut buf, &mut offset, "hello");
    assert!(at.is_some());
    assert_eq!(text_at(&buf, at.unwrap()), "hello");
    assert_eq!(offset, 6); // "hello" + NUL
    assert!(buf[6..].iter().all(|&b| b == 0xff));
}

#[test]
fn write_str_returns_none_when_buffer_too_small() {
    let mut buf = vec![0u8; 3];
    let mut offset: usize = 0;
    // "hello" needs 6 bytes, buffer is only 3
    assert!(write_str(&mut buf, &mut offset, "hello").is_none());
    assert_eq!(offset, 0); // offset unchanged
}

#[test]
fn write_str_consecutive_writes_pack_correctly() {
    let mut buf = vec![0u8; 64];
    let mut offset: usize = 0;
    let p1 = write_str(&mut buf, &mut offset, "alice");
    assert!(p1.is_some());
    assert_eq!(offset, 6);
    let p2 = write_str(&mut buf, &mut offset, "x");
    assert!(p2.is_some());
    assert_eq!(offset, 8); // 6 + "x\0"
    assert_eq!(text_at(&buf, p1.unwrap()), "alice");
    assert_eq!(text_at(&buf, p2.unwrap()), "x");
}

#[test]
fn write_str_exact_fit() {
    // "ab" needs 3 bytes (2 chars + NUL), buffer is exactly 3
    let mut buf = vec![0u8; 3];
    let mut offset: usize = 0;
    assert!(write_str(&mut buf, &mut offset, "ab").is_some());
    assert_eq!(offset, 3);
    // Now buffer is full — next write should fail
    assert!(write_str(&mut buf, &mut offset, "c").is_none());
}

#[test]
fn write_str_behind_the_end_fails() {
    let mut buf = vec![0u8; 3];
    let mut offset: usize = 10;
    assert!(write_str(&mut buf, &mut offset, "").is_none());
    assert_eq!(offset, 10);
}

#[test]
fn write_str_counts_bytes() {
    let mut buf = vec![0u8; 3];
    let mut offset: usize = 0;
    assert!(write_str(&mut buf, &mut offset, "é").is_some());
    assert_eq!(buf, vec![0xc3, 0xa9, 0]);
}

#[test]
fn passwd_is_packed_in_order() {
    let mut buf = vec![0xffu8; 1024];
    let entry = fill_passwd_buf(&alice(), &mut buf).unwrap();
    assert_eq!(entry.pw_name, 0);
    assert_eq!(text_at(&buf, entry.pw_name), "alice");
    assert_eq!(text_at(&buf, entry.pw_passwd), "x");
    assert_eq!(text_at(&buf, entry.pw_gecos), "Alice Smith");
    assert_eq!(text_at(&buf, entry.pw_dir), "/home/alice");
    assert_eq!(text_at(&buf, entry.pw_shell), "/bin/bash");
    assert_eq!((entry.pw_uid, entry.pw_gid), (200_042, 200_001));
    // 6 + 2 + 12 + 12 + 10 bytes, and not one less.
    assert_eq!(&buf[..42], b"alice\0x\0Alice Smith\0/home/alice\0/bin/bash\0");
    assert_eq!(buf[42], 0xff);
    assert!(fill_passwd_buf(&alice(), &mut vec![0u8; 42]).is_some());
    assert!(fill_passwd_buf(&alice(), &mut vec![0u8; 41]).is_none());
}

#[test]
fn group_is_packed_with_room_for_the_pointers() {
    let mut buf = vec![0xffu8; 4096];
    let entry = fill_group_buf(&engineering(), &mut buf, 8, 8).unwrap();
    assert_eq!(text_at(&buf, entry.gr_name), "engineering");
    assert_eq!(text_at(&buf, entry.gr_passwd), "x");
    assert_eq!(entry.gr_gid, 200_010);
    let members: Vec<&str> = entry.members.iter().map(|&at| text_at(&buf, at)).collect();
    assert_eq!(members, vec!["alice", "bob"]);
    // 12 + 2 + 6 + 4 = 24 bytes of text, which is aligned, and three pointers.
    assert_eq!(entry.gr_mem, 24);
    assert!(fill_group_buf(&engineering(), &mut vec![0u8; 48], 8, 8).is_some());
    assert!(fill_group_buf(&engineering(), &mut vec![0u8; 47], 8, 8).is_none());
}

#[test]
fn group_pointers_are_aligned() {
    let mut grp = engineering();
    grp.members = vec!["al".into()];
    let mut buf = vec![0u8; 64];
    // 12 + 2 + 3 = 17 bytes of text.
    assert_eq!(fill_group_buf(&grp, &mut buf, 8, 8).unwrap().gr_mem, 24);
    assert_eq!(fill_group_buf(&grp, &mut buf, 4, 4).unwrap().gr_mem, 20);
    grp.members = vec![];
    let entry = fill_group_buf(&grp, &mut buf, 8, 8).unwrap();
    assert_eq!(entry.gr_mem, 16);
    assert!(entry.members.is_empty());
}

#[test]
fn lookups_are_answered_by_status() {
    let mut buf = vec![0u8; 1024];
    let found = passwd_reply(Ok(Some(alice())), &mut buf);
    assert_eq!((found.status, found.errno), (NssStatus::Success, 0));
    assert_eq!(text_at(&buf, found.entry.unwrap().pw_name), "alice");

    let missing = passwd_reply(Ok(None), &mut buf);
    assert_eq!((missing.status, missing.errno), (NssStatus::NotFound, 0));
    assert!(missing.entry.is_none());

    let failed = passwd_reply(Err(ServiceError::Cache(CacheError::RangeExhausted)), &mut buf);
    assert_eq!((failed.status, failed.errno), (NssStatus::Unavail, 0));

    let small = passwd_reply(Ok(Some(alice())), &mut vec![0u8; 1]);
    assert_eq!((small.status, small.errno), (NssStatus::TryAgain, ERANGE));

    let group = group_reply(Ok(Some(engineering())), &mut buf, 8, 8);
    assert_eq!((group.status, group.errno), (NssStatus::Success, 0));
    let small = group_reply(Ok(Some(engineering())), &mut vec![0u8; 1], 8, 8);
    assert_eq!((small.status, small.errno), (NssStatus::TryAgain, ERANGE));
    let missing = group_reply(Ok(None), &mut buf, 8, 8);
    assert_eq!((missing.status, missing.errno), (NssStatus::NotFound, 0));
    let failed = group_reply(Err(ServiceError::RangeExhausted), &mut buf, 8, 8);
    assert_eq!((failed.status, failed.errno), (NssStatus::Unavail, 0));
}

#[test]
fn status_codes_are_those_of_glibc() {
    assert_eq!(NssStatus::TryAgain.code(), -2);
    assert_eq!(NssStatus::Unavail.code(), -1);
    assert_eq!(NssStatus::NotFound.code(), 0);
    assert_eq!(NssStatus::Success.code(), 1);
    assert_eq!(ERANGE, libc::ERANGE);
}

#[test]
fn supplementary_groups_skip_the_primary_and_duplicates() {
    let mut present = vec![7];
    let reply = merge_groups(&mut present, 10, 1, &vec![1, 5, 7, 5, 6, 1]);
    assert_eq!(reply.status, NssStatus::Success);
    assert_eq!(reply.errno, 0);
    assert_eq!(present, vec![7, 5, 6]);
}

#[test]
fn supplementary_groups_stop_where_the_room_ends() {
    let mut present = vec![7];
    let reply = merge_groups(&mut present, 2, 1, &vec![5, 6]);
    assert_eq!((reply.status, reply.errno), (NssStatus::TryAgain, ERANGE));
    assert_eq!(present, vec![7, 5]);
    // Groups that need no room are no reason to stop.
    let reply = merge_groups(&mut present, 2, 1, &vec![1, 5, 7]);
    assert_eq!(reply.status, NssStatus::Success);
    assert_eq!(present, vec![7, 5]);
}

#[test]
fn users_are_enumerated_in_turn() {
    let mut bob = alice();
    bob.name = "bob".into();
    let mut state = UserEnum::new();
    let mut buf = vec![0u8; 1024];
    assert_eq!(state.get(&mut buf).status, NssStatus::Unavail);
    state.set(vec![alice(), bob]);
    let first = state.get(&mut buf).entry.unwrap();
    assert_eq!(text_at(&buf, first.pw_name), "alice");
    // One that does not fit comes again.
    assert_eq!(state.get(&mut vec![0u8; 3]).status, NssStatus::TryAgain);
    let second = state.get(&mut buf).entry.unwrap();
    assert_eq!(text_at(&buf, second.pw_name), "bob");
    assert_eq!(state.get(&mut buf).status, NssStatus::NotFound);
    assert_eq!(state.get(&mut buf).status, NssStatus::NotFound);
    state.end();
    assert_eq!(state.get(&mut buf).status, NssStatus::Unavail);
}

#[test]
fn groups_are_enumerated_in_turn() {
    let mut state = GroupEnum::new();
    let mut buf = vec![0u8; 1024];
    assert_eq!(state.get(&mut buf, 8, 8).status, NssStatus::Unavail);
    state.set(vec![engineering()]);
    assert_eq!(state.get(&mut vec![0u8; 3], 8, 8).status, NssStatus::TryAgain);
    let first = state.get(&mut buf, 8, 8).entry.unwrap();
    assert_eq!(text_at(&buf, first.gr_name), "engineering");
    assert_eq!(state.get(&mut buf, 8, 8).status, NssStatus::NotFound);
    state.end();
    assert_eq!(state.get(&mut buf, 8, 8).status, NssStatus::Unavail);
}
