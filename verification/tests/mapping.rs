use sssd_oidc::mapping::{id_to_uid, probe_id, resolve_id, IdRangeExhausted};
use std::collections::HashMap;

#[test]
fn deterministic_mapping() {
    let uid1 = id_to_uid("00u1a2b3c4d5e6f7g8h9", 200_000, 200_000);
    let uid2 = id_to_uid("00u1a2b3c4d5e6f7g8h9", 200_000, 200_000);
    assert_eq!(uid1, uid2);
}

#[test]
fn within_range() {
    let uid = id_to_uid("some-uuid-value", 200_000, 200_000);
    assert!(uid >= 200_000);
    assert!(uid < 400_000);
}

#[test]
fn different_ids_differ() {
    let uid_a = id_to_uid("user-a-uuid", 200_000, 200_000);
    let uid_b = id_to_uid("user-b-uuid", 200_000, 200_000);
    // Not guaranteed in general, but extremely likely for these specific inputs.
    assert_ne!(uid_a, uid_b);
}

#[test]
fn resolve_id_probes_on_collision() {
    // Simulate a taken-slot table: uid → external_id
    let mut taken: HashMap<u32, String> = HashMap::new();

    // First user gets the natural hash slot
    let uid_a: Result<u32, IdRangeExhausted> = resolve_id(
        "user-a",
        100,
        10,
        |candidate| -> Result<_, IdRangeExhausted> {
            match taken.get(&candidate) {
                None => Ok(None),
                Some(eid) => Ok(Some(eid == "user-a")),
            }
        },
    );
    let uid_a = uid_a.unwrap();
    taken.insert(uid_a, "user-a".into());

    // Force a collision by pre-occupying user-b's natural slot
    let natural_b = id_to_uid("user-b", 100, 10);
    taken.entry(natural_b).or_insert_with(|| "blocker".into());

    let uid_b: Result<u32, IdRangeExhausted> = resolve_id(
        "user-b",
        100,
        10,
        |candidate| -> Result<_, IdRangeExhausted> {
            match taken.get(&candidate) {
                None => Ok(None),
                Some(eid) => Ok(Some(eid == "user-b")),
            }
        },
    );
    let uid_b = uid_b.unwrap();
    assert_ne!(uid_b, natural_b);
    assert!((100..110).contains(&uid_b));
}

#[test]
fn resolve_id_returns_range_exhausted() {
    // Every slot is taken by a different external_id
    let result: Result<u32, IdRangeExhausted> = resolve_id(
        "new-user",
        100,
        3,
        |_candidate| -> Result<_, IdRangeExhausted> {
            Ok(Some(false)) // always taken by someone else
        },
    );
    assert!(result.is_err());
}

#[test]
fn an_id_that_is_held_is_kept() {
    // The slot before the one that is held has become free.
    let home = id_to_uid("user-a", 100, 10);
    let held = 100 + (home - 100 + 3) % 10;
    let answer = |slot: u32| -> Result<Option<bool>, IdRangeExhausted> {
        Ok(if slot == held { Some(true) } else { None })
    };
    assert_eq!(resolve_id("user-a", 100, 10, answer).unwrap(), held);
    assert_eq!(probe_id("user-a", 100, 10, answer).unwrap(), home);
    // Where nothing is held, the first free slot is taken.
    let second = 100 + (home - 100 + 1) % 10;
    let answer = |slot: u32| -> Result<Option<bool>, IdRangeExhausted> {
        Ok(if slot == home { Some(false) } else { None })
    };
    assert_eq!(resolve_id("user-a", 100, 10, answer).unwrap(), second);
    assert_eq!(probe_id("user-a", 100, 10, answer).unwrap(), second);
    let fails = |_: u32| -> Result<Option<bool>, IdRangeExhausted> { Err(IdRangeExhausted) };
    assert!(resolve_id("user-a", 100, 10, fails).is_err());
}
