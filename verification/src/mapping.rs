//! Deterministic mapping of external identifiers to local UIDs and GIDs.
//!
//! An external identifier is hashed into a configured numeric range; a slot
//! that another identifier holds is passed over by linear probing.
use std::io::Cursor;
use vstd::prelude::*;
use vstd::utf8::encode_utf8;

verus! {

/// The 32-bit murmur3 hash of the UTF-8 bytes of `text` under `seed`.
pub uninterp spec fn murmur3_32_of(text: Seq<char>, seed: u32) -> u32;

/// Whether the UTF-8 bytes of `text` can be counted in 32 bits, as the hash does.
pub open spec fn hashable(text: Seq<char>) -> bool {
    encode_utf8(text).len() < 0x1_0000_0000
}

/// Calls `murmur3::murmur3_32` on the UTF-8 bytes of `text`.
///
/// The result is named, not described: it is a function of the bytes and of
/// the seed alone. Reading from memory cannot fail, so there is always a hash. The
/// bytes are counted in a `u32`, which a text of 4 GiB would make overflow.
#[verifier::external_body]
fn murmur3_32(text: &str, seed: u32) -> (hash: u32)
    requires
        hashable(text@),
    ensures
        hash == murmur3_32_of(text@, seed),
{
    murmur3::murmur3_32(&mut Cursor::new(text.as_bytes()), seed)
        .expect("murmur3 hashing cannot fail on a byte slice")
}

/// Whether `[range_min, range_min + range_size)` is a non-empty range of
/// 32-bit identifiers.
pub open spec fn valid_range(range_min: u32, range_size: u32) -> bool {
    &&& range_size > 0
    &&& range_min + range_size <= 0x1_0000_0000
}

/// The slot an external identifier hashes to.
pub open spec fn home_slot(external_id: Seq<char>, range_min: u32, range_size: u32) -> u32 {
    (range_min + murmur3_32_of(external_id, 0) % range_size) as u32
}

/// The slot that is `offset` steps after the home slot, wrapping around at the
/// end of the range.
pub open spec fn probe_slot(
    external_id: Seq<char>,
    range_min: u32,
    range_size: u32,
    offset: int,
) -> u32 {
    (range_min + (home_slot(external_id, range_min, range_size) - range_min + offset)
        % (range_size as int)) as u32
}

/// Error returned when every slot in the configured ID range is occupied.
#[derive(Debug, Clone, Copy)]
pub struct IdRangeExhausted;

/// Map an external ID (SCIM/OIDC UUID) to a local UID within
/// `[range_min, range_min + range_size)`.
///
/// Uses murmur3 (32-bit, seed 0) for deterministic, cross-platform stability.
/// Every server with the same range config produces the same UID for the same ID.
pub fn id_to_uid(external_id: &str, range_min: u32, range_size: u32) -> (uid: u32)
    requires
        valid_range(range_min, range_size),
        hashable(external_id@),
    ensures
        uid == home_slot(external_id@, range_min, range_size),
        uid == range_min + murmur3_32_of(external_id@, 0) % range_size,
        range_min <= uid < range_min + range_size,
{
    let hash: u32 = murmur3_32(external_id, 0);
    range_min + (hash % range_size)
}

/// Whether `is_taken` may answer that `slot` is not held by the identifier that asks.
pub open spec fn not_ours<E, F: Fn(u32) -> Result<Option<bool>, E>>(is_taken: F, slot: u32) -> bool {
    call_ensures(is_taken, (slot,), Ok(None)) || call_ensures(is_taken, (slot,), Ok(Some(false)))
}

/// Whether `is_taken` never fails in the range, and `slot` is the one slot of it that
/// the identifier that asks already holds.
pub open spec fn holds_slot<E, F: Fn(u32) -> Result<Option<bool>, E>>(
    is_taken: F,
    range_min: u32,
    range_size: u32,
    slot: u32,
) -> bool {
    &&& range_min <= slot < range_min + range_size
    &&& forall|c: u32, answer: Result<Option<bool>, E>|
        range_min <= c < range_min + range_size && #[trigger] call_ensures(is_taken, (c,), answer)
            ==> answer is Ok && (answer == Ok::<Option<bool>, E>(Some(true)) <==> c == slot)
}

/// Resolve an ID for `external_id` with linear probing to handle hash collisions.
///
/// 1. If `external_id` already has an ID in the range, return it (stable mapping).
/// 2. Otherwise compute the murmur3 candidate and probe linearly until an
///    unused slot is found, then return it.
///
/// `is_taken` receives a candidate ID and returns:
/// - `Ok(None)` if the slot is free,
/// - `Ok(Some(true))` if the slot is already held by *this* `external_id`,
/// - `Ok(Some(false))` if the slot is held by a *different* `external_id`.
///
/// The slots are asked in order, starting at the home slot, until one is ours; an
/// error of `is_taken` ends the search. Where none is ours, the first free one is
/// returned.
pub fn resolve_id<E>(
    external_id: &str,
    range_min: u32,
    range_size: u32,
    is_taken: impl Fn(u32) -> Result<Option<bool>, E>,
) -> (res: Result<u32, E>) where E: From<IdRangeExhausted>
    requires
        valid_range(range_min, range_size),
        hashable(external_id@),
        forall|c: u32|
            range_min <= c < range_min + range_size ==> call_requires(is_taken, (c,)),
    ensures
        forall|slot: u32| #[trigger]
            holds_slot(is_taken, range_min, range_size, slot) ==> res == Ok::<u32, E>(slot),
        res matches Ok(id) ==> (exists|n: int|
            0 <= n < range_size && id == #[trigger] probe_slot(
                external_id@,
                range_min,
                range_size,
                n,
            ) && call_ensures(is_taken, (id,), Ok(Some(true))) && forall|j: int|
                0 <= j < n ==> not_ours(
                    is_taken,
                    #[trigger] probe_slot(external_id@, range_min, range_size, j),
                )) || ((forall|j: int|
            0 <= j < range_size ==> not_ours(
                is_taken,
                #[trigger] probe_slot(external_id@, range_min, range_size, j),
            )) && exists|n: int|
            0 <= n < range_size && id == #[trigger] probe_slot(
                external_id@,
                range_min,
                range_size,
                n,
            ) && call_ensures(is_taken, (id,), Ok(None)) && forall|j: int|
                0 <= j < n ==> call_ensures(
                    is_taken,
                    (#[trigger] probe_slot(external_id@, range_min, range_size, j),),
                    Ok(Some(false)),
                )),
        res matches Err(e) ==> (call_ensures(E::from, (IdRangeExhausted,), e) && forall|j: int|
            0 <= j < range_size ==> call_ensures(
                is_taken,
                (#[trigger] probe_slot(external_id@, range_min, range_size, j),),
                Ok(Some(false)),
            )) || exists|n: int|
            0 <= n < range_size && call_ensures(
                is_taken,
                (#[trigger] probe_slot(external_id@, range_min, range_size, n),),
                Err(e),
            ) && forall|j: int|
                0 <= j < n ==> not_ours(
                    is_taken,
                    #[trigger] probe_slot(external_id@, range_min, range_size, j),
                ),
{
    let base: u32 = id_to_uid(external_id, range_min, range_size);
    let mut free: Option<u32> = None;
    let ghost mut free_at: int = 0;
    for offset in 0..range_size
        invariant
            valid_range(range_min, range_size),
            base == home_slot(external_id@, range_min, range_size),
            range_min <= base < range_min + range_size,
            forall|c: u32|
                range_min <= c < range_min + range_size ==> call_requires(is_taken, (c,)),
            forall|j: int|
                0 <= j < offset ==> not_ours(
                    is_taken,
                    #[trigger] probe_slot(external_id@, range_min, range_size, j),
                ),
            free is None ==> forall|j: int|
                0 <= j < offset ==> call_ensures(
                    is_taken,
                    (#[trigger] probe_slot(external_id@, range_min, range_size, j),),
                    Ok(Some(false)),
                ),
            free matches Some(slot) ==> {
                &&& 0 <= free_at < offset
                &&& slot == probe_slot(external_id@, range_min, range_size, free_at)
                &&& call_ensures(is_taken, (slot,), Ok(None))
                &&& forall|j: int|
                    0 <= j < free_at ==> call_ensures(
                        is_taken,
                        (#[trigger] probe_slot(external_id@, range_min, range_size, j),),
                        Ok(Some(false)),
                    )
            },
    {
        let steps: u64 = (base - range_min) as u64 + offset as u64;
        let candidate: u32 = range_min + (steps % range_size as u64) as u32;
        assert(candidate == probe_slot(external_id@, range_min, range_size, offset as int));
        match is_taken(candidate) {
            Err(e) => return Err(e),
            Ok(Some(true)) => return Ok(candidate),
            Ok(Some(false)) => {},
            Ok(None) => {
                if free.is_none() {
                    free = Some(candidate);
                    proof {
                        free_at = offset as int;
                    }
                }
            },
        }
    }
    proof {
        assert forall|slot: u32| #[trigger]
            holds_slot(is_taken, range_min, range_size, slot) implies false by {
            let n = lemma_probe_covers_range(external_id@, range_min, range_size, slot);
            assert(not_ours(is_taken, probe_slot(external_id@, range_min, range_size, n)));
        }
    }
    match free {
        Some(slot) => Ok(slot),
        None => Err(E::from(IdRangeExhausted)),
    }
}

/// Probes linearly for the first slot that is free or already held by `external_id`,
/// for a caller that knows that no later slot is.
///
/// `is_taken` answers as for [`resolve_id`]. The slots are asked in order, starting at
/// the home slot, and an error of `is_taken` ends the search.
pub fn probe_id<E>(
    external_id: &str,
    range_min: u32,
    range_size: u32,
    is_taken: impl Fn(u32) -> Result<Option<bool>, E>,
) -> (res: Result<u32, E>) where E: From<IdRangeExhausted>
    requires
        valid_range(range_min, range_size),
        hashable(external_id@),
        forall|c: u32|
            range_min <= c < range_min + range_size ==> call_requires(is_taken, (c,)),
    ensures
        res matches Ok(id) ==> exists|n: int|
            0 <= n < range_size && id == #[trigger] probe_slot(
                external_id@,
                range_min,
                range_size,
                n,
            ) && (call_ensures(is_taken, (id,), Ok(None)) || call_ensures(
                is_taken,
                (id,),
                Ok(Some(true)),
            )) && forall|j: int|
                0 <= j < n ==> call_ensures(
                    is_taken,
                    (#[trigger] probe_slot(external_id@, range_min, range_size, j),),
                    Ok(Some(false)),
                ),
        res matches Err(e) ==> (call_ensures(E::from, (IdRangeExhausted,), e) && forall|j: int|
            0 <= j < range_size ==> call_ensures(
                is_taken,
                (#[trigger] probe_slot(external_id@, range_min, range_size, j),),
                Ok(Some(false)),
            )) || exists|n: int|
            0 <= n < range_size && call_ensures(
                is_taken,
                (#[trigger] probe_slot(external_id@, range_min, range_size, n),),
                Err(e),
            ) && forall|j: int|
                0 <= j < n ==> call_ensures(
                    is_taken,
                    (#[trigger] probe_slot(external_id@, range_min, range_size, j),),
                    Ok(Some(false)),
                ),
{
    let base: u32 = id_to_uid(external_id, range_min, range_size);
    for offset in 0..range_size
        invariant
            valid_range(range_min, range_size),
            base == home_slot(external_id@, range_min, range_size),
            range_min <= base < range_min + range_size,
            forall|c: u32|
                range_min <= c < range_min + range_size ==> call_requires(is_taken, (c,)),
            forall|j: int|
                0 <= j < offset ==> call_ensures(
                    is_taken,
                    (#[trigger] probe_slot(external_id@, range_min, range_size, j),),
                    Ok(Some(false)),
                ),
    {
        let steps: u64 = (base - range_min) as u64 + offset as u64;
        let candidate: u32 = range_min + (steps % range_size as u64) as u32;
        assert(candidate == probe_slot(external_id@, range_min, range_size, offset as int));
        match is_taken(candidate) {
            Err(e) => return Err(e),
            Ok(None) => return Ok(candidate),
            Ok(Some(true)) => return Ok(candidate),
            Ok(Some(false)) => {},
        }
    }
    Err(E::from(IdRangeExhausted))
}

/// Every slot that is probed lies in the range.
pub proof fn lemma_probe_in_range(
    external_id: Seq<char>,
    range_min: u32,
    range_size: u32,
    offset: int,
)
    requires
        valid_range(range_min, range_size),
    ensures
        range_min <= probe_slot(external_id, range_min, range_size, offset) < range_min
            + range_size,
{
    let hash = murmur3_32_of(external_id, 0) % range_size;
    let steps = home_slot(external_id, range_min, range_size) - range_min + offset;
    assert(0 <= steps % (range_size as int) < range_size);
}

/// Probing as often as the range has slots visits every one of them: when all
/// are asked in vain, the range has no free slot.
pub proof fn lemma_probe_covers_range(
    external_id: Seq<char>,
    range_min: u32,
    range_size: u32,
    slot: u32,
) -> (offset: int)
    requires
        valid_range(range_min, range_size),
        range_min <= slot < range_min + range_size,
    ensures
        0 <= offset < range_size,
        slot == probe_slot(external_id, range_min, range_size, offset),
{
    let base = home_slot(external_id, range_min, range_size) - range_min;
    let hash = murmur3_32_of(external_id, 0) % range_size;
    assert(0 <= hash < range_size);
    assert(base == hash);
    let want = slot - range_min;
    let size = range_size as int;
    if want >= base {
        let offset = want - base;
        vstd::arithmetic::div_mod::lemma_small_mod(want as nat, size as nat);
        offset
    } else {
        let offset = want - base + size;
        assert(base + offset == want + size);
        vstd::arithmetic::div_mod::lemma_mod_add_multiples_vanish(want, size);
        vstd::arithmetic::div_mod::lemma_small_mod(want as nat, size as nat);
        offset
    }
}

/// Probing starts at the slot that the hash gives, and each step goes to the next slot,
/// from the last one of the range to the first.
pub proof fn lemma_probe_steps(external_id: Seq<char>, range_min: u32, range_size: u32, n: int)
    requires
        range_size > 0,
        range_min + range_size <= 0x1_0000_0000,
        0 <= n,
    ensures
        probe_slot(external_id, range_min, range_size, 0) == range_min + murmur3_32_of(
            external_id,
            0,
        ) % range_size,
        probe_slot(external_id, range_min, range_size, n + 1) == if probe_slot(
            external_id,
            range_min,
            range_size,
            n,
        ) + 1 == range_min + range_size {
            range_min as int
        } else {
            probe_slot(external_id, range_min, range_size, n) + 1
        },
{
    let hash = murmur3_32_of(external_id, 0) % range_size;
    let size = range_size as int;
    assert(0 <= hash < range_size);
    let base = home_slot(external_id, range_min, range_size) - range_min;
    assert(base == hash);
    vstd::arithmetic::div_mod::lemma_small_mod(hash as nat, range_size as nat);
    let at = base + n;
    let q = at / size;
    let r = at % size;
    vstd::arithmetic::div_mod::lemma_fundamental_div_mod(at, size);
    assert(0 <= r < size);
    if r + 1 < size {
        vstd::arithmetic::div_mod::lemma_fundamental_div_mod_converse(at + 1, size, q, r + 1);
    } else {
        assert(at + 1 == (q + 1) * size) by (nonlinear_arith)
            requires
                at == size * q + r,
                r + 1 == size,
        ;
        vstd::arithmetic::div_mod::lemma_fundamental_div_mod_converse(at + 1, size, q + 1, 0);
    }
}

/// A range is valid exactly if it is not empty and all its identifiers fit in 32 bits,
/// and a text can be hashed exactly if its bytes can be counted in 32 bits.
pub proof fn lemma_valid_inputs(range_min: u32, range_size: u32, text: Seq<char>)
    ensures
        valid_range(range_min, range_size) <==> 0 < range_size && range_min + range_size - 1
            <= u32::MAX,
        hashable(text) <==> encode_utf8(text).len() <= u32::MAX,
{
}

/// A slot is not ours exactly if it may be free or another identifier's; and it is the one
/// that is held exactly if it lies in the range and no answer there is a failure or says
/// otherwise.
pub proof fn lemma_slots<E, F: Fn(u32) -> Result<Option<bool>, E>>(
    is_taken: F,
    range_min: u32,
    range_size: u32,
    slot: u32,
)
    ensures
        not_ours(is_taken, slot) <==> call_ensures(is_taken, (slot,), Ok(None)) || call_ensures(
            is_taken,
            (slot,),
            Ok(Some(false)),
        ),
        holds_slot(is_taken, range_min, range_size, slot) <==> range_min <= slot < range_min
            + range_size && forall|c: u32, answer: Result<Option<bool>, E>|
            range_min <= c < range_min + range_size && #[trigger] call_ensures(
                is_taken,
                (c,),
                answer,
            ) ==> answer is Ok && (answer == Ok::<Option<bool>, E>(Some(true)) <==> c == slot),
{
}

} // verus!
