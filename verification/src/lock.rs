//! A model of the broker's atomic expiring keys (`SET key value NX EX
//! ttl`), and what the matching protocol relies on of them: mutual
//! exclusion inside the lock window, and release after the time to live.

use vstd::prelude::*;

verus! {

/// One granted lock: who holds it and until when.
pub struct LockGrant {
    pub holder: Seq<char>,
    pub expires_at: int,
}

/// The broker's table of expiring keys.
pub struct LockTable {
    pub grants: Map<Seq<char>, LockGrant>,
}

/// Whether `key` is held at time `now`.
pub open spec fn locked(t: LockTable, key: Seq<char>, now: int) -> bool {
    t.grants.contains_key(key) && now < t.grants[key].expires_at
}

/// The atomic create-only set with expiry: acquires exactly when the key
/// is free or expired.
pub open spec fn set_nx(t: LockTable, key: Seq<char>, holder: Seq<char>, now: int, ttl: int) -> (
    LockTable,
    bool,
) {
    if locked(t, key, now) {
        (t, false)
    } else {
        (
            LockTable {
                grants: t.grants.insert(key, LockGrant { holder, expires_at: now + ttl }),
            },
            true,
        )
    }
}

/// Mutual exclusion: after one OUT acquires the lock, no other attempt on
/// the same key succeeds while the time to live lasts.
pub proof fn lemma_lock_mutual_exclusion(
    t: LockTable,
    key: Seq<char>,
    h1: Seq<char>,
    h2: Seq<char>,
    now1: int,
    now2: int,
    ttl: int,
)
    requires
        set_nx(t, key, h1, now1, ttl).1,
        now1 <= now2 < now1 + ttl,
    ensures
        !set_nx(set_nx(t, key, h1, now1, ttl).0, key, h2, now2, ttl).1,
{
}

/// A race between two OUTs at the same moment: the first acquires, the
/// second does not.
pub proof fn lemma_lock_race(t: LockTable, key: Seq<char>, h1: Seq<char>, h2: Seq<char>, now: int, ttl: int)
    requires
        !locked(t, key, now),
        ttl >= 1,
    ensures
        set_nx(t, key, h1, now, ttl).1,
        !set_nx(set_nx(t, key, h1, now, ttl).0, key, h2, now, ttl).1,
{
}

/// Lock release: whatever happened to the winner, once the time to live
/// has passed another OUT's attempt succeeds.
pub proof fn lemma_lock_release(
    t: LockTable,
    key: Seq<char>,
    h1: Seq<char>,
    h2: Seq<char>,
    now1: int,
    now2: int,
    ttl: int,
)
    requires
        set_nx(t, key, h1, now1, ttl).1,
        now2 >= now1 + ttl,
    ensures
        set_nx(set_nx(t, key, h1, now1, ttl).0, key, h2, now2, ttl).1,
{
}

} // verus!
