use vstd::prelude::*;

use crate::errors::AppError;
use crate::hashing::candidate;
use crate::hashing::candidate_code;
use crate::hashing::code_len;
use crate::store::RowModel;
use crate::store::Store;
use crate::store::UrlRecord;
use crate::store::bumped;
use crate::store::has_url;
use crate::store::row_of;
use crate::store::url_code;
use crate::store::urls_unique;
use crate::text::str_eq;

verus! {

/// Bound on the collision-resolution loop: candidates are derived for
/// attempts 0 through 9 and never an eleventh time.
pub const MAX_ATTEMPTS: usize = 10;

/// The first attempt index at or after `k` whose candidate code is either
/// free or already mapped to `u` itself; `MAX_ATTEMPTS` when no attempt
/// below the bound settles.
pub open spec fn settle_from(db: Map<Seq<char>, RowModel>, u: Seq<char>, len: int, k: int) -> int
    decreases MAX_ATTEMPTS - k,
{
    if k >= MAX_ATTEMPTS {
        MAX_ATTEMPTS as int
    } else if !db.contains_key(candidate(u, len, k)) || db[candidate(u, len, k)].url == u {
        k
    } else {
        settle_from(db, u, len, k + 1)
    }
}

/// What the settling index means: every attempt below it is taken by some
/// other URL, and the attempt at it (when below the bound) is free or taken
/// by `u` itself.
pub proof fn lemma_settle_from(db: Map<Seq<char>, RowModel>, u: Seq<char>, len: int, k: int)
    requires
        0 <= k <= MAX_ATTEMPTS,
    ensures
        k <= settle_from(db, u, len, k) <= MAX_ATTEMPTS,
        settle_from(db, u, len, k) < MAX_ATTEMPTS ==> (!db.contains_key(
            candidate(u, len, settle_from(db, u, len, k)),
        ) || db[candidate(u, len, settle_from(db, u, len, k))].url == u),
        forall|j: int|
            k <= j < settle_from(db, u, len, k) ==> db.contains_key(#[trigger] candidate(u, len, j))
                && db[candidate(u, len, j)].url != u,
    decreases MAX_ATTEMPTS - k,
{
    if k < MAX_ATTEMPTS {
        if db.contains_key(candidate(u, len, k)) && db[candidate(u, len, k)].url != u {
            lemma_settle_from(db, u, len, k + 1);
        }
    }
}

/// The short code an allocation against contents `db` returns for `u`, or
/// none when every candidate below the bound is taken by other URLs.
pub open spec fn alloc_code(db: Map<Seq<char>, RowModel>, u: Seq<char>, len: int) -> Option<
    Seq<char>,
> {
    if has_url(db, u) {
        Option::Some(url_code(db, u))
    } else {
        let k = settle_from(db, u, len, 0);
        if k < MAX_ATTEMPTS {
            Option::Some(candidate(u, len, k))
        } else {
            Option::None
        }
    }
}

/// The store contents an allocation against `db` leaves behind: unchanged,
/// except that a first successful allocation adds one zero-count row.
pub open spec fn alloc_db(db: Map<Seq<char>, RowModel>, u: Seq<char>, len: int) -> Map<
    Seq<char>,
    RowModel,
> {
    if has_url(db, u) {
        db
    } else {
        let k = settle_from(db, u, len, 0);
        if k < MAX_ATTEMPTS {
            db.insert(candidate(u, len, k), RowModel { url: u, clicks: 0 })
        } else {
            db
        }
    }
}

/// The store contents after one resolution of `code`: the row's counter
/// raised, or nothing when the code is unknown.
pub open spec fn resolve_db(db: Map<Seq<char>, RowModel>, code: Seq<char>) -> Map<
    Seq<char>,
    RowModel,
> {
    if db.contains_key(code) {
        db.insert(code, RowModel { url: db[code].url, clicks: bumped(db[code].clicks) })
    } else {
        db
    }
}

/// Inserting a fresh code for a URL the store does not hold yet keeps URLs
/// unique.
pub proof fn lemma_fresh_insert_keeps_urls_unique(
    db: Map<Seq<char>, RowModel>,
    c: Seq<char>,
    u: Seq<char>,
)
    requires
        urls_unique(db),
        !has_url(db, u),
        !db.contains_key(c),
    ensures
        urls_unique(db.insert(c, (RowModel { url: u, clicks: 0 }))),
{
    let db1 = db.insert(c, (RowModel { url: u, clicks: 0 }));
    assert forall|c1: Seq<char>, c2: Seq<char>|
        #[trigger] db1.contains_key(c1) && #[trigger] db1.contains_key(c2) && db1[c1].url
            == db1[c2].url implies c1 == c2 by {
        if c1 != c && c2 != c {
            assert(db.contains_key(c1) && db.contains_key(c2));
        } else if c1 == c && c2 != c {
            assert(db.contains_key(c2) && db[c2].url == u ==> has_url(db, u));
        } else if c1 != c && c2 == c {
            assert(db.contains_key(c1) && db[c1].url == u ==> has_url(db, u));
        }
    }
}

/// What to do after a conditional insert lost against the unique-code
/// constraint, given the URL now stored under the contested code.
#[derive(Clone, Copy, PartialEq, Eq, Structural, Debug)]
pub enum CollisionDecision {
    /// The occupant maps our own URL: a concurrent allocation of the same
    /// URL won the race, and its row is adopted as the result.
    AdoptExisting,
    /// A genuine collision between different URLs: move to the next salted
    /// candidate.
    TryNext,
    /// The attempt bound is spent; the allocation fails as a server fault.
    GiveUp,
}

/// The collision-escape decision, taken in isolation so that any driver of
/// the loop — including one interleaved with concurrent allocators — makes
/// it the same way. `occupant_url` is the URL read back from under the
/// contested code (absent if the row vanished in between).
pub fn after_conflict(original_url: &str, occupant_url: Option<&String>, attempt: usize) -> (r:
    CollisionDecision)
    requires
        attempt < MAX_ATTEMPTS,
    ensures
        (occupant_url matches Some(s) && s@ == original_url@) ==> r is AdoptExisting,
        (occupant_url matches Some(s) ==> s@ != original_url@) ==> r == (if attempt + 1
            < MAX_ATTEMPTS {
            CollisionDecision::TryNext
        } else {
            CollisionDecision::GiveUp
        }),
{
    match occupant_url {
        Some(stored) => {
            if str_eq(stored.as_str(), original_url) {
                return CollisionDecision::AdoptExisting;
            }
        },
        None => {},
    }
    if attempt + 1 < MAX_ATTEMPTS {
        CollisionDecision::TryNext
    } else {
        CollisionDecision::GiveUp
    }
}

/// Derives candidate codes for `original_url` and inserts the first one the
/// store accepts, escaping genuine collisions deterministically and adopting
/// the existing row when the occupant maps the same URL; fails as a server
/// fault once all `MAX_ATTEMPTS` candidates are spent.
pub fn create_url_with_collision_handling<S: Store>(
    store: &mut S,
    original_url: &str,
    hash_length: usize,
) -> (r: Result<UrlRecord, AppError>)
    requires
        old(store).wf(),
    ensures
        final(store).wf(),
        r matches Ok(rec) ==> rec.short_code@.len() == code_len(hash_length as int),
        ({
            let db0 = old(store).db();
            let u = original_url@;
            let len = hash_length as int;
            let k = settle_from(db0, u, len, 0);
            &&& (k == MAX_ATTEMPTS ==> (r matches Err(e) && e is Internal) && final(store).db()
                == db0)
            &&& (k < MAX_ATTEMPTS && db0.contains_key(candidate(u, len, k)) ==> (
            r matches Ok(rec) && rec.short_code@ == candidate(u, len, k) && row_of(rec)
                == db0[candidate(u, len, k)]) && final(store).db() == db0)
            &&& (k < MAX_ATTEMPTS && !db0.contains_key(candidate(u, len, k)) ==> (
            r matches Ok(rec) && rec.short_code@ == candidate(u, len, k) && rec.original_url@ == u
                && rec.click_count == 0) && final(store).db() == db0.insert(
                candidate(u, len, k),
                (RowModel { url: u, clicks: 0 }),
            ))
        }),
{
    let ghost db0 = old(store).db();
    let ghost u = original_url@;
    let ghost len = hash_length as int;
    let mut k: usize = 0;
    while k < MAX_ATTEMPTS
        invariant
            store.wf(),
            db0 == old(store).db(),
            store.db() == db0,
            k < MAX_ATTEMPTS,
            settle_from(db0, u, len, 0) == settle_from(db0, u, len, k as int),
            u == original_url@,
            len == hash_length as int,
        decreases MAX_ATTEMPTS - k,
    {
        let code = candidate_code(original_url, hash_length, k);
        match store.insert_if_absent(code.as_str(), original_url) {
            Some(rec) => {
                proof {
                    assert(settle_from(db0, u, len, k as int) == k as int);
                }
                return Ok(rec);
            },
            None => {
                let found = store.find_by_short_code(code.as_str());
                match found {
                    Some(rec2) => {
                        match after_conflict(original_url, Some(&rec2.original_url), k) {
                            CollisionDecision::AdoptExisting => {
                                proof {
                                    assert(db0[candidate(u, len, k as int)].url == u);
                                    assert(settle_from(db0, u, len, k as int) == k as int);
                                }
                                return Ok(rec2);
                            },
                            CollisionDecision::TryNext => {
                                proof {
                                    assert(db0[candidate(u, len, k as int)].url != u);
                                    assert(settle_from(db0, u, len, k as int) == settle_from(
                                        db0,
                                        u,
                                        len,
                                        k as int + 1,
                                    ));
                                }
                            },
                            CollisionDecision::GiveUp => {
                                proof {
                                    assert(db0[candidate(u, len, k as int)].url != u);
                                    assert(settle_from(db0, u, len, k as int) == settle_from(
                                        db0,
                                        u,
                                        len,
                                        k as int + 1,
                                    ));
                                    assert(settle_from(db0, u, len, k as int + 1)
                                        == MAX_ATTEMPTS as int);
                                }
                                return Err(AppError::Internal);
                            },
                        }
                    },
                    None => {
                        // The conditional insert just failed on this code, so a
                        // store meeting its contract cannot miss it here.
                        proof {
                            assert(false);
                        }
                        return Err(AppError::Internal);
                    },
                }
            },
        }
        k = k + 1;
    }
    // Every iteration either returns or moves to an attempt still below the
    // bound, so the loop condition never turns false.
    proof {
        assert(false);
    }
    Err(AppError::Internal)
}

/// One allocation, as the request path runs it: return the existing mapping
/// for an already-known URL untouched (the idempotent fast path), otherwise
/// derive and persist a fresh one through the collision loop.
pub fn allocate<S: Store>(store: &mut S, normalized_url: &str, hash_length: usize) -> (r: Result<
    UrlRecord,
    AppError,
>)
    requires
        old(store).wf(),
        urls_unique(old(store).db()),
    ensures
        final(store).wf(),
        urls_unique(final(store).db()),
        final(store).db() == alloc_db(old(store).db(), normalized_url@, hash_length as int),
        r is Ok <==> alloc_code(old(store).db(), normalized_url@, hash_length as int) is Some,
        r matches Ok(rec) ==> alloc_code(old(store).db(), normalized_url@, hash_length as int)
            == Option::Some(rec.short_code@) && rec.original_url@ == normalized_url@
            && final(store).db().contains_key(rec.short_code@)
            && final(store).db()[rec.short_code@] == row_of(rec),
        r matches Ok(rec) ==> (!has_url(old(store).db(), normalized_url@)
            ==> rec.short_code@.len() == code_len(hash_length as int)),
        r matches Err(e) ==> e is Internal,
{
    let ghost db0 = old(store).db();
    let ghost u = normalized_url@;
    let ghost len = hash_length as int;
    match store.find_by_original_url(normalized_url) {
        Some(rec) => {
            proof {
                assert(db0.contains_key(rec.short_code@) && db0[rec.short_code@].url == u);
                let c0 = url_code(db0, u);
                assert(db0.contains_key(c0) && db0[c0].url == u);
                assert(c0 == rec.short_code@);
            }
            Ok(rec)
        },
        None => {
            proof {
                assert(!has_url(db0, u));
                assert forall|c: Seq<char>| #[trigger] db0.contains_key(c) implies db0[c].url
                    != u by {
                    assert(db0.contains_key(c) && db0[c].url == u ==> has_url(db0, u));
                }
            }
            let out = create_url_with_collision_handling(store, normalized_url, hash_length);
            proof {
                lemma_settle_from(db0, u, len, 0);
                let k = settle_from(db0, u, len, 0);
                if k < MAX_ATTEMPTS as int {
                    assert(!db0.contains_key(candidate(u, len, k)));
                    lemma_fresh_insert_keeps_urls_unique(db0, candidate(u, len, k), u);
                }
            }
            out
        },
    }
}

/// The redirect read path: look the code up, count the click, hand the URL
/// back. The increment is taken from the store atomically, so concurrent
/// resolutions each count at least once and the counter never decreases.
pub fn resolve_url<S: Store>(store: &mut S, short_code: &str) -> (r: Result<String, AppError>)
    requires
        old(store).wf(),
    ensures
        final(store).wf(),
        final(store).db() == resolve_db(old(store).db(), short_code@),
        old(store).db().contains_key(short_code@) ==> (r matches Ok(url) && url@
            == old(store).db()[short_code@].url),
        !old(store).db().contains_key(short_code@) ==> (r matches Err(e) && e is NotFound),
{
    match store.find_by_short_code(short_code) {
        Some(rec) => {
            store.increment_click_count(short_code);
            Ok(rec.original_url)
        },
        None => Err(AppError::NotFound),
    }
}

} // verus!
