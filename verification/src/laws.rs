use vstd::prelude::*;

use crate::allocator::MAX_ATTEMPTS;
use crate::allocator::alloc_code;
use crate::allocator::alloc_db;
use crate::allocator::lemma_fresh_insert_keeps_urls_unique;
use crate::allocator::lemma_settle_from;
use crate::allocator::resolve_db;
use crate::allocator::settle_from;
use crate::hashing::candidate;
use crate::hashing::code_of;
use crate::store::RowModel;
use crate::store::bumped;
use crate::store::has_url;
use crate::store::url_code;
use crate::store::urls_unique;

verus! {

/// Idempotency: once an allocation for `u` has returned a code, a second
/// allocation for `u` returns the same code and leaves the store exactly as
/// it found it — at most one record ever exists per URL.
pub proof fn lemma_allocate_idempotent(db: Map<Seq<char>, RowModel>, u: Seq<char>, len: int)
    requires
        urls_unique(db),
        alloc_code(db, u, len) is Some,
    ensures
        ({
            let db1 = alloc_db(db, u, len);
            &&& urls_unique(db1)
            &&& alloc_code(db1, u, len) == alloc_code(db, u, len)
            &&& alloc_db(db1, u, len) == db1
            &&& db.dom().finite() && !has_url(db, u) ==> db1.dom().finite() && db1.dom().len()
                == db.dom().len() + 1
            &&& has_url(db, u) ==> db1 == db
        }),
{
    let db1 = alloc_db(db, u, len);
    if has_url(db, u) {
        assert(db1 == db);
    } else {
        lemma_settle_from(db, u, len, 0);
        let k = settle_from(db, u, len, 0);
        assert forall|c: Seq<char>| #[trigger] db.contains_key(c) implies db[c].url != u by {
            assert(db.contains_key(c) && db[c].url == u ==> has_url(db, u));
        }
        assert(k < MAX_ATTEMPTS);
        let cand = candidate(u, len, k);
        assert(!db.contains_key(cand));
        lemma_fresh_insert_keeps_urls_unique(db, cand, u);
        assert(db1 == db.insert(cand, (RowModel { url: u, clicks: 0 })));
        assert(db1.contains_key(cand) && db1[cand].url == u);
        assert(has_url(db1, u));
        let c1 = url_code(db1, u);
        assert(db1.contains_key(c1) && db1[c1].url == u);
        assert(c1 == cand);
        if db.dom().finite() {
            assert(db1.dom() =~= db.dom().insert(cand));
        }
    }
}

/// Determinism of the first attempt: against an empty store, allocation
/// yields exactly the truncated lowercase hex SHA-256 digest of the URL.
pub proof fn lemma_first_attempt_deterministic(u: Seq<char>, len: int)
    ensures
        alloc_code(Map::<Seq<char>, RowModel>::empty(), u, len) == Option::Some(
            candidate(u, len, 0),
        ),
        candidate(u, len, 0) == code_of(u, len),
{
    let db = Map::<Seq<char>, RowModel>::empty();
    assert(!has_url(db, u)) by {
        if has_url(db, u) {
            let c = choose|c: Seq<char>| #[trigger] db.contains_key(c) && db[c].url == u;
        }
    }
    assert(!db.contains_key(candidate(u, len, 0)));
    assert(settle_from(db, u, len, 0) == 0);
}

/// Collision escape: when the first candidate is occupied by a different
/// URL and the next salted candidate is free, allocation succeeds with that
/// next candidate and writes exactly one fresh row under it.
pub proof fn lemma_collision_escape(db: Map<Seq<char>, RowModel>, u: Seq<char>, len: int)
    requires
        urls_unique(db),
        !has_url(db, u),
        db.contains_key(candidate(u, len, 0)),
        !db.contains_key(candidate(u, len, 1)),
    ensures
        alloc_code(db, u, len) == Option::Some(candidate(u, len, 1)),
        alloc_db(db, u, len) == db.insert(candidate(u, len, 1), (RowModel { url: u, clicks: 0 })),
{
    assert(db[candidate(u, len, 0)].url != u) by {
        assert(db.contains_key(candidate(u, len, 0)) && db[candidate(u, len, 0)].url == u
            ==> has_url(db, u));
    }
    assert(settle_from(db, u, len, 1) == 1);
    assert(settle_from(db, u, len, 0) == 1);
}

/// The same-URL race, seen from the loser: once the winner's row for `u`
/// sits under the deterministic first candidate, any further allocation of
/// `u` — through the fast existence check or through the conflict
/// read-back, which settles at attempt zero — returns that same code and
/// writes nothing, so concurrent allocations of one URL converge on one row.
pub proof fn lemma_same_url_race_converges(db: Map<Seq<char>, RowModel>, u: Seq<char>, len: int)
    requires
        urls_unique(db),
        db.contains_key(candidate(u, len, 0)),
        db[candidate(u, len, 0)].url == u,
    ensures
        alloc_code(db, u, len) == Option::Some(candidate(u, len, 0)),
        alloc_db(db, u, len) == db,
        settle_from(db, u, len, 0) == 0,
{
    assert(has_url(db, u));
    let c = url_code(db, u);
    assert(db.contains_key(c) && db[c].url == u);
    assert(c == candidate(u, len, 0));
}

/// Exhaustion: when every candidate below the attempt bound is occupied by
/// other URLs, allocation reports failure and the store is untouched; no
/// candidate beyond the bound is ever derived.
pub proof fn lemma_exhaustion(db: Map<Seq<char>, RowModel>, u: Seq<char>, len: int)
    requires
        !has_url(db, u),
        forall|k: int|
            0 <= k < MAX_ATTEMPTS ==> db.contains_key(#[trigger] candidate(u, len, k)),
    ensures
        alloc_code(db, u, len) is None,
        alloc_db(db, u, len) == db,
{
    lemma_settle_from(db, u, len, 0);
    let s = settle_from(db, u, len, 0);
    if s < MAX_ATTEMPTS {
        assert(db.contains_key(candidate(u, len, s)));
        assert(db[candidate(u, len, s)].url != u) by {
            assert(db.contains_key(candidate(u, len, s)) && db[candidate(u, len, s)].url == u
                ==> has_url(db, u));
        }
        assert(false);
    }
}

/// Resolution only raises click counters: a resolution never removes or
/// adds a row, never lowers any counter, and raises the resolved row's
/// counter by exactly one whenever the counter has room (only at the very
/// top of its range does it stay put instead of overflowing). Across any
/// sequence of resolutions the counters are therefore non-decreasing.
pub proof fn lemma_resolution_monotonic(db: Map<Seq<char>, RowModel>, code: Seq<char>)
    ensures
        forall|c: Seq<char>|
            #[trigger] resolve_db(db, code).contains_key(c) <==> db.contains_key(c),
        forall|c: Seq<char>|
            #[trigger] db.contains_key(c) ==> resolve_db(db, code)[c].clicks >= db[c].clicks
                && resolve_db(db, code)[c].url == db[c].url,
        db.contains_key(code) ==> resolve_db(db, code)[code].clicks == bumped(db[code].clicks),
        db.contains_key(code) && db[code].clicks < i64::MAX ==> resolve_db(db, code)[code].clicks
            == db[code].clicks + 1,
{
    if db.contains_key(code) {
        assert(bumped(db[code].clicks) >= db[code].clicks);
    }
}

/// Domain rejection, in general: a valid host always holds a dot, and is at
/// least four characters long (a label, the dot, and a final label of two
/// or more letters) — so hosts without a dotted alphabetic label, such as
/// bare names, can never pass.
pub proof fn lemma_valid_domain_shape(h: Seq<char>)
    requires
        crate::validate_url::valid_domain(h),
    ensures
        exists|i: int| 0 <= i < h.len() && #[trigger] h[i] == '.',
        h.len() >= 4,
{
    let i = choose|i: int|
        1 <= i && i + 3 <= h.len() && #[trigger] h[i] == '.' && crate::validate_url::all_domain_chars(
            h.take(i),
        ) && crate::validate_url::all_alpha(h.skip(i + 1));
    assert(0 <= i < h.len() && h[i] == '.');
}

} // verus!
