use vstd::prelude::*;

verus! {

/// The sole persistent entity: a short code, the normalized URL it stands
/// for, and a click counter that never decreases.
#[derive(Debug)]
pub struct UrlRecord {
    pub short_code: String,
    pub original_url: String,
    pub click_count: i64,
}

impl UrlRecord {
    /// A field-for-field copy with a known meaning (a derived clone would
    /// say nothing about the result).
    pub fn duplicate(&self) -> (r: UrlRecord)
        ensures
            r.short_code@ == self.short_code@,
            r.original_url@ == self.original_url@,
            r.click_count == self.click_count,
    {
        UrlRecord {
            short_code: self.short_code.clone(),
            original_url: self.original_url.clone(),
            click_count: self.click_count,
        }
    }
}

/// The ghost content of one store row; rows are keyed by short code.
pub struct RowModel {
    pub url: Seq<char>,
    pub clicks: int,
}

/// The row a record stands for.
pub open spec fn row_of(r: UrlRecord) -> RowModel {
    RowModel { url: r.original_url@, clicks: r.click_count as int }
}

/// Whether some row of `db` maps to the URL `u`.
pub open spec fn has_url(db: Map<Seq<char>, RowModel>, u: Seq<char>) -> bool {
    exists|c: Seq<char>| #[trigger] db.contains_key(c) && db[c].url == u
}

/// The short code of a row mapping to `u` (the code, when URLs are unique).
pub open spec fn url_code(db: Map<Seq<char>, RowModel>, u: Seq<char>) -> Seq<char> {
    choose|c: Seq<char>| #[trigger] db.contains_key(c) && db[c].url == u
}

/// At most one row per distinct URL. The store enforces code uniqueness by
/// construction of the map; URL uniqueness is what the allocator maintains.
pub open spec fn urls_unique(db: Map<Seq<char>, RowModel>) -> bool {
    forall|c1: Seq<char>, c2: Seq<char>|
        #[trigger] db.contains_key(c1) && #[trigger] db.contains_key(c2) && db[c1].url
            == db[c2].url ==> c1 == c2
}

/// A click counter after one more resolution: one higher, except at the
/// top of the counter's range, where it stays put rather than overflow.
pub open spec fn bumped(n: int) -> int {
    if n < i64::MAX {
        n + 1
    } else {
        n
    }
}

/// The store interface the allocator runs against: lookups by code and by
/// URL, an atomic insert-if-absent against the unique-code constraint (the
/// only synchronization primitive of the system), and the click increment.
pub trait Store {
    /// The store contents, as a map from short code to row.
    spec fn db(&self) -> Map<Seq<char>, RowModel>;

    /// Well-formedness of the store value itself.
    spec fn wf(&self) -> bool;

    /// Looks a row up by its short code.
    fn find_by_short_code(&self, short_code: &str) -> (r: Option<UrlRecord>)
        requires
            self.wf(),
        ensures
            r is Some <==> self.db().contains_key(short_code@),
            r matches Some(rec) ==> rec.short_code@ == short_code@ && self.db()[short_code@]
                == row_of(rec),
    ;

    /// Looks some row up by the URL it maps to.
    fn find_by_original_url(&self, original_url: &str) -> (r: Option<UrlRecord>)
        requires
            self.wf(),
        ensures
            r is Some <==> has_url(self.db(), original_url@),
            r matches Some(rec) ==> rec.original_url@ == original_url@ && self.db().contains_key(
                rec.short_code@,
            ) && self.db()[rec.short_code@] == row_of(rec),
    ;

    /// Inserts a fresh row with a zero counter, unless the code is already
    /// taken, in which case nothing changes and no row is returned. This
    /// check-and-insert is atomic with respect to the code constraint.
    fn insert_if_absent(&mut self, short_code: &str, original_url: &str) -> (r: Option<UrlRecord>)
        requires
            old(self).wf(),
        ensures
            final(self).wf(),
            old(self).db().contains_key(short_code@) ==> r is None && final(self).db() == old(
                self,
            ).db(),
            !old(self).db().contains_key(short_code@) ==> final(self).db() == old(self).db().insert(
                short_code@,
                (RowModel { url: original_url@, clicks: 0 }),
            ) && (r matches Some(rec) && rec.short_code@ == short_code@ && rec.original_url@
                == original_url@ && rec.click_count == 0),
    ;

    /// Raises the click counter of the row under `short_code`, if any.
    fn increment_click_count(&mut self, short_code: &str)
        requires
            old(self).wf(),
        ensures
            final(self).wf(),
            old(self).db().contains_key(short_code@) ==> final(self).db() == old(self).db().insert(
                short_code@,
                (RowModel {
                    url: old(self).db()[short_code@].url,
                    clicks: bumped(old(self).db()[short_code@].clicks),
                }),
            ),
            !old(self).db().contains_key(short_code@) ==> final(self).db() == old(self).db(),
    ;
}

} // verus!
