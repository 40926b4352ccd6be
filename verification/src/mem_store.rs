use vstd::prelude::*;

use crate::store::RowModel;
use crate::store::Store;
use crate::store::UrlRecord;
use crate::store::row_of;
use crate::text::str_eq;

verus! {

/// No two records carry the same short code.
pub open spec fn codes_unique(rs: Seq<UrlRecord>) -> bool {
    forall|i: int, j: int| 0 <= i < j < rs.len() ==> rs[i].short_code@ != rs[j].short_code@
}

/// The map a record sequence stands for; on duplicate codes the later record
/// wins, but well-formed stores never hold duplicates.
pub open spec fn seq_db(rs: Seq<UrlRecord>) -> Map<Seq<char>, RowModel>
    decreases rs.len(),
{
    if rs.len() == 0 {
        Map::empty()
    } else {
        seq_db(rs.drop_last()).insert(rs.last().short_code@, row_of(rs.last()))
    }
}

pub proof fn lemma_seq_db_contains(rs: Seq<UrlRecord>)
    ensures
        forall|c: Seq<char>|
            #[trigger] seq_db(rs).contains_key(c) <==> exists|i: int|
                0 <= i < rs.len() && #[trigger] rs[i].short_code@ == c,
    decreases rs.len(),
{
    if rs.len() > 0 {
        lemma_seq_db_contains(rs.drop_last());
        assert forall|c: Seq<char>| #[trigger] seq_db(rs).contains_key(c) implies exists|i: int|
            0 <= i < rs.len() && #[trigger] rs[i].short_code@ == c by {
            if c == rs.last().short_code@ {
                assert(rs[rs.len() - 1].short_code@ == c);
            } else {
                assert(seq_db(rs.drop_last()).contains_key(c));
                let i = choose|i: int|
                    0 <= i < rs.drop_last().len() && #[trigger] rs.drop_last()[i].short_code@ == c;
                assert(rs[i].short_code@ == c);
            }
        }
        assert forall|c: Seq<char>|
            exists|i: int|
                0 <= i < rs.len() && #[trigger] rs[i].short_code@ == c implies #[trigger] seq_db(
            rs,
        ).contains_key(c) by {
            let i = choose|i: int| 0 <= i < rs.len() && #[trigger] rs[i].short_code@ == c;
            if i < rs.len() - 1 {
                assert(rs.drop_last()[i].short_code@ == c);
                assert(seq_db(rs.drop_last()).contains_key(c));
            } else {
                assert(rs.last().short_code@ == c);
            }
        }
    }
}

pub proof fn lemma_seq_db_index(rs: Seq<UrlRecord>, i: int)
    requires
        codes_unique(rs),
        0 <= i < rs.len(),
    ensures
        seq_db(rs).contains_key(rs[i].short_code@),
        seq_db(rs)[rs[i].short_code@] == row_of(rs[i]),
    decreases rs.len(),
{
    if i == rs.len() - 1 {
    } else {
        lemma_seq_db_index(rs.drop_last(), i);
        assert(rs.drop_last()[i] == rs[i]);
        assert(rs[i].short_code@ != rs.last().short_code@);
    }
}

pub proof fn lemma_seq_db_push(rs: Seq<UrlRecord>, r: UrlRecord)
    ensures
        seq_db(rs.push(r)) == seq_db(rs).insert(r.short_code@, row_of(r)),
{
    assert(rs.push(r).drop_last() =~= rs);
    assert(rs.push(r).last() == r);
}

pub proof fn lemma_seq_db_update(rs: Seq<UrlRecord>, i: int, r: UrlRecord)
    requires
        codes_unique(rs),
        0 <= i < rs.len(),
        r.short_code@ == rs[i].short_code@,
    ensures
        codes_unique(rs.update(i, r)),
        seq_db(rs.update(i, r)) == seq_db(rs).insert(r.short_code@, row_of(r)),
    decreases rs.len(),
{
    let rs2 = rs.update(i, r);
    assert(codes_unique(rs2));
    if i == rs.len() - 1 {
        assert(rs2.drop_last() =~= rs.drop_last());
        assert(rs2.last() == r);
        assert(seq_db(rs2) == seq_db(rs.drop_last()).insert(r.short_code@, row_of(r)));
        assert(seq_db(rs).insert(r.short_code@, row_of(r)) =~= seq_db(rs.drop_last()).insert(
            r.short_code@,
            row_of(r),
        ));
    } else {
        lemma_seq_db_update(rs.drop_last(), i, r);
        assert(rs2.drop_last() =~= rs.drop_last().update(i, r));
        assert(rs2.last() == rs.last());
        assert(rs[i].short_code@ != rs.last().short_code@);
        assert(seq_db(rs2) == seq_db(rs.drop_last()).insert(r.short_code@, row_of(r)).insert(
            rs.last().short_code@,
            row_of(rs.last()),
        ));
        assert(seq_db(rs2) =~= seq_db(rs).insert(r.short_code@, row_of(r)));
    }
}

pub proof fn lemma_seq_db_len(rs: Seq<UrlRecord>)
    requires
        codes_unique(rs),
    ensures
        seq_db(rs).dom().finite(),
        seq_db(rs).dom().len() == rs.len(),
    decreases rs.len(),
{
    if rs.len() > 0 {
        lemma_seq_db_len(rs.drop_last());
        lemma_seq_db_contains(rs.drop_last());
        assert(!seq_db(rs.drop_last()).contains_key(rs.last().short_code@));
        assert(seq_db(rs).dom() =~= seq_db(rs.drop_last()).dom().insert(rs.last().short_code@));
    }
}

/// An in-process store implementing the store interface, against which the
/// allocator's behaviour is both proved and tested.
pub struct MemStore {
    records: Vec<UrlRecord>,
}

impl MemStore {
    /// An empty store.
    pub fn new() -> (r: MemStore)
        ensures
            r.wf(),
            r.db() == Map::<Seq<char>, RowModel>::empty(),
    {
        MemStore { records: Vec::new() }
    }

    /// How many rows the store holds.
    pub fn record_count(&self) -> (r: usize)
        requires
            self.wf(),
        ensures
            r == self.db().dom().len(),
    {
        proof {
            lemma_seq_db_len(self.records@);
        }
        self.records.len()
    }

    fn position_of_code(&self, short_code: &str) -> (r: Option<usize>)
        ensures
            r matches Some(i) ==> i < self.records@.len() && self.records@[i as int].short_code@
                == short_code@,
            r is None ==> forall|j: int|
                0 <= j < self.records@.len() ==> self.records@[j].short_code@ != short_code@,
    {
        let n = self.records.len();
        let mut i: usize = 0;
        while i < n
            invariant
                n == self.records@.len(),
                i <= n,
                forall|j: int| 0 <= j < i ==> self.records@[j].short_code@ != short_code@,
            decreases n - i,
        {
            if str_eq(self.records[i].short_code.as_str(), short_code) {
                return Some(i);
            }
            i = i + 1;
        }
        None
    }
}

impl Store for MemStore {
    closed spec fn db(&self) -> Map<Seq<char>, RowModel> {
        seq_db(self.records@)
    }

    closed spec fn wf(&self) -> bool {
        codes_unique(self.records@)
    }

    fn find_by_short_code(&self, short_code: &str) -> (r: Option<UrlRecord>) {
        proof {
            lemma_seq_db_contains(self.records@);
        }
        match self.position_of_code(short_code) {
            Some(i) => {
                proof {
                    lemma_seq_db_index(self.records@, i as int);
                }
                Some(self.records[i].duplicate())
            },
            None => None,
        }
    }

    fn find_by_original_url(&self, original_url: &str) -> (r: Option<UrlRecord>) {
        let n = self.records.len();
        let mut i: usize = 0;
        while i < n
            invariant
                self.wf(),
                n == self.records@.len(),
                i <= n,
                forall|j: int| 0 <= j < i ==> self.records@[j].original_url@ != original_url@,
            decreases n - i,
        {
            if str_eq(self.records[i].original_url.as_str(), original_url) {
                proof {
                    lemma_seq_db_index(self.records@, i as int);
                }
                return Some(self.records[i].duplicate());
            }
            i = i + 1;
        }
        proof {
            lemma_seq_db_contains(self.records@);
            assert forall|c: Seq<char>| #[trigger] self.db().contains_key(c) implies self.db()[c].url
                != original_url@ by {
                let j = choose|j: int|
                    0 <= j < self.records@.len() && #[trigger] self.records@[j].short_code@ == c;
                lemma_seq_db_index(self.records@, j);
            }
        }
        None
    }

    fn insert_if_absent(&mut self, short_code: &str, original_url: &str) -> (r: Option<UrlRecord>) {
        proof {
            lemma_seq_db_contains(self.records@);
        }
        match self.position_of_code(short_code) {
            Some(i) => {
                proof {
                    lemma_seq_db_index(self.records@, i as int);
                }
                None
            },
            None => {
                let rec = UrlRecord {
                    short_code: short_code.to_owned(),
                    original_url: original_url.to_owned(),
                    click_count: 0,
                };
                let out = rec.duplicate();
                proof {
                    lemma_seq_db_push(self.records@, rec);
                }
                self.records.push(rec);
                Some(out)
            },
        }
    }

    fn increment_click_count(&mut self, short_code: &str) {
        proof {
            lemma_seq_db_contains(self.records@);
        }
        match self.position_of_code(short_code) {
            Some(i) => {
                proof {
                    lemma_seq_db_index(self.records@, i as int);
                }
                let mut rec = self.records[i].duplicate();
                rec.click_count = if rec.click_count == i64::MAX {
                    rec.click_count
                } else {
                    rec.click_count + 1
                };
                proof {
                    lemma_seq_db_update(self.records@, i as int, rec);
                }
                self.records.set(i, rec);
            },
            None => {
            },
        }
    }
}

} // verus!
