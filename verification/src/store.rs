//! The store core: an in-memory cache of user partitions and the
//! create/read/update/delete operations over it.
//!
//! The cache is a sequence of partitions, one per user key, each holding that
//! user's records in insertion order. Its mathematical value is the mapping
//! from user key to record-view sequence ([`cache_view`]). Every operation
//! states exactly how it changes that mapping and when each error is returned.
//!
//! The persistent backend stays with the embedding program: it enumerates the
//! backend once to build the input of [`DB::init`], and it performs the
//! backend write of each operation before calling the cache step here, so the
//! cache never runs ahead of durable state.

use vstd::prelude::*;

use crate::record::{MovieRecord, RecordView};

verus! {

/// Why a store operation failed.
#[derive(Clone, Copy, Debug, PartialEq, Eq, Structural)]
pub enum StoreError {
    /// No partition exists for the given user key. Partitions are created
    /// implicitly by the first create for a user, never by a read.
    UnknownUser,
    /// The user's partition holds no record with the given id.
    UnknownRecord,
}

/// One user's partition: the user key and the records written for that user,
/// in insertion order.
pub struct Partition {
    pub user: String,
    pub movies: Vec<MovieRecord>,
}

/// The views of a sequence of records, element by element.
pub open spec fn mview(ms: Seq<MovieRecord>) -> Seq<RecordView> {
    Seq::new(ms.len(), |i: int| ms[i]@)
}

/// No two records of the sequence share an id.
pub open spec fn ids_distinct(s: Seq<RecordView>) -> bool {
    forall|i: int, j: int| 0 <= i < j < s.len() ==> s[i].record_id != s[j].record_id
}

/// No two partitions share a user key.
pub open spec fn users_distinct(ps: Seq<Partition>) -> bool {
    forall|i: int, j: int| 0 <= i < j < ps.len() ==> ps[i].user@ != ps[j].user@
}

/// Some record of the sequence carries the id.
pub open spec fn has_id(s: Seq<RecordView>, id: Seq<char>) -> bool {
    exists|i: int| 0 <= i < s.len() && s[i].record_id == id
}

/// An index of a record carrying the id; when [`ids_distinct`] holds and the
/// id is present, the one such index.
pub open spec fn idx_of(s: Seq<RecordView>, id: Seq<char>) -> int {
    choose|i: int| 0 <= i < s.len() && s[i].record_id == id
}

/// The cache as a mapping from user key to that user's record sequence. A
/// later partition for the same key would shadow an earlier one, which is why
/// the store keeps user keys distinct.
pub open spec fn cache_view(ps: Seq<Partition>) -> Map<Seq<char>, Seq<RecordView>>
    decreases ps.len(),
{
    if ps.len() == 0 {
        Map::empty()
    } else {
        cache_view(ps.drop_last()).insert(ps.last().user@, mview(ps.last().movies@))
    }
}

/// Looking up a partition in the mapping reads exactly the records of the
/// partition with that user key.
pub proof fn lemma_view_at(ps: Seq<Partition>, i: int)
    requires
        users_distinct(ps),
        0 <= i < ps.len(),
    ensures
        cache_view(ps).contains_key(ps[i].user@),
        cache_view(ps)[ps[i].user@] == mview(ps[i].movies@),
    decreases ps.len(),
{
    if i == ps.len() - 1 {
        assert(ps.last() == ps[i]);
    } else {
        let q = ps.drop_last();
        assert forall|a: int, b: int| 0 <= a < b < q.len() implies q[a].user@ != q[b].user@ by {
            assert(q[a] == ps[a]);
            assert(q[b] == ps[b]);
        }
        lemma_view_at(q, i);
        assert(q[i] == ps[i]);
        assert(ps[i].user@ != ps[ps.len() - 1].user@);
        assert(ps.last() == ps[ps.len() - 1]);
    }
}

/// A user key carried by no partition is absent from the mapping.
pub proof fn lemma_view_absent(ps: Seq<Partition>, u: Seq<char>)
    requires
        forall|i: int| 0 <= i < ps.len() ==> ps[i].user@ != u,
    ensures
        !cache_view(ps).contains_key(u),
    decreases ps.len(),
{
    if ps.len() > 0 {
        let q = ps.drop_last();
        assert forall|i: int| 0 <= i < q.len() implies q[i].user@ != u by {
            assert(q[i] == ps[i]);
        }
        lemma_view_absent(q, u);
        assert(ps.last() == ps[ps.len() - 1]);
    }
}

/// A user key present in the mapping is carried by some partition.
pub proof fn lemma_view_key_index(ps: Seq<Partition>, u: Seq<char>)
    requires
        cache_view(ps).contains_key(u),
    ensures
        exists|i: int| 0 <= i < ps.len() && ps[i].user@ == u,
    decreases ps.len(),
{
    if ps.len() == 0 {
    } else if ps.last().user@ == u {
        assert(ps[ps.len() - 1].user@ == u);
    } else {
        let q = ps.drop_last();
        lemma_view_key_index(q, u);
        let i = choose|i: int| 0 <= i < q.len() && q[i].user@ == u;
        assert(q[i] == ps[i]);
    }
}

/// Replacing one partition, keeping its user key, replaces exactly that key's
/// entry in the mapping.
pub proof fn lemma_view_update(ps: Seq<Partition>, i: int, p: Partition)
    requires
        users_distinct(ps),
        0 <= i < ps.len(),
        p.user@ == ps[i].user@,
    ensures
        cache_view(ps.update(i, p)) == cache_view(ps).insert(p.user@, mview(p.movies@)),
        users_distinct(ps.update(i, p)),
    decreases ps.len(),
{
    let ps2 = ps.update(i, p);
    assert forall|a: int, b: int| 0 <= a < b < ps2.len() implies ps2[a].user@ != ps2[b].user@ by {
        assert(ps2[a].user@ == ps[a].user@);
        assert(ps2[b].user@ == ps[b].user@);
    }
    if i == ps.len() - 1 {
        assert(ps2.drop_last() =~= ps.drop_last());
        assert(ps2.last() == p);
        assert(ps.last() == ps[i]);
        assert(cache_view(ps2) =~= cache_view(ps).insert(p.user@, mview(p.movies@)));
    } else {
        let q = ps.drop_last();
        assert forall|a: int, b: int| 0 <= a < b < q.len() implies q[a].user@ != q[b].user@ by {
            assert(q[a] == ps[a]);
            assert(q[b] == ps[b]);
        }
        assert(q[i] == ps[i]);
        lemma_view_update(q, i, p);
        assert(ps2.drop_last() =~= q.update(i, p));
        assert(ps2.last() == ps.last());
        assert(ps.last() == ps[ps.len() - 1]);
        assert(p.user@ != ps[ps.len() - 1].user@);
        assert(cache_view(ps2) =~= cache_view(ps).insert(p.user@, mview(p.movies@)));
    }
}

/// Appending a partition for a new user key adds exactly that key's entry to
/// the mapping.
pub proof fn lemma_view_push(ps: Seq<Partition>, p: Partition)
    ensures
        cache_view(ps.push(p)) == cache_view(ps).insert(p.user@, mview(p.movies@)),
{
    assert(ps.push(p).drop_last() =~= ps);
    assert(ps.push(p).last() == p);
}

/// Viewing commutes with removing a record.
proof fn lemma_mview_remove(ms: Seq<MovieRecord>, j: int)
    requires
        0 <= j < ms.len(),
    ensures
        mview(ms.remove(j)) == mview(ms).remove(j),
{
    assert(mview(ms.remove(j)) =~= mview(ms).remove(j));
}

/// Appending a record with a fresh id keeps ids pairwise distinct.
pub proof fn lemma_ids_distinct_push(s: Seq<RecordView>, m: RecordView)
    requires
        ids_distinct(s),
        !has_id(s, m.record_id),
    ensures
        ids_distinct(s.push(m)),
{
    assert forall|i: int, j: int|
        0 <= i < j < s.push(m).len() implies s.push(m)[i].record_id
        != s.push(m)[j].record_id by {
        if j < s.len() {
        } else {
            assert(s.push(m)[i] == s[i]);
            assert(!(0 <= i < s.len() && s[i].record_id == m.record_id));
        }
    }
}

/// Replacing a record, keeping its id, keeps ids pairwise distinct.
proof fn lemma_ids_distinct_update(s: Seq<RecordView>, j: int, m: RecordView)
    requires
        ids_distinct(s),
        0 <= j < s.len(),
        m.record_id == s[j].record_id,
    ensures
        ids_distinct(s.update(j, m)),
{
    let s2 = s.update(j, m);
    assert forall|a: int, b: int|
        0 <= a < b < s2.len() implies s2[a].record_id != s2[b].record_id by {
        assert(s2[a].record_id == s[a].record_id);
        assert(s2[b].record_id == s[b].record_id);
    }
}

/// Removing a record keeps ids pairwise distinct.
proof fn lemma_ids_distinct_remove(s: Seq<RecordView>, j: int)
    requires
        ids_distinct(s),
        0 <= j < s.len(),
    ensures
        ids_distinct(s.remove(j)),
{
    let s2 = s.remove(j);
    assert forall|a: int, b: int|
        0 <= a < b < s2.len() implies s2[a].record_id != s2[b].record_id by {
        if a < j {
            assert(s2[a] == s[a]);
        } else {
            assert(s2[a] == s[a + 1]);
        }
        if b < j {
            assert(s2[b] == s[b]);
        } else {
            assert(s2[b] == s[b + 1]);
        }
    }
}

/// The store: the cache of user partitions. Its view is the mapping from
/// user key to record-view sequence; [`DB::wf`] is its invariant, established
/// by [`DB::init`] and preserved by every operation.
pub struct DB {
    parts: Vec<Partition>,
}

impl View for DB {
    type V = Map<Seq<char>, Seq<RecordView>>;

    closed spec fn view(&self) -> Map<Seq<char>, Seq<RecordView>> {
        cache_view(self.parts@)
    }
}

/// Finds the partition carrying the user key, if any.
fn find_user(parts: &Vec<Partition>, user: &String) -> (r: Option<usize>)
    ensures
        match r {
            Some(i) => i < parts@.len() && parts@[i as int].user@ == user@,
            None => forall|i: int| 0 <= i < parts@.len() ==> parts@[i].user@ != user@,
        },
{
    let n = parts.len();
    let mut k: usize = 0;
    while k < n
        invariant
            n == parts@.len(),
            k <= n,
            forall|i: int| 0 <= i < k ==> parts@[i].user@ != user@,
        decreases n - k,
    {
        if parts[k].user == *user {
            return Some(k);
        }
        k += 1;
    }
    None
}

/// Finds the first record carrying the id, if any.
fn find_id(ms: &Vec<MovieRecord>, id: &String) -> (r: Option<usize>)
    ensures
        match r {
            Some(j) => j < ms@.len() && mview(ms@)[j as int].record_id == id@,
            None => !has_id(mview(ms@), id@),
        },
{
    let n = ms.len();
    let mut k: usize = 0;
    while k < n
        invariant
            n == ms@.len(),
            k <= n,
            forall|i: int| 0 <= i < k ==> mview(ms@)[i].record_id != id@,
        decreases n - k,
    {
        if ms[k].record_id == *id {
            assert(mview(ms@)[k as int].record_id == id@);
            return Some(k);
        }
        k += 1;
    }
    None
}

/// Checks that a record sequence carries pairwise distinct ids.
fn movies_ids_distinct(ms: &Vec<MovieRecord>) -> (r: bool)
    ensures
        r == ids_distinct(mview(ms@)),
{
    let n = ms.len();
    let mut a: usize = 0;
    while a < n
        invariant
            n == ms@.len(),
            a <= n,
            forall|i: int, j: int|
                0 <= i < j < n && i < a ==> mview(ms@)[i].record_id != mview(ms@)[j].record_id,
        decreases n - a,
    {
        let mut b: usize = a + 1;
        while b < n
            invariant
                n == ms@.len(),
                a < n,
                a + 1 <= b <= n,
                forall|j: int|
                    a < j < b ==> mview(ms@)[a as int].record_id != mview(ms@)[j].record_id,
            decreases n - b,
        {
            if ms[a].record_id == ms[b].record_id {
                assert(mview(ms@)[a as int].record_id == mview(ms@)[b as int].record_id);
                return false;
            }
            b += 1;
        }
        a += 1;
    }
    true
}

/// Checks the shape that [`DB::init`] expects of the enumerated backend
/// contents: pairwise distinct user keys, and pairwise distinct record ids
/// within each partition.
pub fn partitions_wf(parts: &Vec<Partition>) -> (r: bool)
    ensures
        r == (users_distinct(parts@) && (forall|i: int|
            0 <= i < parts@.len() ==> ids_distinct(mview(#[trigger] parts@[i].movies@)))),
{
    let n = parts.len();
    let mut a: usize = 0;
    while a < n
        invariant
            n == parts@.len(),
            a <= n,
            forall|i: int, j: int| 0 <= i < j < n && i < a ==> parts@[i].user@ != parts@[j].user@,
            forall|i: int| 0 <= i < a ==> ids_distinct(mview(#[trigger] parts@[i].movies@)),
        decreases n - a,
    {
        let mut b: usize = a + 1;
        while b < n
            invariant
                n == parts@.len(),
                a < n,
                a + 1 <= b <= n,
                forall|j: int| a < j < b ==> parts@[a as int].user@ != parts@[j].user@,
            decreases n - b,
        {
            if parts[a].user == parts[b].user {
                return false;
            }
            b += 1;
        }
        if !movies_ids_distinct(&parts[a].movies) {
            return false;
        }
        a += 1;
    }
    true
}

/// Copies a record sequence so the caller gets a snapshot, never a handle
/// into the cache.
fn clone_movies(ms: &Vec<MovieRecord>) -> (r: Vec<MovieRecord>)
    ensures
        mview(r@) == mview(ms@),
{
    let n = ms.len();
    let mut r: Vec<MovieRecord> = Vec::new();
    let mut k: usize = 0;
    while k < n
        invariant
            n == ms@.len(),
            k <= n,
            r@.len() == k,
            forall|i: int| 0 <= i < k ==> r@[i]@ == ms@[i]@,
        decreases n - k,
    {
        r.push(ms[k].clone());
        k += 1;
    }
    proof {
        assert(mview(r@) =~= mview(ms@));
    }
    r
}

impl DB {
    /// The cache invariant (I1): partitions carry pairwise distinct user keys
    /// and each partition's records carry pairwise distinct ids.
    pub closed spec fn wf(self) -> bool {
        &&& users_distinct(self.parts@)
        &&& forall|i: int|
            0 <= i < self.parts@.len() ==> ids_distinct(mview(#[trigger] self.parts@[i].movies@))
    }

    /// The records cached for a user key, the empty sequence when the user is
    /// unknown.
    pub open spec fn partition_of(self, u: Seq<char>) -> Seq<RecordView> {
        if self@.contains_key(u) {
            self@[u]
        } else {
            Seq::empty()
        }
    }

    /// Builds the store from the partitions enumerated out of the persistent
    /// backend, wholesale and before any request is served. The cache holds
    /// exactly what was handed in.
    pub fn init(parts: Vec<Partition>) -> (r: DB)
        requires
            users_distinct(parts@),
            forall|i: int|
                0 <= i < parts@.len() ==> ids_distinct(mview(#[trigger] parts@[i].movies@)),
        ensures
            r.wf(),
            r@ == cache_view(parts@),
    {
        DB { parts }
    }

    /// Returns a snapshot of the user's records, in insertion order, from the
    /// cache alone; fails with `UnknownUser` when no partition exists for the
    /// key.
    pub fn get_movies(&self, user: &str) -> (r: Result<Vec<MovieRecord>, StoreError>)
        requires
            self.wf(),
        ensures
            self@.contains_key(user@) ==> (r matches Ok(v) && mview(v@) == self@[user@]),
            !self@.contains_key(user@) ==> r == Err::<Vec<MovieRecord>, StoreError>(
                StoreError::UnknownUser,
            ),
    {
        let u: String = user.to_owned();
        match find_user(&self.parts, &u) {
            Some(i) => {
                proof {
                    lemma_view_at(self.parts@, i as int);
                }
                Ok(clone_movies(&self.parts[i].movies))
            },
            None => {
                proof {
                    lemma_view_absent(self.parts@, u@);
                }
                Err(StoreError::UnknownUser)
            },
        }
    }

    /// Returns a copy of the one record with the given id in the user's
    /// partition; fails with `UnknownUser` when no partition exists for the
    /// key and with `UnknownRecord` when the partition holds no such id.
    pub fn get_movie(&self, user: &str, record_id: &str) -> (r: Result<MovieRecord, StoreError>)
        requires
            self.wf(),
        ensures
            !self@.contains_key(user@) ==> r == Err::<MovieRecord, StoreError>(
                StoreError::UnknownUser,
            ),
            self@.contains_key(user@) && !has_id(self@[user@], record_id@) ==> r
                == Err::<MovieRecord, StoreError>(StoreError::UnknownRecord),
            self@.contains_key(user@) && has_id(self@[user@], record_id@) ==> (r matches Ok(m)
                && m@ == self@[user@][idx_of(self@[user@], record_id@)] && m@.record_id
                == record_id@),
    {
        let u: String = user.to_owned();
        let id: String = record_id.to_owned();
        match find_user(&self.parts, &u) {
            Some(i) => {
                proof {
                    lemma_view_at(self.parts@, i as int);
                }
                match find_id(&self.parts[i].movies, &id) {
                    Some(j) => {
                        proof {
                            let s = self@[user@];
                            let x = idx_of(s, record_id@);
                            assert(s[j as int].record_id == record_id@);
                            assert(0 <= x < s.len() && s[x].record_id == record_id@);
                            assert(x == j as int);
                        }
                        Ok(self.parts[i].movies[j].clone())
                    },
                    None => Err(StoreError::UnknownRecord),
                }
            },
            None => {
                proof {
                    lemma_view_absent(self.parts@, u@);
                }
                Err(StoreError::UnknownUser)
            },
        }
    }

    /// Builds the record a create asks for, from an id already drawn: the
    /// record comes back exactly when the id is fresh for the user, and
    /// nothing when it would collide with a cached record.
    pub fn make_record(&self, user: &str, id: String, title: String, rating: Option<u64>) -> (r:
        Option<MovieRecord>)
        requires
            self.wf(),
        ensures
            !has_id(self.partition_of(user@), id@) ==> (r matches Some(m) && m@ == (RecordView {
                record_id: id@,
                title: title@,
                rating,
            })),
            has_id(self.partition_of(user@), id@) ==> r is None,
    {
        let u: String = user.to_owned();
        match find_user(&self.parts, &u) {
            None => {
                proof {
                    lemma_view_absent(self.parts@, u@);
                }
                Some(MovieRecord { record_id: id, title, rating })
            },
            Some(i) => {
                proof {
                    lemma_view_at(self.parts@, i as int);
                }
                match find_id(&self.parts[i].movies, &id) {
                    Some(_) => None,
                    None => Some(MovieRecord { record_id: id, title, rating }),
                }
            },
        }
    }

    /// Draws a random id and builds the record the caller asked to create.
    /// The draw is random, so nothing forces it to be fresh; when it is — in
    /// all but a negligible fraction of draws — the record comes back with a
    /// guaranteed-fresh id, ready to be persisted and then handed to
    /// [`DB::insert_record`]. No draw can collide with an empty or absent
    /// partition, so there the record always comes back.
    pub fn new_record(&self, user: &str, title: String, rating: Option<u64>) -> (r: Option<
        MovieRecord,
    >)
        requires
            self.wf(),
        ensures
            self.partition_of(user@).len() == 0 ==> r is Some,
            r matches Some(m) ==> {
                &&& m@.title == title@
                &&& m@.rating == rating
                &&& m@.record_id.len() == 36
                &&& !has_id(self.partition_of(user@), m@.record_id)
            },
    {
        let id = crate::record::fresh_id();
        self.make_record(user, id, title, rating)
    }

    /// The cache step of a create: appends a record whose id is fresh for the
    /// user to the user's partition, creating the partition when the user was
    /// unknown — the one path that creates a partition. To be called only
    /// after the persistent backend accepted the record.
    pub fn insert_record(&mut self, user: &str, movie: MovieRecord)
        requires
            old(self).wf(),
            !has_id(old(self).partition_of(user@), movie@.record_id),
        ensures
            final(self).wf(),
            final(self)@ == old(self)@.insert(
                user@,
                old(self).partition_of(user@).push(movie@),
            ),
    {
        let ghost ps0 = self.parts@;
        let ghost mv = movie@;
        let u: String = user.to_owned();
        match find_user(&self.parts, &u) {
            Some(i) => {
                proof {
                    lemma_view_at(ps0, i as int);
                }
                let ghost ms0 = self.parts@[i as int].movies@;
                let mut p = self.parts.remove(i);
                p.movies.push(movie);
                let ghost pv = p;
                self.parts.insert(i, p);
                proof {
                    assert(self.parts@ =~= ps0.update(i as int, pv));
                    assert(pv.user@ == ps0[i as int].user@);
                    lemma_view_update(ps0, i as int, pv);
                    assert(mview(pv.movies@) =~= mview(ms0).push(mv));
                    assert(old(self).partition_of(user@) == mview(ms0));
                    lemma_ids_distinct_push(mview(ms0), mv);
                    let ps1 = self.parts@;
                    assert forall|k: int|
                        0 <= k < ps1.len() implies ids_distinct(
                        mview(#[trigger] ps1[k].movies@),
                    ) by {
                        if k != i as int {
                            assert(ps1[k] == ps0[k]);
                        } else {
                            assert(ps1[k] == pv);
                        }
                    }
                }
            },
            None => {
                proof {
                    lemma_view_absent(ps0, u@);
                }
                let mut ms: Vec<MovieRecord> = Vec::new();
                ms.push(movie);
                let p = Partition { user: u, movies: ms };
                let ghost pv = p;
                self.parts.push(p);
                proof {
                    assert(self.parts@ == ps0.push(pv));
                    lemma_view_push(ps0, pv);
                    assert(old(self).partition_of(user@) == Seq::<RecordView>::empty());
                    assert(mview(pv.movies@) =~= Seq::<RecordView>::empty().push(mv));
                    let ps1 = self.parts@;
                    assert forall|a: int, b: int|
                        0 <= a < b < ps1.len() implies ps1[a].user@ != ps1[b].user@ by {
                        assert(ps1[a] == ps0[a]);
                        if b < ps0.len() {
                            assert(ps1[b] == ps0[b]);
                        } else {
                            assert(ps1[b] == pv);
                        }
                    }
                    assert forall|k: int|
                        0 <= k < ps1.len() implies ids_distinct(
                        mview(#[trigger] ps1[k].movies@),
                    ) by {
                        if k < ps0.len() {
                            assert(ps1[k] == ps0[k]);
                        } else {
                            assert(ps1[k] == pv);
                            assert(mview(pv.movies@).len() == 1);
                        }
                    }
                }
            },
        }
    }

    /// The create operation, cache side in full: draws an id, builds the
    /// record and appends it to the user's partition, creating the partition
    /// when the user was unknown. Returns the created record, or nothing in
    /// the negligible case that the drawn id collided with a cached one (the
    /// cache is then left untouched); a collision needs a non-empty partition,
    /// so a create for an unseen user always succeeds. A program that persists
    /// each record
    /// before caching it calls [`DB::new_record`] and [`DB::insert_record`]
    /// separately, with the backend write between them.
    pub fn post_movie(&mut self, user: &str, title: String, rating: Option<u64>) -> (r: Option<
        MovieRecord,
    >)
        requires
            old(self).wf(),
        ensures
            final(self).wf(),
            old(self).partition_of(user@).len() == 0 ==> r is Some,
            r matches Some(m) ==> {
                &&& m@.title == title@
                &&& m@.rating == rating
                &&& m@.record_id.len() == 36
                &&& !has_id(old(self).partition_of(user@), m@.record_id)
                &&& final(self)@ == old(self)@.insert(
                    user@,
                    old(self).partition_of(user@).push(m@),
                )
            },
            r is None ==> final(self)@ == old(self)@,
    {
        match self.new_record(user, title, rating) {
            Some(m) => {
                let m2 = m.clone();
                self.insert_record(user, m2);
                Some(m)
            },
            None => None,
        }
    }

    /// The update operation, cache side: overwrites the title and rating of
    /// the record with the given id, in place and keeping its position; the
    /// id is the caller's claim that the record already exists. Fails with
    /// `UnknownUser` when no partition exists for the key and with
    /// `UnknownRecord` when the partition holds no such id; either way the
    /// cache is left unchanged.
    pub fn put_movie(
        &mut self,
        user: &str,
        record_id: &str,
        title: String,
        rating: Option<u64>,
    ) -> (r: Result<(), StoreError>)
        requires
            old(self).wf(),
        ensures
            final(self).wf(),
            !old(self)@.contains_key(user@) ==> r == Err::<(), StoreError>(StoreError::UnknownUser)
                && final(self)@ == old(self)@,
            old(self)@.contains_key(user@) && !has_id(old(self)@[user@], record_id@) ==> r
                == Err::<(), StoreError>(StoreError::UnknownRecord) && final(self)@ == old(self)@,
            old(self)@.contains_key(user@) && has_id(old(self)@[user@], record_id@) ==> r
                == Ok::<(), StoreError>(()) && final(self)@ == old(self)@.insert(
                user@,
                old(self)@[user@].update(
                    idx_of(old(self)@[user@], record_id@),
                    (RecordView { record_id: record_id@, title: title@, rating }),
                ),
            ),
    {
        let ghost ps0 = self.parts@;
        let u: String = user.to_owned();
        let id: String = record_id.to_owned();
        match find_user(&self.parts, &u) {
            None => {
                proof {
                    lemma_view_absent(ps0, u@);
                }
                Err(StoreError::UnknownUser)
            },
            Some(i) => {
                proof {
                    lemma_view_at(ps0, i as int);
                }
                let ghost ms0 = self.parts@[i as int].movies@;
                match find_id(&self.parts[i].movies, &id) {
                    None => Err(StoreError::UnknownRecord),
                    Some(j) => {
                        let mut p = self.parts.remove(i);
                        let mut m = p.movies.remove(j);
                        m.title = title;
                        m.rating = rating;
                        let ghost mv = m@;
                        p.movies.insert(j, m);
                        let ghost pv = p;
                        self.parts.insert(i, p);
                        proof {
                            let s = mview(ms0);
                            assert(mview(pv.movies@) =~= s.update(j as int, mv));
                            assert(self.parts@ =~= ps0.update(i as int, pv));
                            lemma_view_update(ps0, i as int, pv);
                            assert(mv.record_id == s[j as int].record_id);
                            assert(0 <= j < s.len() && s[j as int].record_id == record_id@);
                            let x = idx_of(s, record_id@);
                            assert(0 <= x < s.len() && s[x].record_id == record_id@);
                            assert(x == j as int);
                            lemma_ids_distinct_update(s, j as int, mv);
                            let ps1 = self.parts@;
                            assert forall|k: int|
                                0 <= k < ps1.len() implies ids_distinct(
                                mview(#[trigger] ps1[k].movies@),
                            ) by {
                                if k != i as int {
                                    assert(ps1[k] == ps0[k]);
                                } else {
                                    assert(ps1[k] == pv);
                                }
                            }
                        }
                        Ok(())
                    },
                }
            },
        }
    }

    /// The delete operation, cache side: removes the one record with the
    /// given id, preserving the relative order of the remaining records.
    /// Fails with `UnknownUser` when no partition exists for the key and with
    /// `UnknownRecord` when the partition holds no such id; either way the
    /// cache is left unchanged.
    pub fn delete_movie(&mut self, user: &str, record_id: &str) -> (r: Result<(), StoreError>)
        requires
            old(self).wf(),
        ensures
            final(self).wf(),
            !old(self)@.contains_key(user@) ==> r == Err::<(), StoreError>(StoreError::UnknownUser)
                && final(self)@ == old(self)@,
            old(self)@.contains_key(user@) && !has_id(old(self)@[user@], record_id@) ==> r
                == Err::<(), StoreError>(StoreError::UnknownRecord) && final(self)@ == old(self)@,
            old(self)@.contains_key(user@) && has_id(old(self)@[user@], record_id@) ==> r
                == Ok::<(), StoreError>(()) && final(self)@ == old(self)@.insert(
                user@,
                old(self)@[user@].remove(idx_of(old(self)@[user@], record_id@)),
            ),
    {
        let ghost ps0 = self.parts@;
        let u: String = user.to_owned();
        let id: String = record_id.to_owned();
        match find_user(&self.parts, &u) {
            None => {
                proof {
                    lemma_view_absent(ps0, u@);
                }
                Err(StoreError::UnknownUser)
            },
            Some(i) => {
                proof {
                    lemma_view_at(ps0, i as int);
                }
                let ghost ms0 = self.parts@[i as int].movies@;
                match find_id(&self.parts[i].movies, &id) {
                    None => Err(StoreError::UnknownRecord),
                    Some(j) => {
                        let mut p = self.parts.remove(i);
                        p.movies.remove(j);
                        let ghost pv = p;
                        self.parts.insert(i, p);
                        proof {
                            let s = mview(ms0);
                            assert(pv.movies@ == ms0.remove(j as int));
                            lemma_mview_remove(ms0, j as int);
                            assert(self.parts@ =~= ps0.update(i as int, pv));
                            lemma_view_update(ps0, i as int, pv);
                            assert(0 <= j < s.len() && s[j as int].record_id == record_id@);
                            let x = idx_of(s, record_id@);
                            assert(0 <= x < s.len() && s[x].record_id == record_id@);
                            assert(x == j as int);
                            lemma_ids_distinct_remove(s, j as int);
                            let ps1 = self.parts@;
                            assert forall|k: int|
                                0 <= k < ps1.len() implies ids_distinct(
                                mview(#[trigger] ps1[k].movies@),
                            ) by {
                                if k != i as int {
                                    assert(ps1[k] == ps0[k]);
                                } else {
                                    assert(ps1[k] == pv);
                                }
                            }
                        }
                        Ok(())
                    },
                }
            },
        }
    }
}

/// Id uniqueness (I1): in a well-formed store — as `init` builds it and every
/// operation keeps it — each user's partition holds pairwise distinct record
/// ids, so any number of successful creates leaves as many distinct ids.
pub proof fn lemma_wf_ids_distinct(d: DB, u: Seq<char>)
    requires
        d.wf(),
        d@.contains_key(u),
    ensures
        ids_distinct(d@[u]),
{
    lemma_view_key_index(d.parts@, u);
    let i = choose|i: int| 0 <= i < d.parts@.len() && d.parts@[i].user@ == u;
    lemma_view_at(d.parts@, i);
}

} // verus!
