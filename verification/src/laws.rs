//! The laws the store obeys across several operations, stated over the same
//! spec functions the operations' contracts use and proved once and for all.
//! Each law speaks of a partition's record-view sequence; the operations'
//! contracts say exactly how each call turns the old sequence into the new
//! one, so these laws cover every run made of such calls.

use vstd::prelude::*;

use crate::record::RecordView;
use crate::store::{has_id, ids_distinct, idx_of, lemma_ids_distinct_push};

verus! {

/// No create is lost and ids stay unique: starting from a partition with
/// pairwise distinct ids, appending any number of records — each carrying an
/// id fresh at its step, as every successful create guarantees — yields a
/// partition that still holds every old record in place, holds every new
/// record in write order, has grown by exactly the number of creates, and
/// keeps its ids pairwise distinct. The store serializes the cache steps of
/// concurrent creates, so this covers any interleaving of them.
pub proof fn lemma_creates_no_lost_update(pre: Seq<RecordView>, added: Seq<RecordView>)
    requires
        ids_distinct(pre),
        forall|k: int|
            0 <= k < added.len() ==> !has_id(pre + #[trigger] added.take(k), added[k].record_id),
    ensures
        (pre + added).len() == pre.len() + added.len(),
        forall|i: int| 0 <= i < pre.len() ==> (pre + added)[i] == pre[i],
        forall|k: int| 0 <= k < added.len() ==> (pre + added)[pre.len() + k] == added[k],
        ids_distinct(pre + added),
    decreases added.len(),
{
    if added.len() == 0 {
        assert(pre + added =~= pre);
    } else {
        let a0 = added.drop_last();
        let m = added.last();
        assert forall|k: int|
            0 <= k < a0.len() implies !has_id(pre + #[trigger] a0.take(k), a0[k].record_id) by {
            assert(a0.take(k) =~= added.take(k));
            assert(a0[k] == added[k]);
        }
        lemma_creates_no_lost_update(pre, a0);
        assert(added.take(added.len() - 1) =~= a0);
        assert(!has_id(pre + a0, m.record_id));
        assert(pre + added =~= (pre + a0).push(m));
        lemma_ids_distinct_push(pre + a0, m);
    }
}

/// Read-your-write: the record a successful create appended is found again
/// under its id, unchanged — a read of that id right after the create returns
/// exactly the created record.
pub proof fn lemma_read_your_write(pre: Seq<RecordView>, m: RecordView)
    requires
        !has_id(pre, m.record_id),
    ensures
        has_id(pre.push(m), m.record_id),
        pre.push(m)[idx_of(pre.push(m), m.record_id)] == m,
{
    let s = pre.push(m);
    assert(s[pre.len() as int] == m);
    let x = idx_of(s, m.record_id);
    assert(0 <= x < s.len() && s[x].record_id == m.record_id);
    if x < pre.len() {
        assert(s[x] == pre[x]);
        assert(false);
    }
}

/// Delete removes exactly one: deleting the id a create just added removes
/// that record and nothing else, so the partition returns to its pre-create
/// value — same records, same order, same length — and the id is gone again.
pub proof fn lemma_create_then_delete(pre: Seq<RecordView>, m: RecordView)
    requires
        !has_id(pre, m.record_id),
    ensures
        pre.push(m).remove(idx_of(pre.push(m), m.record_id)) == pre,
        pre.push(m).remove(idx_of(pre.push(m), m.record_id)).len() == pre.len(),
{
    let s = pre.push(m);
    assert(s[pre.len() as int] == m);
    let x = idx_of(s, m.record_id);
    assert(0 <= x < s.len() && s[x].record_id == m.record_id);
    if x < pre.len() {
        assert(s[x] == pre[x]);
        assert(false);
    }
    assert(s.remove(x) =~= pre);
}

/// Update is idempotent: on a partition with pairwise distinct ids, applying
/// the same update a second time changes nothing — the final record state
/// equals the state after the first application.
pub proof fn lemma_update_idempotent(
    s: Seq<RecordView>,
    id: Seq<char>,
    title: Seq<char>,
    rating: Option<u64>,
)
    requires
        ids_distinct(s),
        has_id(s, id),
    ensures
        ({
            let r = (RecordView { record_id: id, title, rating });
            let s1 = s.update(idx_of(s, id), r);
            &&& has_id(s1, id)
            &&& s1.update(idx_of(s1, id), r) == s1
        }),
{
    let r = (RecordView { record_id: id, title, rating });
    let i = idx_of(s, id);
    assert(0 <= i < s.len() && s[i].record_id == id);
    let s1 = s.update(i, r);
    assert(s1[i].record_id == id);
    assert(has_id(s1, id));
    let j = idx_of(s1, id);
    assert(0 <= j < s1.len() && s1[j].record_id == id);
    if j != i {
        assert(s1[j] == s[j]);
        assert(false);
    }
    assert(s1.update(i, r) =~= s1);
}

} // verus!
