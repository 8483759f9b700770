//! Properties that relate several repository operations, proved over the
//! repository's mathematical state. The exec methods ensure they effect
//! exactly these transitions (`spec_save`, `spec_update`, `spec_delete`),
//! so each lemma here carries over to the corresponding call sequence.

use vstd::prelude::*;
use crate::entity::TodoView;
use crate::idhash::synthetic_id_of;
use crate::keys::{dec_seq, lemma_dec_seq_injective};
use crate::repository::{
    fresh_id_taken, has_key, key_index, lemma_key_index_unique, lemma_save_preserves_wf,
    lemma_update_preserves_wf, spec_delete, spec_find, spec_resolve, spec_save, spec_update, wf,
    RepoView,
};

verus! {

/// After a save, a lookup under the id the save returned yields exactly
/// the saved entity: the mapping gained the entry for the fresh key, and
/// the appended row is the one it resolves to.
pub proof fn lemma_find_after_save(m: RepoView, title: Seq<char>, completed: bool)
    requires
        wf(m),
    ensures
        ({
            let sid = synthetic_id_of(dec_seq(m.next_key));
            spec_find(spec_save(m, title, completed), sid) == Some(
                TodoView { id: Some(sid), title, completed },
            )
        }),
{
    let m2 = spec_save(m, title, completed);
    let k = dec_seq(m.next_key);
    let sid = synthetic_id_of(k);
    lemma_save_preserves_wf(m, title, completed);
    assert(m2.mapping.contains_key(sid) && m2.mapping[sid] == k);
    let last = m.records.len() as int;
    assert(m2.records[last].key == k);
    lemma_key_index_unique(m2.records, k, last);
}

/// After a delete, the id no longer resolves: a lookup yields absent, and
/// a second delete of the same id fails, since the repository reports an
/// unresolvable id as an error and the service reports it as not found.
pub proof fn lemma_find_after_delete(m: RepoView, id: i32)
    requires
        wf(m),
        spec_find(m, id) is Some,
    ensures
        spec_resolve(spec_delete(m, id), id) is None,
        spec_find(spec_delete(m, id), id) is None,
{
}

/// An update with a new title and the entity's old completion flag changes
/// only the title: the looked-up entity afterwards carries the new title
/// and the unchanged flag.
pub proof fn lemma_update_changes_only_title(
    m: RepoView,
    id: i32,
    t: TodoView,
    new_title: Seq<char>,
)
    requires
        wf(m),
        spec_find(m, id) == Some(t),
    ensures
        spec_find(spec_update(m, id, new_title, t.completed), id) == Some(
            TodoView { id: Some(id), title: new_title, completed: t.completed },
        ),
{
    let k = m.mapping[id];
    let i = key_index(m.records, k);
    assert(0 <= i < m.records.len() && m.records[i].key == k);
    let m2 = spec_update(m, id, new_title, t.completed);
    lemma_update_preserves_wf(m, id, new_title, t.completed);
    assert(m2.records[i].key == k);
    lemma_key_index_unique(m2.records, k, i);
    assert(id == synthetic_id_of(k));
}

/// An update of one id leaves every other id's lookup unchanged: two live
/// mapping entries with distinct ids point at distinct keys, so the
/// overwritten row is not the one the other id resolves to.
pub proof fn lemma_update_leaves_others(
    m: RepoView,
    id: i32,
    id2: i32,
    new_title: Seq<char>,
    new_completed: bool,
)
    requires
        wf(m),
        m.mapping.contains_key(id),
        id2 != id,
    ensures
        spec_find(spec_update(m, id, new_title, new_completed), id2) == spec_find(m, id2),
{
    let m2 = spec_update(m, id, new_title, new_completed);
    let k = m.mapping[id];
    let i = key_index(m.records, k);
    assert(0 <= i < m.records.len() && m.records[i].key == k);
    if m.mapping.contains_key(id2) {
        let k2 = m.mapping[id2];
        assert(id == synthetic_id_of(k));
        assert(id2 == synthetic_id_of(k2));
        assert(k2 != k);
        let i2 = key_index(m.records, k2);
        assert(0 <= i2 < m.records.len() && m.records[i2].key == k2);
        assert(i2 != i);
        assert(m2.records[i2] == m.records[i2]);
        lemma_update_preserves_wf(m, id, new_title, new_completed);
        lemma_key_index_unique(m2.records, k2, i2);
    }
}

/// Two saves the repository accepts never merge: accepting the second
/// already certifies that its fresh key's id is mapped to no key, the
/// first save's included, so the ids differ and each resolves to its own
/// row. A colliding id is refused as a storage fault before anything
/// changes (see `fresh_id_taken` and `lemma_taken_id_is_a_collision`), so
/// no two records ever stand silently merged behind one id.
pub proof fn lemma_accepted_creates_do_not_merge(
    m: RepoView,
    title1: Seq<char>,
    completed1: bool,
    title2: Seq<char>,
    completed2: bool,
)
    requires
        wf(m),
        !fresh_id_taken(spec_save(m, title1, completed1)),
    ensures
        ({
            let sid1 = synthetic_id_of(dec_seq(m.next_key));
            let sid2 = synthetic_id_of(dec_seq(m.next_key + 1));
            let m2 = spec_save(spec_save(m, title1, completed1), title2, completed2);
            &&& sid1 != sid2
            &&& spec_find(m2, sid1) == Some(
                TodoView { id: Some(sid1), title: title1, completed: completed1 },
            )
            &&& spec_find(m2, sid2) == Some(
                TodoView { id: Some(sid2), title: title2, completed: completed2 },
            )
        }),
{
    let k1 = dec_seq(m.next_key);
    let k2 = dec_seq(m.next_key + 1);
    let sid1 = synthetic_id_of(k1);
    let sid2 = synthetic_id_of(k2);
    let m1 = spec_save(m, title1, completed1);
    let m2 = spec_save(m1, title2, completed2);
    assert(m1.mapping.contains_key(sid1));
    assert(m1.next_key == m.next_key + 1);
    assert(!m1.mapping.contains_key(sid2));
    assert(sid1 != sid2);
    lemma_save_preserves_wf(m, title1, completed1);
    lemma_find_after_save(m1, title2, completed2);
    if k1 == k2 {
        lemma_dec_seq_injective(m.next_key, m.next_key + 1);
    }
    lemma_save_preserves_wf(m1, title2, completed2);
    assert(m2.mapping.contains_key(sid1) && m2.mapping[sid1] == k1);
    let i1 = m.records.len() as int;
    assert(m2.records[i1].key == k1);
    lemma_key_index_unique(m2.records, k1, i1);
}

/// A save refused for a taken id is refusing a true collision: the mapped
/// key is live and is not the fresh key, yet hashes to the same synthetic
/// id. Nothing is merged; the fault is surfaced instead.
pub proof fn lemma_taken_id_is_a_collision(m: RepoView)
    requires
        wf(m),
        fresh_id_taken(m),
    ensures
        ({
            let fresh = dec_seq(m.next_key);
            let sid = synthetic_id_of(fresh);
            &&& m.mapping[sid] != fresh
            &&& synthetic_id_of(m.mapping[sid]) == sid
            &&& has_key(m.records, m.mapping[sid])
        }),
{
    let fresh = dec_seq(m.next_key);
    let sid = synthetic_id_of(fresh);
    assert(m.mapping.contains_key(sid));
    if m.mapping[sid] == fresh {
        let i = choose|i: int|
            0 <= i < m.records.len() && (#[trigger] m.records[i]).key == m.mapping[sid];
        let n = choose|n: nat| n < m.next_key && m.records[i].key == dec_seq(n);
        lemma_dec_seq_injective(n, m.next_key);
    }
}

} // verus!
