//! The repository: rows kept in store order under string native keys, and a
//! mapping from hash-derived synthetic integer ids to native keys. Every id
//! handed to a caller resolves through the mapping; a full scan rebuilds
//! the mapping, a save extends it at once, and a delete removes its entry.

use vstd::prelude::*;
use vstd::hash_map::HashMapWithView;
use crate::entity::{Todo, TodoError, TodoView};
use crate::idhash::{synthetic_id, synthetic_id_of};
use crate::keys::{dec_seq, decimal_string, lemma_dec_seq_injective};

verus! {

/// One row of the backing store: the native key in canonical string form,
/// and the entity fields.
#[derive(Debug, Clone)]
pub struct StoredRecord {
    pub key: String,
    pub title: String,
    pub completed: bool,
}

/// Mathematical image of a stored row.
#[verifier::ext_equal]
pub struct RecordView {
    pub key: Seq<char>,
    pub title: Seq<char>,
    pub completed: bool,
}

impl View for StoredRecord {
    type V = RecordView;

    open spec fn view(&self) -> RecordView {
        RecordView { key: self.key@, title: self.title@, completed: self.completed }
    }
}

/// Mathematical state of the repository: rows in store order, the
/// synthetic-id mapping, and the next key the store will issue.
#[verifier::ext_equal]
pub struct RepoView {
    pub records: Seq<RecordView>,
    pub mapping: Map<i32, Seq<char>>,
    pub next_key: nat,
}

/// Some row carries this native key.
pub open spec fn has_key(rs: Seq<RecordView>, k: Seq<char>) -> bool {
    exists|i: int| 0 <= i < rs.len() && (#[trigger] rs[i]).key == k
}

/// The index of the row carrying this native key; meaningful when the keys
/// are unique and the key is present.
pub open spec fn key_index(rs: Seq<RecordView>, k: Seq<char>) -> int {
    choose|i: int| 0 <= i < rs.len() && (#[trigger] rs[i]).key == k
}

/// The entity a row rehydrates to: the synthetic id derived from its key,
/// and its fields.
pub open spec fn todo_of_record(r: RecordView) -> TodoView {
    TodoView { id: Some(synthetic_id_of(r.key)), title: r.title, completed: r.completed }
}

/// The native key was issued by the store's counter before `bound`.
pub open spec fn key_issued(k: Seq<char>, bound: nat) -> bool {
    exists|n: nat| n < bound && k == dec_seq(n)
}

/// The repository invariant: row keys are unique and were issued by the
/// counter, and every mapping entry holds the id its key hashes to and
/// points at a live row.
pub open spec fn wf(m: RepoView) -> bool {
    &&& forall|i: int, j: int|
        0 <= i < m.records.len() && 0 <= j < m.records.len() && (#[trigger] m.records[i]).key == (
        #[trigger] m.records[j]).key ==> i == j
    &&& forall|i: int| 0 <= i < m.records.len() ==> key_issued((#[trigger] m.records[i]).key, m.next_key)
    &&& forall|id: i32|
        #[trigger] m.mapping.contains_key(id) ==> id == synthetic_id_of(m.mapping[id]) && has_key(
            m.records,
            m.mapping[id],
        )
}

/// The native key a synthetic id resolves to, if the mapping knows it.
pub open spec fn spec_resolve(m: RepoView, id: i32) -> Option<Seq<char>> {
    if m.mapping.contains_key(id) {
        Some(m.mapping[id])
    } else {
        None
    }
}

/// The entity a lookup by synthetic id returns: resolve through the
/// mapping, then fetch the row by native key.
pub open spec fn spec_find(m: RepoView, id: i32) -> Option<TodoView> {
    match spec_resolve(m, id) {
        None => None,
        Some(k) => if has_key(m.records, k) {
            Some(todo_of_record(m.records[key_index(m.records, k)]))
        } else {
            None
        },
    }
}

/// The row a save appends: a fresh key from the counter and the given
/// fields.
pub open spec fn saved_record(m: RepoView, title: Seq<char>, completed: bool) -> RecordView {
    RecordView { key: dec_seq(m.next_key), title, completed }
}

/// The state after a save: the row appended, the mapping extended at the
/// hashed id of the fresh key, the counter advanced.
pub open spec fn spec_save(m: RepoView, title: Seq<char>, completed: bool) -> RepoView {
    RepoView {
        records: m.records.push(saved_record(m, title, completed)),
        mapping: m.mapping.insert(synthetic_id_of(dec_seq(m.next_key)), dec_seq(m.next_key)),
        next_key: m.next_key + 1,
    }
}

/// The state after an update: the resolved row overwritten in place;
/// meaningful when the id resolves.
pub open spec fn spec_update(m: RepoView, id: i32, title: Seq<char>, completed: bool) -> RepoView {
    let k = m.mapping[id];
    RepoView {
        records: m.records.update(
            key_index(m.records, k),
            RecordView { key: k, title, completed },
        ),
        mapping: m.mapping,
        next_key: m.next_key,
    }
}

/// The state after a delete: the resolved row and the mapping entry both
/// removed; meaningful when the id resolves.
pub open spec fn spec_delete(m: RepoView, id: i32) -> RepoView {
    let k = m.mapping[id];
    RepoView {
        records: m.records.remove(key_index(m.records, k)),
        mapping: m.mapping.remove(id),
        next_key: m.next_key,
    }
}

/// The mapping a full scan rebuilds: one entry per row, in store order. The
/// scan refuses a colliding pair of rows before this mapping is installed,
/// so no insert here ever overwrites an entry of a different key.
pub open spec fn rebuild_mapping(rs: Seq<RecordView>) -> Map<i32, Seq<char>>
    decreases rs.len(),
{
    if rs.len() == 0 {
        Map::empty()
    } else {
        rebuild_mapping(rs.drop_last()).insert(synthetic_id_of(rs.last().key), rs.last().key)
    }
}

/// No two rows hash to the same synthetic id: the condition under which a
/// full scan can present every row under an id of its own.
pub open spec fn sids_distinct(rs: Seq<RecordView>) -> bool {
    forall|i: int, j: int|
        0 <= i < j < rs.len() ==> #[trigger] synthetic_id_of(rs[i].key)
            != #[trigger] synthetic_id_of(rs[j].key)
}

/// The store's key counter has no key left to issue.
pub open spec fn counter_exhausted(m: RepoView) -> bool {
    m.next_key >= u64::MAX
}

/// The synthetic id of the key the store would issue next is already
/// mapped. The fresh key itself is never mapped (its counter value was
/// never issued), so a taken id means a different native key hashes to it:
/// a collision, which a save refuses rather than silently merges.
pub open spec fn fresh_id_taken(m: RepoView) -> bool {
    m.mapping.contains_key(synthetic_id_of(dec_seq(m.next_key)))
}

/// A rebuilt mapping contains an id exactly when some row's key hashes to
/// it.
pub proof fn lemma_rebuild_domain(rs: Seq<RecordView>)
    ensures
        forall|id: i32| #[trigger]
            rebuild_mapping(rs).contains_key(id) <==> exists|i: int|
                0 <= i < rs.len() && synthetic_id_of((#[trigger] rs[i]).key) == id,
    decreases rs.len(),
{
    if rs.len() > 0 {
        let prefix = rs.drop_last();
        let last = rs.last();
        lemma_rebuild_domain(prefix);
        assert(rebuild_mapping(rs) == rebuild_mapping(prefix).insert(
            synthetic_id_of(last.key),
            last.key,
        ));
        assert forall|id: i32| #[trigger]
            rebuild_mapping(rs).contains_key(id) implies exists|i: int|
            0 <= i < rs.len() && synthetic_id_of((#[trigger] rs[i]).key) == id by {
            if id == synthetic_id_of(last.key) {
                assert(rs[rs.len() - 1] == last);
                assert(synthetic_id_of(rs[rs.len() - 1].key) == id);
            } else {
                assert(rebuild_mapping(prefix).contains_key(id));
                let i = choose|i: int|
                    0 <= i < prefix.len() && synthetic_id_of((#[trigger] prefix[i]).key) == id;
                assert(rs[i] == prefix[i]);
                assert(synthetic_id_of(rs[i].key) == id);
            }
        }
        assert forall|id: i32|
            (exists|i: int|
                0 <= i < rs.len() && synthetic_id_of((#[trigger] rs[i]).key)
                    == id) implies #[trigger] rebuild_mapping(rs).contains_key(id) by {
            let i = choose|i: int|
                0 <= i < rs.len() && synthetic_id_of((#[trigger] rs[i]).key) == id;
            if i == rs.len() - 1 {
                assert(rs[i] == last);
                assert(id == synthetic_id_of(last.key));
            } else {
                assert(prefix[i] == rs[i]);
                assert(synthetic_id_of(prefix[i].key) == id);
                assert(rebuild_mapping(prefix).contains_key(id));
            }
        }
    }
}

/// With unique keys, the looked-up index of a present key is the index it
/// stands at.
pub proof fn lemma_key_index_unique(rs: Seq<RecordView>, k: Seq<char>, i: int)
    requires
        forall|p: int, q: int|
            0 <= p < rs.len() && 0 <= q < rs.len() && (#[trigger] rs[p]).key == (
            #[trigger] rs[q]).key ==> p == q,
        0 <= i < rs.len(),
        rs[i].key == k,
    ensures
        key_index(rs, k) == i,
        has_key(rs, k),
{
    assert(has_key(rs, k));
    let j = key_index(rs, k);
    assert(0 <= j < rs.len() && rs[j].key == k);
}

/// A key issued below one bound is issued below any larger bound.
proof fn lemma_key_issued_mono(k: Seq<char>, b1: nat, b2: nat)
    requires
        key_issued(k, b1),
        b1 <= b2,
    ensures
        key_issued(k, b2),
{
    let n = choose|n: nat| n < b1 && k == dec_seq(n);
    assert(n < b2 && k == dec_seq(n));
}

/// The key the counter issues next is carried by no existing row.
proof fn lemma_fresh_key(m: RepoView)
    requires
        wf(m),
    ensures
        forall|i: int| 0 <= i < m.records.len() ==> (#[trigger] m.records[i]).key != dec_seq(
            m.next_key,
        ),
{
    assert forall|i: int|
        0 <= i < m.records.len() implies (#[trigger] m.records[i]).key != dec_seq(m.next_key) by {
        if m.records[i].key == dec_seq(m.next_key) {
            let n = choose|n: nat| n < m.next_key && m.records[i].key == dec_seq(n);
            lemma_dec_seq_injective(n, m.next_key);
        }
    }
}

/// A save preserves the repository invariant: the appended row carries a
/// fresh key, and the new mapping entry holds the id that key hashes to.
pub proof fn lemma_save_preserves_wf(m: RepoView, title: Seq<char>, completed: bool)
    requires
        wf(m),
    ensures
        wf(spec_save(m, title, completed)),
{
    let m2 = spec_save(m, title, completed);
    let newkey = dec_seq(m.next_key);
    lemma_fresh_key(m);
    assert forall|i: int|
        0 <= i < m2.records.len() implies key_issued((#[trigger] m2.records[i]).key, m2.next_key) by {
        if i < m.records.len() {
            lemma_key_issued_mono(m.records[i].key, m.next_key, m2.next_key);
        } else {
            assert(m2.records[i].key == newkey);
            assert(m.next_key < m2.next_key && newkey == dec_seq(m.next_key));
        }
    }
    assert forall|id: i32| #[trigger]
        m2.mapping.contains_key(id) implies id == synthetic_id_of(m2.mapping[id]) && has_key(
        m2.records,
        m2.mapping[id],
    ) by {
        if id == synthetic_id_of(newkey) {
            assert(m2.mapping[id] == newkey);
            assert(m2.records[m.records.len() as int].key == newkey);
        } else {
            assert(m.mapping.contains_key(id));
            let k = m.mapping[id];
            let i = choose|i: int| 0 <= i < m.records.len() && (#[trigger] m.records[i]).key == k;
            assert(m2.records[i].key == k);
        }
    }
}

/// An update preserves the repository invariant: it overwrites one row in
/// place and keeps every key where it was.
pub proof fn lemma_update_preserves_wf(m: RepoView, id: i32, title: Seq<char>, completed: bool)
    requires
        wf(m),
        m.mapping.contains_key(id),
    ensures
        wf(spec_update(m, id, title, completed)),
{
    let m2 = spec_update(m, id, title, completed);
    let k = m.mapping[id];
    let i = key_index(m.records, k);
    assert(0 <= i < m.records.len() && m.records[i].key == k);
    assert forall|p: int|
        0 <= p < m2.records.len() implies (#[trigger] m2.records[p]).key == m.records[p].key by {}
    assert forall|id2: i32| #[trigger]
        m2.mapping.contains_key(id2) implies id2 == synthetic_id_of(m2.mapping[id2]) && has_key(
        m2.records,
        m2.mapping[id2],
    ) by {
        let k2 = m.mapping[id2];
        let i2 = choose|j: int| 0 <= j < m.records.len() && (#[trigger] m.records[j]).key == k2;
        assert(m2.records[i2].key == k2);
    }
}

/// A delete preserves the repository invariant: the removed row's key was
/// the one the removed mapping entry held, and every other mapping entry
/// still points at a live row.
pub proof fn lemma_delete_preserves_wf(m: RepoView, id: i32)
    requires
        wf(m),
        m.mapping.contains_key(id),
    ensures
        wf(spec_delete(m, id)),
{
    let m2 = spec_delete(m, id);
    let k = m.mapping[id];
    let i = key_index(m.records, k);
    assert(0 <= i < m.records.len() && m.records[i].key == k);
    m.records.remove_ensures(i);
    assert forall|p: int, q: int|
        0 <= p < m2.records.len() && 0 <= q < m2.records.len() && (#[trigger] m2.records[p]).key
            == (#[trigger] m2.records[q]).key implies p == q by {
        let p0 = if p < i { p } else { p + 1 };
        let q0 = if q < i { q } else { q + 1 };
        assert(m2.records[p].key == m.records[p0].key);
        assert(m2.records[q].key == m.records[q0].key);
    }
    assert forall|p: int|
        0 <= p < m2.records.len() implies key_issued((#[trigger] m2.records[p]).key, m2.next_key) by {
        let p0 = if p < i { p } else { p + 1 };
        assert(m2.records[p].key == m.records[p0].key);
    }
    assert forall|id2: i32| #[trigger]
        m2.mapping.contains_key(id2) implies id2 == synthetic_id_of(m2.mapping[id2]) && has_key(
        m2.records,
        m2.mapping[id2],
    ) by {
        assert(id2 != id);
        assert(m.mapping.contains_key(id2));
        let k2 = m.mapping[id2];
        assert(id2 == synthetic_id_of(k2));
        if k2 == k {
            assert(id2 == id);
        }
        let i2 = choose|j: int| 0 <= j < m.records.len() && (#[trigger] m.records[j]).key == k2;
        assert(i2 != i);
        if i2 < i {
            assert(m2.records[i2].key == k2);
        } else {
            assert(m2.records[i2 - 1].key == k2);
        }
    }
}

/// Every entry of a rebuilt mapping holds the id its key hashes to and
/// points at a live row.
pub proof fn lemma_rebuild_sound(rs: Seq<RecordView>)
    ensures
        forall|id: i32| #[trigger]
            rebuild_mapping(rs).contains_key(id) ==> id == synthetic_id_of(
                rebuild_mapping(rs)[id],
            ) && has_key(rs, rebuild_mapping(rs)[id]),
    decreases rs.len(),
{
    if rs.len() > 0 {
        let prefix = rs.drop_last();
        lemma_rebuild_sound(prefix);
        assert forall|id: i32| #[trigger]
            rebuild_mapping(rs).contains_key(id) implies id == synthetic_id_of(
            rebuild_mapping(rs)[id],
        ) && has_key(rs, rebuild_mapping(rs)[id]) by {
            if id == synthetic_id_of(rs.last().key) {
                assert(rebuild_mapping(rs)[id] == rs.last().key);
                assert(rs[rs.len() - 1].key == rs.last().key);
            } else {
                assert(rebuild_mapping(prefix).contains_key(id));
                let k = rebuild_mapping(prefix)[id];
                let i = choose|i: int| 0 <= i < prefix.len() && (#[trigger] prefix[i]).key == k;
                assert(rs[i].key == k);
            }
        }
    }
}

/// The abstract repository contract the service depends on: list, fetch,
/// persist, overwrite and remove entities, over a state whose mathematical
/// image is a `RepoView`. Absence of an id is reported as an absent value
/// or a storage-level fault, never as a domain not-found; the caller
/// excludes absence beforehand where an operation demands presence.
pub trait TodoRepository: View<V = RepoView> + Sized {
    /// List every entity in store order, rebuilding the synthetic-id
    /// mapping from the scan. Two rows hashing to the same synthetic id
    /// are a storage fault, reported with nothing changed: a scan never
    /// silently shadows a row behind another's id.
    fn find_all(&mut self) -> (r: Result<Vec<Todo>, TodoError>)
        requires
            wf(old(self)@),
        ensures
            wf(final(self)@),
            final(self)@.records == old(self)@.records,
            final(self)@.next_key == old(self)@.next_key,
            match r {
                Ok(v) => sids_distinct(old(self)@.records) && final(self)@.mapping
                    == rebuild_mapping(old(self)@.records) && v@.len()
                    == old(self)@.records.len() && (forall|i: int|
                    0 <= i < v@.len() ==> (#[trigger] v@[i])@ == todo_of_record(
                        old(self)@.records[i],
                    )),
                Err(e) => !sids_distinct(old(self)@.records) && e == TodoError::Storage
                    && final(self)@ == old(self)@,
            },
    ;

    /// Fetch one entity by synthetic id; an id the mapping does not know
    /// is absent.
    fn find_by_id(&self, id: i32) -> (r: Result<Option<Todo>, TodoError>)
        requires
            wf(self@),
        ensures
            match (r, spec_find(self@, id)) {
                (Ok(Some(t)), Some(v)) => t@ == v,
                (Ok(None), None) => true,
                _ => false,
            },
    ;

    /// Persist a new entity under a fresh store-issued key and answer with
    /// it, carrying its synthetic id. A fresh key whose synthetic id is
    /// already mapped — necessarily by a different, colliding native key —
    /// is a storage fault, reported with nothing changed; so is an
    /// exhausted key counter.
    fn save(&mut self, todo: &Todo) -> (r: Result<Todo, TodoError>)
        requires
            wf(old(self)@),
        ensures
            wf(final(self)@),
            match r {
                Ok(t) => !counter_exhausted(old(self)@) && !fresh_id_taken(old(self)@)
                    && final(self)@ == spec_save(old(self)@, todo@.title, todo@.completed) && t@
                    == todo_of_record(saved_record(old(self)@, todo@.title, todo@.completed)),
                Err(e) => (counter_exhausted(old(self)@) || fresh_id_taken(old(self)@)) && e
                    == TodoError::Storage && final(self)@ == old(self)@,
            },
    ;

    /// Overwrite the entity an id resolves to; an entity without an id or
    /// an unresolvable id is a storage-level fault.
    fn update(&mut self, todo: &Todo) -> (r: Result<Todo, TodoError>)
        requires
            wf(old(self)@),
        ensures
            wf(final(self)@),
            match todo@.id {
                None => final(self)@ == old(self)@ && (r matches Err(e) && e
                    == TodoError::Storage),
                Some(id) => match spec_resolve(old(self)@, id) {
                    None => final(self)@ == old(self)@ && (r matches Err(e) && e
                        == TodoError::Storage),
                    Some(k) => final(self)@ == spec_update(
                        old(self)@,
                        id,
                        todo@.title,
                        todo@.completed,
                    ) && (r matches Ok(t) && t@ == (TodoView {
                        id: Some(id),
                        title: todo@.title,
                        completed: todo@.completed,
                    })),
                },
            },
    ;

    /// Remove the entity an id resolves to, and the id's mapping entry; an
    /// unresolvable id is a storage-level fault.
    fn delete(&mut self, id: i32) -> (r: Result<(), TodoError>)
        requires
            wf(old(self)@),
        ensures
            wf(final(self)@),
            match spec_resolve(old(self)@, id) {
                None => final(self)@ == old(self)@ && (r matches Err(e) && e
                    == TodoError::Storage),
                Some(k) => final(self)@ == spec_delete(old(self)@, id) && r matches Ok(_),
            },
    ;
}

/// The repository over an in-memory store.
pub struct TodoRepositoryImpl {
    records: Vec<StoredRecord>,
    id_mapping: HashMapWithView<i32, String>,
    next_key: u64,
}

impl View for TodoRepositoryImpl {
    type V = RepoView;

    closed spec fn view(&self) -> RepoView {
        RepoView {
            records: self.records@.map_values(|r: StoredRecord| r@),
            mapping: self.id_mapping@.map_values(|s: String| s@),
            next_key: self.next_key as nat,
        }
    }
}

impl TodoRepositoryImpl {
    /// A repository over an empty store: no rows, no mapping entries.
    pub fn new() -> (r: TodoRepositoryImpl)
        ensures
            r@.records == Seq::<RecordView>::empty(),
            r@.mapping == Map::<i32, Seq<char>>::empty(),
            r@.next_key == 0,
            wf(r@),
    {
        let r = TodoRepositoryImpl {
            records: Vec::new(),
            id_mapping: HashMapWithView::new(),
            next_key: 0,
        };
        proof {
            assert(r@.records =~= Seq::<RecordView>::empty());
            assert(r@.mapping =~= Map::<i32, Seq<char>>::empty());
        }
        r
    }

    /// The index of the row carrying this native key, by linear search.
    fn index_of_key(&self, key: &String) -> (r: Option<usize>)
        ensures
            match r {
                Some(i) => i < self@.records.len() && self@.records[i as int].key == key@,
                None => !has_key(self@.records, key@),
            },
    {
        let n = self.records.len();
        let mut i: usize = 0;
        while i < n
            invariant
                0 <= i <= n,
                n == self@.records.len(),
                forall|k: int| 0 <= k < i ==> (#[trigger] self@.records[k]).key != key@,
            decreases n - i,
        {
            if self.records[i].key == *key {
                return Some(i);
            }
            i = i + 1;
        }
        None
    }
}

impl TodoRepository for TodoRepositoryImpl {
    /// Look up by synthetic id: resolve through the mapping, then fetch the
    /// row by native key.
    fn find_by_id(&self, id: i32) -> (r: Result<Option<Todo>, TodoError>) {
        match self.id_mapping.get(&id) {
            None => Ok(None),
            Some(key) => {
                proof {
                    assert(self@.mapping.contains_key(id));
                    assert(self@.mapping[id] == key@);
                    assert(has_key(self@.records, key@));
                }
                match self.index_of_key(key) {
                    Some(i) => {
                        let sid = synthetic_id(self.records[i].key.as_str());
                        let title = self.records[i].title.clone();
                        let completed = self.records[i].completed;
                        proof {
                            lemma_key_index_unique(self@.records, key@, i as int);
                        }
                        Ok(Some(Todo::reconstruct(sid, title, completed)))
                    },
                    None => {
                        // unreachable: a mapping entry always points at a
                        // live row, so the search cannot miss
                        Ok(None)
                    },
                }
            },
        }
    }

    /// Persist a new row: the store issues a fresh native key, the mapping
    /// gains the hashed synthetic id at once, and the saved entity comes
    /// back carrying that id. Any id already on the entity is ignored; the
    /// store assigns its own. A hash collision with a mapped key is
    /// refused before anything changes.
    fn save(&mut self, todo: &Todo) -> (r: Result<Todo, TodoError>) {
        if self.next_key == u64::MAX {
            return Err(TodoError::Storage);
        }
        let key_num = self.next_key;
        let key = decimal_string(key_num);
        let sid = synthetic_id(key.as_str());
        if self.id_mapping.contains_key(&sid) {
            proof {
                assert(self@.mapping.contains_key(sid));
            }
            return Err(TodoError::Storage);
        }
        proof {
            assert(!self@.mapping.contains_key(sid));
        }
        let rec = StoredRecord {
            key: key.clone(),
            title: String::from_str(todo.title()),
            completed: todo.is_completed(),
        };
        self.records.push(rec);
        self.id_mapping.insert(sid, key);
        self.next_key = key_num + 1;
        proof {
            let m = old(self)@;
            let newrec = saved_record(m, todo@.title, todo@.completed);
            assert(self@.records =~= m.records.push(newrec));
            assert(self@.mapping =~= m.mapping.insert(
                synthetic_id_of(dec_seq(m.next_key)),
                dec_seq(m.next_key),
            ));
            assert(self@ =~= spec_save(m, todo@.title, todo@.completed));
            lemma_save_preserves_wf(m, todo@.title, todo@.completed);
        }
        Ok(Todo::reconstruct(sid, String::from_str(todo.title()), todo.is_completed()))
    }

    /// Overwrite the row an entity's id resolves to.
    fn update(&mut self, todo: &Todo) -> (r: Result<Todo, TodoError>) {
        let id = match todo.id() {
            None => {
                return Err(TodoError::Storage);
            },
            Some(id) => id,
        };
        let key = match self.id_mapping.get(&id) {
            None => {
                return Err(TodoError::Storage);
            },
            Some(k) => k.clone(),
        };
        proof {
            assert(self@.mapping.contains_key(id));
            assert(self@.mapping[id] == key@);
            assert(has_key(self@.records, key@));
        }
        let idx = match self.index_of_key(&key) {
            Some(i) => i,
            None => {
                // unreachable: the mapping entry points at a live row
                return Err(TodoError::Storage);
            },
        };
        let new_rec = StoredRecord {
            key,
            title: String::from_str(todo.title()),
            completed: todo.is_completed(),
        };
        proof {
            lemma_key_index_unique(old(self)@.records, new_rec.key@, idx as int);
        }
        self.records[idx] = new_rec;
        proof {
            let m = old(self)@;
            assert(self@.records =~= m.records.update(
                key_index(m.records, m.mapping[id]),
                RecordView { key: m.mapping[id], title: todo@.title, completed: todo@.completed },
            ));
            assert(self@.mapping =~= m.mapping);
            assert(self@ =~= spec_update(m, id, todo@.title, todo@.completed));
            lemma_update_preserves_wf(m, id, todo@.title, todo@.completed);
            assert(id == synthetic_id_of(m.mapping[id]));
        }
        Ok(Todo::reconstruct(id, String::from_str(todo.title()), todo.is_completed()))
    }

    /// Remove the row a synthetic id resolves to, and its mapping entry.
    fn delete(&mut self, id: i32) -> (r: Result<(), TodoError>) {
        let key = match self.id_mapping.get(&id) {
            None => {
                return Err(TodoError::Storage);
            },
            Some(k) => k.clone(),
        };
        proof {
            assert(self@.mapping.contains_key(id));
            assert(self@.mapping[id] == key@);
            assert(has_key(self@.records, key@));
        }
        let idx = match self.index_of_key(&key) {
            Some(i) => i,
            None => {
                // unreachable: the mapping entry points at a live row
                return Err(TodoError::Storage);
            },
        };
        proof {
            lemma_key_index_unique(old(self)@.records, key@, idx as int);
        }
        self.records.remove(idx);
        self.id_mapping.remove(&id);
        proof {
            let m = old(self)@;
            assert(self@.records =~= m.records.remove(key_index(m.records, m.mapping[id])));
            assert(self@.mapping =~= m.mapping.remove(id));
            assert(self@ =~= spec_delete(m, id));
            lemma_delete_preserves_wf(m, id);
        }
        Ok(())
    }

    /// List every row in store order, rebuilding the synthetic-id mapping
    /// from scratch as the scan goes. The replacement mapping is built
    /// aside and only installed once the whole scan is through, so a
    /// colliding pair of rows leaves the repository exactly as it was.
    fn find_all(&mut self) -> (r: Result<Vec<Todo>, TodoError>) {
        let mut fresh_mapping: HashMapWithView<i32, String> = HashMapWithView::new();
        proof {
            assert(self@.records.take(0) =~= Seq::<RecordView>::empty());
            assert(fresh_mapping@.map_values(|s: String| s@) =~= rebuild_mapping(
                self@.records.take(0),
            ));
        }
        let mut out: Vec<Todo> = Vec::new();
        let n = self.records.len();
        let mut i: usize = 0;
        while i < n
            invariant
                0 <= i <= n,
                n == self@.records.len(),
                self@ == old(self)@,
                wf(old(self)@),
                fresh_mapping@.map_values(|s: String| s@) == rebuild_mapping(
                    self@.records.take(i as int),
                ),
                sids_distinct(self@.records.take(i as int)),
                out@.len() == i,
                forall|k: int|
                    0 <= k < i ==> (#[trigger] out@[k])@ == todo_of_record(self@.records[k]),
            decreases n - i,
        {
            let key = self.records[i].key.clone();
            let sid = synthetic_id(key.as_str());
            if fresh_mapping.contains_key(&sid) {
                proof {
                    let rs = self@.records;
                    let prefix = rs.take(i as int);
                    lemma_rebuild_domain(prefix);
                    assert(rebuild_mapping(prefix).contains_key(sid));
                    let j = choose|j: int|
                        0 <= j < prefix.len() && synthetic_id_of((#[trigger] prefix[j]).key)
                            == sid;
                    assert(synthetic_id_of(rs[j].key) == synthetic_id_of(rs[i as int].key));
                    assert(!sids_distinct(rs));
                }
                return Err(TodoError::Storage);
            }
            let title = self.records[i].title.clone();
            let completed = self.records[i].completed;
            fresh_mapping.insert(sid, key);
            out.push(Todo::reconstruct(sid, title, completed));
            proof {
                let rs = self@.records;
                let t = rs.take(i + 1);
                assert(t.drop_last() =~= rs.take(i as int));
                assert(t.last() == rs[i as int]);
                assert(fresh_mapping@.map_values(|s: String| s@) =~= rebuild_mapping(
                    rs.take(i as int),
                ).insert(synthetic_id_of(rs[i as int].key), rs[i as int].key));
                let prefix = rs.take(i as int);
                lemma_rebuild_domain(prefix);
                assert forall|p: int, q: int|
                    0 <= p < q < t.len() implies #[trigger] synthetic_id_of(t[p].key)
                    != #[trigger] synthetic_id_of(t[q].key) by {
                    assert(t[p] == rs[p]);
                    assert(t[q] == rs[q]);
                    if q == t.len() - 1 {
                        assert(prefix[p] == rs[p]);
                        assert(synthetic_id_of(prefix[p].key) == synthetic_id_of(t[p].key));
                        assert(rebuild_mapping(prefix).contains_key(
                            synthetic_id_of(prefix[p].key),
                        ));
                        assert(!rebuild_mapping(prefix).contains_key(
                            synthetic_id_of(t[q].key),
                        ));
                    } else {
                        assert(prefix[p] == rs[p]);
                        assert(prefix[q] == rs[q]);
                        assert(synthetic_id_of(prefix[p].key) != synthetic_id_of(prefix[q].key));
                    }
                }
            }
            i = i + 1;
        }
        self.id_mapping = fresh_mapping;
        proof {
            assert(self@.records.take(n as int) =~= self@.records);
            lemma_rebuild_sound(self@.records);
        }
        Ok(out)
    }
}

} // verus!
