use vstd::prelude::*;

use crate::entity::{record_view, record_views, Entity, EntityView};

verus! {

/// What a store holds: for each key, its list of records. A key that was never
/// written, or whose list was deleted, maps to the empty list.
pub type StoreView = Map<Seq<char>, Seq<Option<EntityView>>>;

/// The list stored under `key`; absence is the empty list.
pub open spec fn stored(s: StoreView, key: Seq<char>) -> Seq<Option<EntityView>> {
    if s.contains_key(key) {
        s[key]
    } else {
        Seq::empty()
    }
}

/// A store in which every key holds the empty list.
pub open spec fn empty_store() -> StoreView {
    Map::total(|k: Seq<char>| Seq::<Option<EntityView>>::empty())
}

/// `s` with the list under `key` replaced by `records`.
pub open spec fn replaced(s: StoreView, key: Seq<char>, records: Seq<Option<EntityView>>) -> StoreView {
    s.insert(key, records)
}

/// One key of the store and the records under it.
struct QueueEntry {
    key: String,
    records: Vec<Option<Entity>>,
}

/// An in-memory list store: ordered lists of records under string keys.
pub struct QueueStore {
    entries: Vec<QueueEntry>,
}

impl QueueStore {
    /// Each key appears in at most one entry.
    pub closed spec fn well_formed(&self) -> bool {
        forall|i: int, j: int|
            0 <= i < j < self.entries@.len() ==> self.entries@[i].key@
                != self.entries@[j].key@
    }

    closed spec fn holds_key(&self, key: Seq<char>) -> bool {
        exists|i: int| 0 <= i < self.entries@.len() && self.entries@[i].key@ == key
    }

    closed spec fn list_at(&self, key: Seq<char>) -> Seq<Option<EntityView>> {
        if self.holds_key(key) {
            let i = choose|i: int| 0 <= i < self.entries@.len() && self.entries@[i].key@ == key;
            record_views(self.entries@[i].records@)
        } else {
            Seq::empty()
        }
    }

    /// The list under every key.
    pub closed spec fn view(&self) -> StoreView {
        Map::total(|k: Seq<char>| self.list_at(k))
    }

    proof fn lemma_list_at_index(&self, i: int)
        requires
            self.well_formed(),
            0 <= i < self.entries@.len(),
        ensures
            self.list_at(self.entries@[i].key@) == record_views(self.entries@[i].records@),
    {
        let key = self.entries@[i].key@;
        assert(self.holds_key(key));
        let j = choose|j: int| 0 <= j < self.entries@.len() && self.entries@[j].key@ == key;
        assert(j == i);
    }

    /// An empty store.
    pub fn new() -> (r: QueueStore)
        ensures
            r.well_formed(),
            r.view() == empty_store(),
    {
        let r = QueueStore { entries: Vec::new() };
        assert(r.view() =~= empty_store());
        r
    }

    fn find(&self, key: &String) -> (r: Option<usize>)
        requires
            self.well_formed(),
        ensures
            match r {
                Some(i) => i < self.entries@.len() && self.entries@[i as int].key@ == key@,
                None => !self.holds_key(key@),
            },
    {
        let mut i: usize = 0;
        while i < self.entries.len()
            invariant
                i <= self.entries@.len(),
                forall|j: int| 0 <= j < i ==> self.entries@[j].key@ != key@,
            decreases self.entries@.len() - i,
        {
            if self.entries[i].key == *key {
                return Some(i);
            }
            i = i + 1;
        }
        None
    }

    /// All records under `key`, in stored order; the empty list for an absent key.
    pub fn read_all(&self, key: &String) -> (r: Vec<Option<Entity>>)
        requires
            self.well_formed(),
        ensures
            record_views(r@) == stored(self.view(), key@),
    {
        match self.find(key) {
            Some(i) => {
                proof {
                    self.lemma_list_at_index(i as int);
                }
                let src = &self.entries[i].records;
                let mut out: Vec<Option<Entity>> = Vec::new();
                let mut j: usize = 0;
                while j < src.len()
                    invariant
                        j <= src@.len(),
                        record_views(out@) =~= record_views(src@).take(j as int),
                    decreases src@.len() - j,
                {
                    let item = match &src[j] {
                        Some(e) => Some(e.duplicate()),
                        None => None,
                    };
                    assert(record_view(item) == record_view(src@[j as int]));
                    out.push(item);
                    assert(record_views(src@).take(j + 1) =~= record_views(src@).take(j as int).push(record_view(src@[j as int])));
                    j = j + 1;
                }
                proof {
                    assert(record_views(src@).take(j as int) =~= record_views(src@));
                }
                out
            },
            None => Vec::new(),
        }
    }

    /// Replaces the list under `key` by `records`. An empty `records` leaves
    /// the key absent.
    pub fn replace_all(&mut self, key: String, records: Vec<Option<Entity>>)
        requires
            old(self).well_formed(),
        ensures
            final(self).well_formed(),
            final(self).view() == replaced(old(self).view(), key@, record_views(records@)),
    {
        let ghost pre = self.view();
        match self.find(&key) {
            Some(i) => {
                let ghost old_entries = self.entries@;
                let ghost removed_key = self.entries@[i as int].key@;
                self.entries.remove(i);
                if records.len() > 0 {
                    self.entries.push(QueueEntry { key, records });
                }
                proof {
                    let n = self.entries@.len();
                    assert forall|k: Seq<char>| #[trigger] self.list_at(k) == replaced(pre, removed_key, record_views(records@))[k] by {
                        if k == removed_key {
                            if records@.len() > 0 {
                                self.lemma_list_at_index(n - 1);
                            } else {
                                if self.holds_key(k) {
                                    let j = choose|j: int| 0 <= j < n && self.entries@[j].key@ == k;
                                    if j < i {
                                        assert(old_entries[j].key@ == k);
                                    } else {
                                        assert(old_entries[j + 1].key@ == k);
                                    }
                                }
                                assert(record_views(records@) =~= Seq::<Option<EntityView>>::empty());
                            }
                        } else {
                            if self.holds_key(k) {
                                let j = choose|j: int| 0 <= j < n && self.entries@[j].key@ == k;
                                self.lemma_list_at_index(j);
                                let oj = if j < i { j } else { j + 1 };
                                assert(old_entries[oj] == self.entries@[j]);
                                old(self).lemma_list_at_index(oj);
                            } else {
                                if old(self).holds_key(k) {
                                    let oj = choose|oj: int| 0 <= oj < old_entries.len() && old_entries[oj].key@ == k;
                                    if oj < i {
                                        assert(self.entries@[oj] == old_entries[oj]);
                                    } else {
                                        assert(self.entries@[oj - 1] == old_entries[oj]);
                                    }
                                }
                            }
                        }
                    }
                    assert(self.view() =~= replaced(pre, key@, record_views(records@)));
                }
            },
            None => {
                let ghost old_entries = self.entries@;
                let ghost k0 = key@;
                if records.len() > 0 {
                    self.entries.push(QueueEntry { key, records });
                }
                proof {
                    let n = self.entries@.len();
                    assert forall|k: Seq<char>| #[trigger] self.list_at(k) == replaced(pre, k0, record_views(records@))[k] by {
                        if k == k0 {
                            if records@.len() > 0 {
                                self.lemma_list_at_index(n - 1);
                            } else {
                                assert(record_views(records@) =~= Seq::<Option<EntityView>>::empty());
                            }
                        } else {
                            if self.holds_key(k) {
                                let j = choose|j: int| 0 <= j < n && self.entries@[j].key@ == k;
                                self.lemma_list_at_index(j);
                                assert(old_entries[j] == self.entries@[j]);
                                old(self).lemma_list_at_index(j);
                            } else {
                                if old(self).holds_key(k) {
                                    let oj = choose|oj: int| 0 <= oj < old_entries.len() && old_entries[oj].key@ == k;
                                    assert(self.entries@[oj] == old_entries[oj]);
                                }
                            }
                        }
                    }
                    assert(self.view() =~= replaced(pre, k0, record_views(records@)));
                }
            },
        }
    }
}

} // verus!
