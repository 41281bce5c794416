//! The document store: the authoritative mapping from document id to
//! document.  Every operation appears atomic; a caller that needs the store
//! shared between tasks puts it behind one mutual-exclusion lock and holds
//! the lock only for the call itself.
//!
//! The store is an association list with unique keys; its mathematical value
//! is the map [`map_of`] builds from the entries.

use vstd::prelude::*;
use vstd::pervasive::VecAdditionalExecFns;

use crate::error::StoreError;
use crate::model::{Document, DocumentView};

verus! {

/// The map an entry list denotes: a later entry with the same id wins.
pub open spec fn map_of(s: Seq<(Seq<char>, DocumentView)>) -> Map<Seq<char>, DocumentView>
    decreases s.len(),
{
    if s.len() == 0 {
        Map::empty()
    } else {
        map_of(s.drop_last()).insert(s.last().0, s.last().1)
    }
}

/// Entry keys are pairwise distinct.
pub open spec fn unique_keys(s: Seq<(Seq<char>, DocumentView)>) -> bool {
    forall|i: int, j: int| 0 <= i < j < s.len() ==> (#[trigger] s[i]).0 != (#[trigger] s[j]).0
}

/// What one delete call returns and leaves behind: the map without the id,
/// and whether anything was removed.
pub open spec fn spec_delete(m: Map<Seq<char>, DocumentView>, id: Seq<char>) -> (
    Map<Seq<char>, DocumentView>,
    bool,
) {
    if m.contains_key(id) {
        (m.remove(id), true)
    } else {
        (m, false)
    }
}

/// Inserting the entries of `s` into `m`, first to last.
pub open spec fn insert_all(
    m: Map<Seq<char>, DocumentView>,
    s: Seq<(Seq<char>, DocumentView)>,
) -> Map<Seq<char>, DocumentView>
    decreases s.len(),
{
    if s.len() == 0 {
        m
    } else {
        insert_all(m.insert(s[0].0, s[0].1), s.drop_first())
    }
}

pub proof fn lemma_map_of_contains(s: Seq<(Seq<char>, DocumentView)>, k: Seq<char>)
    ensures
        map_of(s).contains_key(k) <==> exists|i: int| 0 <= i < s.len() && (#[trigger] s[i]).0 == k,
    decreases s.len(),
{
    if s.len() == 0 {
    } else {
        lemma_map_of_contains(s.drop_last(), k);
        if map_of(s).contains_key(k) {
            if s.last().0 != k {
                let i = choose|i: int|
                    0 <= i < s.drop_last().len() && (#[trigger] s.drop_last()[i]).0 == k;
                assert(s[i].0 == k);
            } else {
                assert(s[s.len() - 1].0 == k);
            }
        }
        if exists|i: int| 0 <= i < s.len() && (#[trigger] s[i]).0 == k {
            let i = choose|i: int| 0 <= i < s.len() && (#[trigger] s[i]).0 == k;
            if i < s.len() - 1 {
                assert(s.drop_last()[i].0 == k);
            }
        }
    }
}

pub proof fn lemma_map_of_index(s: Seq<(Seq<char>, DocumentView)>, i: int)
    requires
        unique_keys(s),
        0 <= i < s.len(),
    ensures
        map_of(s).contains_key(s[i].0),
        map_of(s)[s[i].0] == s[i].1,
    decreases s.len(),
{
    if i == s.len() - 1 {
        assert(s.last() == s[i]);
    } else {
        assert(unique_keys(s.drop_last())) by {
            assert(forall|x: int, y: int|
                0 <= x < y < s.drop_last().len() ==> (#[trigger] s.drop_last()[x]).0 != (
                #[trigger] s.drop_last()[y]).0);
        }
        lemma_map_of_index(s.drop_last(), i);
        assert(s.drop_last()[i] == s[i]);
        assert(s[i].0 != s.last().0);
    }
}

pub proof fn lemma_map_of_update(s: Seq<(Seq<char>, DocumentView)>, i: int, d: DocumentView)
    requires
        unique_keys(s),
        0 <= i < s.len(),
    ensures
        map_of(s.update(i, (s[i].0, d))) == map_of(s).insert(s[i].0, d),
        unique_keys(s.update(i, (s[i].0, d))),
    decreases s.len(),
{
    let k = s[i].0;
    let t = s.update(i, (k, d));
    assert(unique_keys(t)) by {
        assert(forall|x: int| 0 <= x < s.len() ==> (#[trigger] t[x]).0 == s[x].0);
    }
    if i == s.len() - 1 {
        assert(t.drop_last() =~= s.drop_last());
        assert(t.last() == (k, d));
        assert(map_of(t) == map_of(s.drop_last()).insert(k, d));
        assert(map_of(s) == map_of(s.drop_last()).insert(k, s[i].1));
        assert(map_of(s).insert(k, d) =~= map_of(s.drop_last()).insert(k, d));
    } else {
        assert(unique_keys(s.drop_last())) by {
            assert(forall|x: int, y: int|
                0 <= x < y < s.drop_last().len() ==> (#[trigger] s.drop_last()[x]).0 != (
                #[trigger] s.drop_last()[y]).0);
        }
        assert(t.drop_last() =~= s.drop_last().update(i, (k, d)));
        assert(s.drop_last()[i] == s[i]);
        lemma_map_of_update(s.drop_last(), i, d);
        assert(t.last() == s.last());
        assert(k != s.last().0);
        assert(map_of(t) == map_of(s.drop_last()).insert(k, d).insert(s.last().0, s.last().1));
        assert(map_of(s.drop_last()).insert(k, d).insert(s.last().0, s.last().1) =~= map_of(
            s.drop_last(),
        ).insert(s.last().0, s.last().1).insert(k, d));
    }
}

pub proof fn lemma_map_of_push(s: Seq<(Seq<char>, DocumentView)>, k: Seq<char>, d: DocumentView)
    ensures
        map_of(s.push((k, d))) == map_of(s).insert(k, d),
{
    assert(s.push((k, d)).drop_last() =~= s);
    assert(s.push((k, d)).last() == (k, d));
}

pub proof fn lemma_map_of_remove(s: Seq<(Seq<char>, DocumentView)>, i: int)
    requires
        unique_keys(s),
        0 <= i < s.len(),
    ensures
        map_of(s.remove(i)) == map_of(s).remove(s[i].0),
        unique_keys(s.remove(i)),
    decreases s.len(),
{
    let k = s[i].0;
    let t = s.remove(i);
    assert(unique_keys(t)) by {
        assert(forall|x: int|
            0 <= x < t.len() ==> (#[trigger] t[x]) == (if x < i {
                s[x]
            } else {
                s[x + 1]
            }));
    }
    assert(unique_keys(s.drop_last())) by {
        assert(forall|x: int, y: int|
            0 <= x < y < s.drop_last().len() ==> (#[trigger] s.drop_last()[x]).0 != (
            #[trigger] s.drop_last()[y]).0);
    }
    if i == s.len() - 1 {
        assert(t =~= s.drop_last());
        lemma_map_of_contains(s.drop_last(), k);
        assert(forall|x: int|
            0 <= x < s.drop_last().len() ==> (#[trigger] s.drop_last()[x]).0 != k);
        assert(!map_of(s.drop_last()).contains_key(k));
        assert(map_of(s.drop_last()) =~= map_of(s.drop_last()).insert(k, s[i].1).remove(k));
    } else {
        assert(t.drop_last() =~= s.drop_last().remove(i));
        assert(s.drop_last()[i] == s[i]);
        lemma_map_of_remove(s.drop_last(), i);
        assert(t.last() == s.last());
        assert(k != s.last().0);
        assert(map_of(t) == map_of(s.drop_last()).remove(k).insert(s.last().0, s.last().1));
        assert(map_of(s.drop_last()).remove(k).insert(s.last().0, s.last().1) =~= map_of(
            s.drop_last(),
        ).insert(s.last().0, s.last().1).remove(k));
    }
}

/// With unique keys the map is as large as the entry list: nothing collapses.
pub proof fn lemma_map_of_len(s: Seq<(Seq<char>, DocumentView)>)
    requires
        unique_keys(s),
    ensures
        map_of(s).dom().len() == s.len(),
        map_of(s).dom().finite(),
    decreases s.len(),
{
    if s.len() == 0 {
        assert(map_of(s).dom() =~= Set::<Seq<char>>::empty());
    } else {
        assert(unique_keys(s.drop_last())) by {
            assert(forall|x: int, y: int|
                0 <= x < y < s.drop_last().len() ==> (#[trigger] s.drop_last()[x]).0 != (
                #[trigger] s.drop_last()[y]).0);
        }
        lemma_map_of_len(s.drop_last());
        lemma_map_of_contains(s.drop_last(), s.last().0);
        assert(forall|x: int|
            0 <= x < s.drop_last().len() ==> (#[trigger] s.drop_last()[x]).0 != s.last().0);
        assert(!map_of(s.drop_last()).contains_key(s.last().0));
        assert(map_of(s).dom() =~= map_of(s.drop_last()).dom().insert(s.last().0));
        vstd::set::axiom_set_insert_len(map_of(s.drop_last()).dom(), s.last().0);
    }
}

/// Loading entries first to last into a map ends at the map of the entries,
/// whatever the map held before the keys in `s` are concerned, when it
/// starts empty.
pub proof fn lemma_insert_all_map_of(s: Seq<(Seq<char>, DocumentView)>)
    ensures
        insert_all(Map::empty(), s) == map_of(s),
    decreases s.len(),
{
    if s.len() == 0 {
    } else {
        lemma_insert_all_push(Map::empty(), s.drop_last(), s.last());
        assert(s.drop_last().push(s.last()) =~= s);
        lemma_insert_all_map_of(s.drop_last());
    }
}

proof fn lemma_insert_all_push(
    m: Map<Seq<char>, DocumentView>,
    s: Seq<(Seq<char>, DocumentView)>,
    e: (Seq<char>, DocumentView),
)
    ensures
        insert_all(m, s.push(e)) == insert_all(m, s).insert(e.0, e.1),
    decreases s.len(),
{
    if s.len() == 0 {
        assert(s.push(e)[0] == e);
        assert(s.push(e).drop_first() =~= Seq::<(Seq<char>, DocumentView)>::empty());
        assert(insert_all(m, s.push(e)) == insert_all(
            m.insert(e.0, e.1),
            Seq::<(Seq<char>, DocumentView)>::empty(),
        ));
        assert(insert_all(m, s) == m);
    } else {
        assert(s.push(e)[0] == s[0]);
        assert(s.push(e).drop_first() =~= s.drop_first().push(e));
        assert(insert_all(m, s.push(e)) == insert_all(
            m.insert(s[0].0, s[0].1),
            s.drop_first().push(e),
        ));
        lemma_insert_all_push(m.insert(s[0].0, s[0].1), s.drop_first(), e);
        assert(insert_all(m, s) == insert_all(m.insert(s[0].0, s[0].1), s.drop_first()));
    }
}

/// The in-memory store.
pub struct Store {
    entries: Vec<(String, Document)>,
}

impl View for Store {
    type V = Map<Seq<char>, DocumentView>;

    closed spec fn view(&self) -> Map<Seq<char>, DocumentView> {
        map_of(self.entries.deep_view())
    }
}

impl Store {
    /// The entry list behind the map, in iteration order.
    pub closed spec fn entries_view(&self) -> Seq<(Seq<char>, DocumentView)> {
        self.entries.deep_view()
    }

    /// Well-formed: no two entries share an id.
    pub open spec fn wf(&self) -> bool {
        unique_keys(self.entries_view())
    }

    pub open spec fn spec_len(&self) -> nat {
        self.entries_view().len() as nat
    }

    /// A fresh, empty store.
    pub fn new() -> (r: Store)
        ensures
            r.wf(),
            r@ == Map::<Seq<char>, DocumentView>::empty(),
            r.entries_view() == Seq::<(Seq<char>, DocumentView)>::empty(),
    {
        let r = Store { entries: Vec::new() };
        proof {
            assert(r.entries.deep_view() =~= Seq::<(Seq<char>, DocumentView)>::empty());
        }
        r
    }

    /// How many documents the store holds.
    pub fn len(&self) -> (r: usize)
        requires
            self.wf(),
        ensures
            r == self.spec_len(),
            r == self@.dom().len(),
    {
        proof {
            lemma_map_of_len(self.entries_view());
        }
        self.entries.len()
    }

    fn find(&self, id: &String) -> (r: Option<usize>)
        ensures
            match r {
                Option::Some(i) => i < self.entries_view().len() && self.entries_view()[i as int].0
                    == id@,
                Option::None => forall|j: int|
                    0 <= j < self.entries_view().len() ==> (#[trigger] self.entries_view()[j]).0
                        != id@,
            },
    {
        let mut i: usize = 0;
        while i < self.entries.len()
            invariant
                i <= self.entries@.len(),
                forall|j: int|
                    0 <= j < i as int ==> (#[trigger] self.entries.deep_view()[j]).0 != id@,
            decreases self.entries@.len() - i as int,
        {
            if self.entries[i].0 == *id {
                return Option::Some(i);
            }
            i = i + 1;
        }
        Option::None
    }

    /// Whether the store holds a document with this id; never fails.
    pub fn contains(&self, id: &String) -> (r: bool)
        requires
            self.wf(),
        ensures
            r == self@.contains_key(id@),
    {
        proof {
            lemma_map_of_contains(self.entries_view(), id@);
        }
        match self.find(id) {
            Option::Some(_) => true,
            Option::None => false,
        }
    }

    /// A deep copy of the stored document, or `NotFound`.
    pub fn get(&self, id: &String) -> (r: Result<Document, StoreError>)
        requires
            self.wf(),
        ensures
            match r {
                Result::Ok(d) => self@.contains_key(id@) && d@ == self@[id@],
                Result::Err(e) => e == StoreError::NotFound && !self@.contains_key(id@),
            },
    {
        proof {
            lemma_map_of_contains(self.entries_view(), id@);
        }
        match self.find(id) {
            Option::Some(i) => {
                proof {
                    lemma_map_of_index(self.entries_view(), i as int);
                }
                Result::Ok(self.entries[i].1.clone())
            },
            Option::None => Result::Err(StoreError::NotFound),
        }
    }

    /// Inserts or fully replaces the document under its own id.  An empty id
    /// is rejected with `InvalidArgument` and nothing changes.
    pub fn save(&mut self, doc: Document) -> (r: Result<(), StoreError>)
        requires
            old(self).wf(),
        ensures
            final(self).wf(),
            match r {
                Result::Ok(()) => doc.id@.len() > 0 && final(self)@ == old(self)@.insert(
                    doc.id@,
                    doc@,
                ),
                Result::Err(e) => e == StoreError::InvalidArgument && doc.id@.len() == 0
                    && final(self)@ == old(self)@,
            },
    {
        if doc.id.as_str().is_empty() {
            return Result::Err(StoreError::InvalidArgument);
        }
        let key = doc.id.clone();
        self.insert_entry(key, doc);
        Result::Ok(())
    }

    /// Inserts or fully replaces the entry under the given key.  The key is
    /// kept as handed in; the snapshot loader uses it with the key read from
    /// the blob, `save` with the document's own id.
    pub fn insert_entry(&mut self, key: String, doc: Document)
        requires
            old(self).wf(),
        ensures
            final(self).wf(),
            final(self)@ == old(self)@.insert(key@, doc@),
    {
        let ghost s = self.entries.deep_view();
        let ghost kv = key@;
        let ghost dv = doc@;
        match self.find(&key) {
            Option::Some(i) => {
                proof {
                    lemma_map_of_update(s, i as int, dv);
                }
                self.entries.set(i, (key, doc));
                proof {
                    assert(self.entries.deep_view() =~= s.update(i as int, (kv, dv)));
                    assert((s[i as int].0, dv) == (kv, dv));
                }
            },
            Option::None => {
                proof {
                    lemma_map_of_push(s, kv, dv);
                }
                self.entries.push((key, doc));
                proof {
                    assert(self.entries.deep_view() =~= s.push((kv, dv)));
                    assert(unique_keys(s.push((kv, dv)))) by {
                        assert(forall|x: int|
                            0 <= x < s.len() ==> (#[trigger] s.push((kv, dv))[x]) == s[x]);
                        assert(s.push((kv, dv))[s.len() as int].0 == kv);
                    }
                }
            },
        }
    }

    /// Removes the entry if present; a missing id is a successful no-op,
    /// never an error.
    pub fn delete(&mut self, id: &String) -> (removed: bool)
        requires
            old(self).wf(),
        ensures
            final(self).wf(),
            (final(self)@, removed) == spec_delete(old(self)@, id@),
            removed == old(self)@.contains_key(id@),
    {
        proof {
            lemma_map_of_contains(self.entries_view(), id@);
        }
        let ghost s = self.entries.deep_view();
        match self.find(id) {
            Option::Some(i) => {
                proof {
                    lemma_map_of_remove(s, i as int);
                }
                self.entries.remove(i);
                proof {
                    assert(self.entries.deep_view() =~= s.remove(i as int));
                }
                true
            },
            Option::None => false,
        }
    }

    /// A consistent point-in-time deep copy of all entries, to be handed to
    /// the snapshot codec outside of any lock.
    pub fn snapshot(&self) -> (r: Vec<(String, Document)>)
        requires
            self.wf(),
        ensures
            r.deep_view() == self.entries_view(),
            unique_keys(r.deep_view()),
            map_of(r.deep_view()) == self@,
    {
        let mut r: Vec<(String, Document)> = Vec::new();
        let mut i: usize = 0;
        while i < self.entries.len()
            invariant
                i <= self.entries@.len(),
                r@.len() == i as int,
                forall|j: int|
                    0 <= j < i as int ==> #[trigger] r@[j].deep_view()
                        == self.entries@[j].deep_view(),
            decreases self.entries@.len() - i as int,
        {
            let entry = &self.entries[i];
            let key = entry.0.clone();
            let doc = entry.1.clone();
            r.push((key, doc));
            i = i + 1;
        }
        proof {
            assert(r.deep_view() =~= self.entries.deep_view());
        }
        r
    }

    /// Inserts every entry under its own key, first to last; a later entry
    /// with a key already seen fully replaces the earlier one.
    pub fn load_entries(&mut self, entries: &Vec<(String, Document)>)
        requires
            old(self).wf(),
        ensures
            final(self).wf(),
            final(self)@ == insert_all(old(self)@, entries.deep_view()),
    {
        let ghost full = entries.deep_view();
        let mut i: usize = 0;
        proof {
            assert(full.skip(0) =~= full);
        }
        while i < entries.len()
            invariant
                self.wf(),
                i <= entries@.len(),
                full == entries.deep_view(),
                insert_all(old(self)@, full) == insert_all(self@, full.skip(i as int)),
            decreases entries@.len() - i as int,
        {
            let entry = &entries[i];
            let key = entry.0.clone();
            let doc = entry.1.clone();
            proof {
                assert(full.skip(i as int)[0] == full[i as int]);
                assert(full.skip(i as int).drop_first() =~= full.skip(i as int + 1));
                assert(full[i as int] == (key@, doc@));
            }
            self.insert_entry(key, doc);
            i = i + 1;
        }
        proof {
            assert(full.skip(entries@.len() as int) =~= Seq::<(Seq<char>, DocumentView)>::empty());
        }
    }
}

// ---------------------------------------------------------------------------
// Laws of the store
// ---------------------------------------------------------------------------

/// Deleting an id that is not in the store reports "not removed" and leaves
/// the store as it was — and so does deleting it again: the two calls in a
/// row both return `false` and neither is an error.
pub proof fn law_delete_absent_idempotent(m: Map<Seq<char>, DocumentView>, id: Seq<char>)
    requires
        !m.contains_key(id),
    ensures
        spec_delete(m, id) == (m, false),
        spec_delete(spec_delete(m, id).0, id) == (m, false),
{
}

/// Saving `d1` and then `d2` under the same id leaves exactly `d2` under
/// that id: the first document contributes nothing.
pub proof fn law_save_overwrite(
    m: Map<Seq<char>, DocumentView>,
    id: Seq<char>,
    d1: DocumentView,
    d2: DocumentView,
)
    ensures
        m.insert(id, d1).insert(id, d2) == m.insert(id, d2),
        m.insert(id, d1).insert(id, d2)[id] == d2,
{
    assert(m.insert(id, d1).insert(id, d2) =~= m.insert(id, d2));
}

/// Crash recovery: a store persisted as a snapshot blob and replayed into a
/// fresh, empty store holds exactly the documents it held when the snapshot
/// was taken.
pub proof fn law_snapshot_recovery(es: Seq<(Seq<char>, DocumentView)>)
    requires
        crate::codec::snapshot_encodable(es),
    ensures
        crate::codec::parse_snapshot(crate::codec::enc_snapshot(es)) == Option::Some(es),
        insert_all(Map::empty(), es) == map_of(es),
{
    crate::codec::lemma_parse_enc_snapshot(es);
    lemma_insert_all_map_of(es);
}

} // verus!
