//! The entity store: an in-memory map from IRI to graph item together with
//! the collection operations of the port, and the guarded bulk write that
//! preserves ownership.

use vstd::prelude::*;

use crate::auth::{can_replace, spec_can_replace, spec_has_ref, spec_instance_of};
use crate::entity::{PropValue, PropValueV, StoreItem, StoreItemV};
use crate::strutil::str_eq;
use crate::vocab;

verus! {

/// The map described by an association list whose later entries win.
pub open spec fn assoc_map<V>(entries: Seq<(Seq<char>, V)>) -> Map<Seq<char>, V>
    decreases entries.len(),
{
    if entries.len() == 0 {
        Map::empty()
    } else {
        assoc_map(entries.drop_last()).insert(entries.last().0, entries.last().1)
    }
}

/// A key is in the association map iff some entry carries it.
pub proof fn lemma_assoc_map_dom<V>(entries: Seq<(Seq<char>, V)>, key: Seq<char>)
    ensures
        assoc_map(entries).contains_key(key) <==> exists|j: int|
            0 <= j < entries.len() && entries[j].0 == key,
    decreases entries.len(),
{
    if entries.len() > 0 {
        lemma_assoc_map_dom(entries.drop_last(), key);
        if assoc_map(entries).contains_key(key) {
            if entries.last().0 != key {
                let j = choose|j: int|
                    0 <= j < entries.drop_last().len() && entries.drop_last()[j].0 == key;
                assert(entries[j].0 == key);
            }
        }
        if exists|j: int| 0 <= j < entries.len() && entries[j].0 == key {
            let j = choose|j: int| 0 <= j < entries.len() && entries[j].0 == key;
            if j < entries.len() - 1 {
                assert(entries.drop_last()[j].0 == key);
            }
        }
    }
}

/// With distinct keys, the association map sends each entry's key to its value.
pub proof fn lemma_assoc_map_at<V>(entries: Seq<(Seq<char>, V)>, j: int)
    requires
        0 <= j < entries.len(),
        forall|a: int, b: int|
            0 <= a < b < entries.len() ==> entries[a].0 != entries[b].0,
    ensures
        assoc_map(entries).contains_key(entries[j].0),
        assoc_map(entries)[entries[j].0] == entries[j].1,
    decreases entries.len(),
{
    if j == entries.len() - 1 {
    } else {
        assert(entries.drop_last()[j] == entries[j]);
        lemma_assoc_map_at(entries.drop_last(), j);
        assert(entries[j].0 != entries.last().0);
    }
}

/// Updating the entry at a key's position updates the map at that key.
pub proof fn lemma_assoc_map_update<V>(
    entries: Seq<(Seq<char>, V)>,
    j: int,
    value: V,
)
    requires
        0 <= j < entries.len(),
        forall|a: int, b: int|
            0 <= a < b < entries.len() ==> entries[a].0 != entries[b].0,
    ensures
        assoc_map(entries.update(j, (entries[j].0, value))) == assoc_map(entries).insert(
            entries[j].0,
            value,
        ),
    decreases entries.len(),
{
    let updated = entries.update(j, (entries[j].0, value));
    if j == entries.len() - 1 {
        assert(updated.drop_last() =~= entries.drop_last());
        assert(updated.last() == (entries[j].0, value));
        assert(assoc_map(updated) =~= assoc_map(entries).insert(entries[j].0, value));
    } else {
        assert(updated.drop_last() =~= entries.drop_last().update(j, (entries[j].0, value)));
        assert(entries.drop_last()[j] == entries[j]);
        lemma_assoc_map_update(entries.drop_last(), j, value);
        assert(updated.last() == entries.last());
        assert(entries[j].0 != entries.last().0);
        assert(assoc_map(updated) =~= assoc_map(entries).insert(entries[j].0, value));
    }
}

/// An in-memory entity store: graph items keyed by IRI, and ordered
/// collections keyed by IRI.
pub struct MemoryStore {
    items: Vec<StoreItem>,
    collections: Vec<(String, Vec<String>)>,
}

impl MemoryStore {
    /// The abstract entry list of the item table.
    pub closed spec fn item_entries(&self) -> Seq<(Seq<char>, StoreItemV)> {
        self.items@.map_values(|it: StoreItem| (it@.id, it@))
    }

    /// The abstract entry list of the collection table.
    pub closed spec fn coll_entries(&self) -> Seq<(Seq<char>, Seq<Seq<char>>)> {
        self.collections@.map_values(
            |c: (String, Vec<String>)| (c.0@, c.1@.map_values(|s: String| s@)),
        )
    }

    /// The stored items, as a map from IRI to abstract item.
    pub open spec fn contents(&self) -> Map<Seq<char>, StoreItemV> {
        assoc_map(self.item_entries())
    }

    /// The stored collections, as a map from IRI to member sequence in
    /// insertion order.
    pub open spec fn colls(&self) -> Map<Seq<char>, Seq<Seq<char>>> {
        assoc_map(self.coll_entries())
    }

    /// Well-formedness: ids are unique and every item carries its own id.
    pub closed spec fn wf(&self) -> bool {
        &&& forall|a: int, b: int|
            0 <= a < b < self.items@.len() ==> self.items@[a]@.id != self.items@[b]@.id
        &&& forall|j: int| 0 <= j < self.items@.len() ==> (#[trigger] self.items@[j]).wf()
        &&& forall|a: int, b: int|
            0 <= a < b < self.collections@.len() ==> self.collections@[a].0@
                != self.collections@[b].0@
    }

    /// An empty store.
    pub fn new() -> (r: MemoryStore)
        ensures
            r.wf(),
            r.contents() == Map::<Seq<char>, StoreItemV>::empty(),
            r.colls() == Map::<Seq<char>, Seq<Seq<char>>>::empty(),
    {
        let r = MemoryStore { items: Vec::new(), collections: Vec::new() };
        proof {
            assert(r.item_entries() =~= Seq::<(Seq<char>, StoreItemV)>::empty());
            assert(r.coll_entries() =~= Seq::<(Seq<char>, Seq<Seq<char>>)>::empty());
        }
        r
    }

    /// Position of the item with the given id.
    fn find_item(&self, iri: &str) -> (r: Option<usize>)
        requires
            self.wf(),
        ensures
            match r {
                Some(j) => j < self.items@.len() && self.items@[j as int]@.id == iri@
                    && self.contents().contains_key(iri@) && self.contents()[iri@]
                    == self.items@[j as int]@,
                None => !self.contents().contains_key(iri@),
            },
    {
        let n = self.items.len();
        let mut i: usize = 0;
        while i < n
            invariant
                self.wf(),
                n == self.items@.len(),
                i <= n,
                forall|j: int| 0 <= j < i ==> self.items@[j]@.id != iri@,
            decreases n - i,
        {
            if str_eq(self.items[i].id.as_str(), iri) {
                proof {
                    assert(self.items@[i as int].wf());
                    assert(self.item_entries()[i as int].0 == iri@);
                    lemma_assoc_map_at(self.item_entries(), i as int);
                }
                return Some(i);
            }
            proof {
                assert(self.items@[i as int].wf());
            }
            i = i + 1;
        }
        proof {
            lemma_assoc_map_dom(self.item_entries(), iri@);
            if self.contents().contains_key(iri@) {
                let j = choose|j: int|
                    0 <= j < self.item_entries().len() && self.item_entries()[j].0 == iri@;
                assert(self.items@[j]@.id == iri@);
            }
        }
        None
    }

    /// Look an item up by IRI; a copy of the stored item.
    pub fn get(&self, iri: &str) -> (r: Option<StoreItem>)
        requires
            self.wf(),
        ensures
            match r {
                Some(item) => self.contents().contains_key(iri@) && item@ == self.contents()[iri@]
                    && item.wf(),
                None => !self.contents().contains_key(iri@),
            },
    {
        match self.find_item(iri) {
            Some(j) => {
                proof {
                    assert(self.items@[j as int].wf());
                }
                Some(self.items[j].clone())
            },
            None => None,
        }
    }

    /// True iff an item with this IRI is stored.
    pub fn contains(&self, iri: &str) -> (r: bool)
        requires
            self.wf(),
        ensures
            r == self.contents().contains_key(iri@),
    {
        match self.find_item(iri) {
            Some(_) => true,
            None => false,
        }
    }

    /// Store `item` under its own id, replacing any stored item with that id.
    pub fn put(&mut self, item: StoreItem)
        requires
            old(self).wf(),
            item.wf(),
        ensures
            final(self).wf(),
            final(self).contents() == old(self).contents().insert(item@.id, item@),
            final(self).colls() == old(self).colls(),
    {
        let ghost entries = self.item_entries();
        let ghost olditems = self.items@;
        match self.find_item(item.id.as_str()) {
            Some(j) => {
                let ghost itemv = item@;
                self.items.set(j, item);
                proof {
                    assert(self.item_entries() =~= entries.update(
                        j as int,
                        (entries[j as int].0, itemv),
                    ));
                    lemma_assoc_map_update(entries, j as int, itemv);
                    assert forall|a: int, b: int|
                        0 <= a < b < self.items@.len() implies self.items@[a]@.id
                        != self.items@[b]@.id by {
                        assert(olditems[a]@.id != olditems[b]@.id);
                        if a != j as int {
                            assert(self.items@[a] == olditems[a]);
                        }
                        if b != j as int {
                            assert(self.items@[b] == olditems[b]);
                        }
                    }
                }
            },
            None => {
                proof {
                    lemma_assoc_map_dom(entries, item@.id);
                    assert forall|j: int|
                        0 <= j < olditems.len() implies olditems[j]@.id != item@.id by {
                        if olditems[j]@.id == item@.id {
                            assert(entries[j].0 == item@.id);
                        }
                    }
                }
                self.items.push(item);
                proof {
                    assert(self.item_entries() =~= entries.push((item@.id, item@)));
                    assert(self.item_entries().drop_last() =~= entries);
                }
            },
        }
    }

    /// Position of the collection with the given id.
    fn find_coll(&self, iri: &str) -> (r: Option<usize>)
        requires
            self.wf(),
        ensures
            match r {
                Some(j) => j < self.collections@.len() && self.collections@[j as int].0@ == iri@
                    && self.colls().contains_key(iri@) && self.colls()[iri@]
                    == self.coll_entries()[j as int].1,
                None => !self.colls().contains_key(iri@),
            },
    {
        let n = self.collections.len();
        let mut i: usize = 0;
        while i < n
            invariant
                self.wf(),
                n == self.collections@.len(),
                i <= n,
                forall|j: int| 0 <= j < i ==> self.collections@[j].0@ != iri@,
            decreases n - i,
        {
            if str_eq(self.collections[i].0.as_str(), iri) {
                proof {
                    assert(self.coll_entries()[i as int].0 == iri@);
                    lemma_assoc_map_at(self.coll_entries(), i as int);
                }
                return Some(i);
            }
            i = i + 1;
        }
        proof {
            lemma_assoc_map_dom(self.coll_entries(), iri@);
            if self.colls().contains_key(iri@) {
                let j = choose|j: int|
                    0 <= j < self.coll_entries().len() && self.coll_entries()[j].0 == iri@;
                assert(self.collections@[j].0@ == iri@);
            }
        }
        None
    }

    /// The member sequence of a collection, in insertion order; empty when the
    /// collection does not exist.
    pub open spec fn spec_members(&self, iri: Seq<char>) -> Seq<Seq<char>> {
        if self.colls().contains_key(iri) {
            self.colls()[iri]
        } else {
            Seq::empty()
        }
    }

    /// Copy the member list of a collection, oldest first.
    pub fn collection_members(&self, iri: &str) -> (r: Vec<String>)
        requires
            self.wf(),
        ensures
            r@.map_values(|s: String| s@) == self.spec_members(iri@),
    {
        match self.find_coll(iri) {
            Some(j) => {
                let r = crate::entity::clone_strings(&self.collections[j].1);
                proof {
                    assert(self.coll_entries()[j as int].1 == self.collections@[j as int].1@
                        .map_values(|s: String| s@));
                }
                r
            },
            None => {
                let r: Vec<String> = Vec::new();
                proof {
                    assert(r@.map_values(|s: String| s@) =~= Seq::<Seq<char>>::empty());
                }
                r
            },
        }
    }

    /// Append `member` to the collection `iri`, creating it when absent.
    pub fn insert_collection(&mut self, iri: &str, member: String)
        requires
            old(self).wf(),
        ensures
            final(self).wf(),
            final(self).contents() == old(self).contents(),
            final(self).colls() == old(self).colls().insert(
                iri@,
                old(self).spec_members(iri@).push(member@),
            ),
    {
        let ghost entries = self.coll_entries();
        let ghost oldcolls = self.collections@;
        match self.find_coll(iri) {
            Some(j) => {
                let ghost memberv = member@;
                let ghost oldseq = self.coll_entries()[j as int].1;
                let slot = &mut self.collections[j];
                slot.1.push(member);
                proof {
                    assert(self.coll_entries() =~~= entries.update(
                        j as int,
                        (entries[j as int].0, oldseq.push(memberv)),
                    ));
                    lemma_assoc_map_update(entries, j as int, oldseq.push(memberv));
                    assert forall|a: int, b: int|
                        0 <= a < b < self.collections@.len() implies self.collections@[a].0@
                        != self.collections@[b].0@ by {
                        assert(oldcolls[a].0@ != oldcolls[b].0@);
                        if a != j as int {
                            assert(self.collections@[a] == oldcolls[a]);
                        }
                        if b != j as int {
                            assert(self.collections@[b].0 == oldcolls[b].0);
                        }
                    }
                }
            },
            None => {
                proof {
                    lemma_assoc_map_dom(entries, iri@);
                    assert forall|j: int|
                        0 <= j < oldcolls.len() implies oldcolls[j].0@ != iri@ by {
                        if oldcolls[j].0@ == iri@ {
                            assert(entries[j].0 == iri@);
                        }
                    }
                }
                let ghost memberv = member@;
                let mut members: Vec<String> = Vec::new();
                members.push(member);
                self.collections.push((iri.to_owned(), members));
                proof {
                    assert(self.coll_entries() =~~= entries.push((iri@, seq![memberv])));
                    assert(self.coll_entries().drop_last() =~= entries);
                    assert(old(self).spec_members(iri@).push(memberv) =~= seq![memberv]);
                }
            },
        }
    }

    /// True iff `member` is in the collection `iri`.
    pub fn find_collection(&self, iri: &str, member: &str) -> (r: bool)
        requires
            self.wf(),
        ensures
            r == self.spec_members(iri@).contains(member@),
    {
        match self.find_coll(iri) {
            Some(j) => {
                let members = &self.collections[j].1;
                let ghost view = self.spec_members(iri@);
                let n = members.len();
                let mut i: usize = 0;
                while i < n
                    invariant
                        n == members@.len(),
                        view == members@.map_values(|s: String| s@),
                        view == self.spec_members(iri@),
                        i <= n,
                        forall|k: int| 0 <= k < i ==> view[k] != member@,
                    decreases n - i,
                {
                    if str_eq(members[i].as_str(), member) {
                        proof {
                            assert(view[i as int] == member@);
                            assert(view.contains(member@));
                        }
                        return true;
                    }
                    i = i + 1;
                }
                proof {
                    assert(!view.contains(member@)) by {
                        if view.contains(member@) {
                            let k = choose|k: int| 0 <= k < view.len() && view[k] == member@;
                            assert(view[k] != member@);
                        }
                    }
                }
                false
            },
            None => false,
        }
    }

    /// The ids of the collections that contain `member`.
    pub fn collections_containing(&self, member: &str) -> (r: Vec<String>)
        requires
            self.wf(),
        ensures
            forall|k: int|
                0 <= k < r@.len() ==> self.colls().contains_key(#[trigger] r@[k]@)
                    && self.colls()[r@[k]@].contains(member@),
            forall|c: Seq<char>|
                self.colls().contains_key(c) && self.colls()[c].contains(member@)
                    ==> exists|k: int| 0 <= k < r@.len() && #[trigger] r@[k]@ == c,
    {
        let n = self.collections.len();
        let mut out: Vec<String> = Vec::new();
        let mut i: usize = 0;
        while i < n
            invariant
                self.wf(),
                n == self.collections@.len(),
                i <= n,
                forall|k: int|
                    0 <= k < out@.len() ==> self.colls().contains_key(#[trigger] out@[k]@)
                        && self.colls()[out@[k]@].contains(member@),
                forall|j: int|
                    0 <= j < i && self.coll_entries()[j].1.contains(member@) ==> exists|k: int|
                        0 <= k < out@.len() && #[trigger] out@[k]@ == self.coll_entries()[j].0,
            decreases n - i,
        {
            let members = &self.collections[i].1;
            let ghost view = self.coll_entries()[i as int].1;
            let m = members.len();
            let mut j: usize = 0;
            let mut found = false;
            while j < m
                invariant
                    m == members@.len(),
                    view == members@.map_values(|s: String| s@),
                    j <= m,
                    found == exists|k: int| 0 <= k < j && view[k] == member@,
                decreases m - j,
            {
                if !found && str_eq(members[j].as_str(), member) {
                    proof {
                        assert(view[j as int] == member@);
                    }
                    found = true;
                }
                j = j + 1;
            }
            proof {
                assert(found == view.contains(member@)) by {
                    if found {
                        let k = choose|k: int| 0 <= k < view.len() && view[k] == member@;
                        assert(view[k] == member@);
                    } else {
                        if view.contains(member@) {
                            let k = choose|k: int| 0 <= k < view.len() && view[k] == member@;
                        }
                    }
                }
            }
            let ghost pre_out = out@;
            if found {
                out.push(self.collections[i].0.clone());
                proof {
                    lemma_assoc_map_at(self.coll_entries(), i as int);
                    assert(out@[out@.len() - 1]@ == self.coll_entries()[i as int].0);
                }
            }
            proof {
                assert forall|j: int|
                    0 <= j < i + 1 && self.coll_entries()[j].1.contains(member@) implies exists|
                    k: int,
                |
                    0 <= k < out@.len() && #[trigger] out@[k]@ == self.coll_entries()[j].0 by {
                    if j == i as int {
                        assert(found);
                        assert(out@[out@.len() - 1]@ == self.coll_entries()[j].0);
                    } else {
                        let k = choose|k: int|
                            0 <= k < pre_out.len() && #[trigger] pre_out[k]@
                                == self.coll_entries()[j].0;
                        assert(out@[k]@ == self.coll_entries()[j].0);
                    }
                }
            }
            i = i + 1;
        }
        proof {
            assert forall|c: Seq<char>|
                self.colls().contains_key(c) && self.colls()[c].contains(
                    member@,
                ) implies exists|k: int| 0 <= k < out@.len() && #[trigger] out@[k]@ == c by {
                lemma_assoc_map_dom(self.coll_entries(), c);
                let j = choose|j: int|
                    0 <= j < self.coll_entries().len() && self.coll_entries()[j].0 == c;
                lemma_assoc_map_at(self.coll_entries(), j);
                assert(self.coll_entries()[j].1.contains(member@));
            }
        }
        out
    }

    /// The ids of stored items whose main node holds a reference to `obj`
    /// under `pred`.
    pub fn subjects_with_ref(&self, pred: &str, obj: &str) -> (r: Vec<String>)
        requires
            self.wf(),
        ensures
            forall|k: int|
                0 <= k < r@.len() ==> self.contents().contains_key(#[trigger] r@[k]@)
                    && spec_has_ref(
                    crate::entity::spec_lookup(self.contents()[r@[k]@].main.props, pred@),
                    obj@,
                ),
            forall|c: Seq<char>|
                self.contents().contains_key(c) && spec_has_ref(
                    crate::entity::spec_lookup(self.contents()[c].main.props, pred@),
                    obj@,
                ) ==> exists|k: int| 0 <= k < r@.len() && #[trigger] r@[k]@ == c,
    {
        let n = self.items.len();
        let mut out: Vec<String> = Vec::new();
        let mut i: usize = 0;
        while i < n
            invariant
                self.wf(),
                n == self.items@.len(),
                i <= n,
                forall|k: int|
                    0 <= k < out@.len() ==> self.contents().contains_key(#[trigger] out@[k]@)
                        && spec_has_ref(
                        crate::entity::spec_lookup(self.contents()[out@[k]@].main.props, pred@),
                        obj@,
                    ),
                forall|j: int|
                    0 <= j < i && spec_has_ref(
                        crate::entity::spec_lookup(self.items@[j]@.main.props, pred@),
                        obj@,
                    ) ==> exists|k: int|
                        0 <= k < out@.len() && #[trigger] out@[k]@ == self.items@[j]@.id,
            decreases n - i,
        {
            let hit = crate::auth::has_ref(self.items[i].main.values(pred), obj);
            let ghost pre_out = out@;
            if hit {
                out.push(self.items[i].id.clone());
                proof {
                    assert(self.items@[i as int].wf());
                    assert(self.item_entries()[i as int].0 == self.items@[i as int]@.id);
                    lemma_assoc_map_at(self.item_entries(), i as int);
                    assert(out@[out@.len() - 1]@ == self.items@[i as int]@.id);
                }
            }
            proof {
                assert forall|j: int|
                    0 <= j < i + 1 && spec_has_ref(
                        crate::entity::spec_lookup(self.items@[j]@.main.props, pred@),
                        obj@,
                    ) implies exists|k: int|
                    0 <= k < out@.len() && #[trigger] out@[k]@ == self.items@[j]@.id by {
                    if j == i as int {
                        assert(hit);
                        assert(out@[out@.len() - 1]@ == self.items@[j]@.id);
                    } else {
                        let k = choose|k: int|
                            0 <= k < pre_out.len() && #[trigger] pre_out[k]@
                                == self.items@[j]@.id;
                        assert(out@[k]@ == self.items@[j]@.id);
                    }
                }
            }
            i = i + 1;
        }
        proof {
            assert forall|c: Seq<char>|
                self.contents().contains_key(c) && spec_has_ref(
                    crate::entity::spec_lookup(self.contents()[c].main.props, pred@),
                    obj@,
                ) implies exists|k: int| 0 <= k < out@.len() && #[trigger] out@[k]@ == c by {
                lemma_assoc_map_dom(self.item_entries(), c);
                let j = choose|j: int|
                    0 <= j < self.item_entries().len() && self.item_entries()[j].0 == c;
                lemma_assoc_map_at(self.item_entries(), j);
                assert(self.items@[j]@.id == c);
                assert(spec_has_ref(
                    crate::entity::spec_lookup(self.items@[j]@.main.props, pred@),
                    obj@,
                ));
            }
        }
        out
    }



    /// A well-formed store maps each key to an item carrying that key as its
    /// id.
    pub proof fn lemma_key_id(&self, k: Seq<char>)
        requires
            self.wf(),
            self.contents().contains_key(k),
        ensures
            self.contents()[k].id == k,
    {
        lemma_assoc_map_dom(self.item_entries(), k);
        let j = choose|j: int|
            0 <= j < self.item_entries().len() && self.item_entries()[j].0 == k;
        lemma_assoc_map_at(self.item_entries(), j);
    }

    /// Remove every occurrence of `member` from the collection `iri`; a
    /// missing collection is left as it is.
    pub fn remove_collection(&mut self, iri: &str, member: &str)
        requires
            old(self).wf(),
        ensures
            final(self).wf(),
            final(self).contents() == old(self).contents(),
            old(self).colls().contains_key(iri@) ==> final(self).colls() == old(
                self,
            ).colls().insert(iri@, spec_drop_member(old(self).colls()[iri@], member@)),
            !old(self).colls().contains_key(iri@) ==> final(self).colls() == old(self).colls(),
    {
        let ghost entries = self.coll_entries();
        let ghost oldcolls = self.collections@;
        match self.find_coll(iri) {
            Some(j) => {
                let ghost oldseq = self.coll_entries()[j as int].1;
                let members = &self.collections[j].1;
                let n = members.len();
                let mut kept: Vec<String> = Vec::new();
                let mut k: usize = 0;
                while k < n
                    invariant
                        n == members@.len(),
                        oldseq == members@.map_values(|s: String| s@),
                        k <= n,
                        kept@.map_values(|s: String| s@) == spec_drop_member(
                            oldseq.take(k as int),
                            member@,
                        ),
                    decreases n - k,
                {
                    let ghost pre = kept@;
                    if !crate::strutil::str_eq(members[k].as_str(), member) {
                        kept.push(members[k].clone());
                    }
                    proof {
                        lemma_drop_member_push(oldseq.take(k as int), oldseq[k as int], member@);
                        assert(oldseq.take(k + 1) =~= oldseq.take(k as int).push(
                            oldseq[k as int],
                        ));
                        assert(kept@.map_values(|s: String| s@) =~= spec_drop_member(
                            oldseq.take(k + 1),
                            member@,
                        ));
                    }
                    k = k + 1;
                }
                proof {
                    assert(oldseq.take(n as int) =~= oldseq);
                }
                let slot = &mut self.collections[j];
                slot.1 = kept;
                proof {
                    assert(self.coll_entries() =~~= entries.update(
                        j as int,
                        (entries[j as int].0, spec_drop_member(oldseq, member@)),
                    ));
                    lemma_assoc_map_update(entries, j as int, spec_drop_member(oldseq, member@));
                    assert forall|a: int, b: int|
                        0 <= a < b < self.collections@.len() implies self.collections@[a].0@
                        != self.collections@[b].0@ by {
                        assert(oldcolls[a].0@ != oldcolls[b].0@);
                        if a != j as int {
                            assert(self.collections@[a] == oldcolls[a]);
                        }
                        if b != j as int {
                            assert(self.collections@[b].0 == oldcolls[b].0);
                        }
                    }
                }
            },
            None => {},
        }
    }

    /// The stored item whose main node carries `username` as its preferred
    /// username and whose meta carries this server's instance tag, if any.
    pub fn find_user_by_username(&self, username: &str, instance_id: u32) -> (r: Option<
        StoreItem,
    >)
        requires
            self.wf(),
        ensures
            match r {
                Some(item) => self.contents().contains_key(item@.id) && self.contents()[item@.id]
                    == item@ && item.wf() && crate::entity::spec_first_text(
                    crate::entity::spec_lookup(item@.main.props, vocab::as_preferred_username()),
                ) == Some(username@) && spec_instance_of(item@) == Some(instance_id as i64),
                None => forall|c: Seq<char>|
                    self.contents().contains_key(c) ==> !(crate::entity::spec_first_text(
                        crate::entity::spec_lookup(
                            (#[trigger] self.contents()[c]).main.props,
                            vocab::as_preferred_username(),
                        ),
                    ) == Some(username@) && spec_instance_of(self.contents()[c]) == Some(
                        instance_id as i64,
                    )),
            },
    {
        let n = self.items.len();
        let mut i: usize = 0;
        while i < n
            invariant
                self.wf(),
                n == self.items@.len(),
                i <= n,
                forall|j: int|
                    0 <= j < i ==> !(crate::entity::spec_first_text(
                        crate::entity::spec_lookup(
                            (#[trigger] self.items@[j])@.main.props,
                            vocab::as_preferred_username(),
                        ),
                    ) == Some(username@) && spec_instance_of(self.items@[j]@) == Some(
                        instance_id as i64,
                    )),
            decreases n - i,
        {
            let candidate = &self.items[i];
            let name_hit = match candidate.main.first_text(vocab::as_preferred_username_str()) {
                Some(v) => crate::strutil::str_eq(v.as_str(), username),
                None => false,
            };
            if name_hit && candidate.is_owned(instance_id) {
                proof {
                    assert(self.items@[i as int].wf());
                    assert(self.item_entries()[i as int].0 == self.items@[i as int]@.id);
                    lemma_assoc_map_at(self.item_entries(), i as int);
                }
                return Some(candidate.clone());
            }
            i = i + 1;
        }
        proof {
            assert forall|c: Seq<char>|
                self.contents().contains_key(c) implies !(crate::entity::spec_first_text(
                crate::entity::spec_lookup(
                    (#[trigger] self.contents()[c]).main.props,
                    vocab::as_preferred_username(),
                ),
            ) == Some(username@) && spec_instance_of(self.contents()[c]) == Some(
                instance_id as i64,
            )) by {
                lemma_assoc_map_dom(self.item_entries(), c);
                let j = choose|j: int|
                    0 <= j < self.item_entries().len() && self.item_entries()[j].0 == c;
                lemma_assoc_map_at(self.item_entries(), j);
                assert(self.contents()[c] == self.items@[j]@);
            }
        }
        None
    }
}


/// A member sequence with every occurrence of one member taken out.
pub open spec fn spec_drop_member(members: Seq<Seq<char>>, member: Seq<char>) -> Seq<Seq<char>>
    decreases members.len(),
{
    if members.len() == 0 {
        Seq::empty()
    } else if members.last() == member {
        spec_drop_member(members.drop_last(), member)
    } else {
        spec_drop_member(members.drop_last(), member).push(members.last())
    }
}

/// Dropping distributes over appending one member.
proof fn lemma_drop_member_push(members: Seq<Seq<char>>, x: Seq<char>, member: Seq<char>)
    ensures
        spec_drop_member(members.push(x), member) == if x == member {
            spec_drop_member(members, member)
        } else {
            spec_drop_member(members, member).push(x)
        },
{
    assert(members.push(x).drop_last() =~= members);
    assert(members.push(x).last() == x);
}

/// The result of writing one item through the replacement guard.
pub open spec fn spec_store_one(
    m: Map<Seq<char>, StoreItemV>,
    item: StoreItemV,
) -> Map<Seq<char>, StoreItemV> {
    if !m.contains_key(item.id) {
        m.insert(item.id, item)
    } else if spec_can_replace(m[item.id], item) {
        m.insert(item.id, item)
    } else {
        m
    }
}

/// The result of writing a list of items in order through the guard.
pub open spec fn spec_store_all(
    m: Map<Seq<char>, StoreItemV>,
    items: Seq<StoreItemV>,
) -> Map<Seq<char>, StoreItemV>
    decreases items.len(),
{
    if items.len() == 0 {
        m
    } else {
        spec_store_all(spec_store_one(m, items[0]), items.drop_first())
    }
}

/// Write every item, keeping a stored item whenever the incoming one carries
/// a different instance tag (the cross-instance overwrite guard).
pub fn store_all(store: &mut MemoryStore, items: Vec<StoreItem>)
    requires
        old(store).wf(),
        forall|j: int| 0 <= j < items@.len() ==> (#[trigger] items@[j]).wf(),
    ensures
        final(store).wf(),
        final(store).contents() == spec_store_all(
            old(store).contents(),
            items@.map_values(|it: StoreItem| it@),
        ),
        final(store).colls() == old(store).colls(),
{
    let ghost itemsv = items@.map_values(|it: StoreItem| it@);
    let n = items.len();
    let mut i: usize = 0;
    proof {
        assert(itemsv.skip(0) =~= itemsv);
    }
    for i in 0..n
        invariant
            store.wf(),
            n == items@.len(),
            itemsv == items@.map_values(|it: StoreItem| it@),
            forall|j: int| 0 <= j < items@.len() ==> (#[trigger] items@[j]).wf(),
            spec_store_all(old(store).contents(), itemsv) == spec_store_all(
                store.contents(),
                itemsv.skip(i as int),
            ),
            store.colls() == old(store).colls(),
    {
        let item = items[i].clone();
        let ghost pre = store.contents();
        let write = match store.get(item.id.as_str()) {
            Some(prev) => can_replace(&prev, &item),
            None => true,
        };
        if write {
            store.put(item);
        }
        proof {
            assert(itemsv.skip(i as int)[0] == itemsv[i as int]);
            assert(store.contents() == spec_store_one(pre, itemsv[i as int]));
            assert(itemsv.skip(i as int).drop_first() =~= itemsv.skip(i + 1));
        }
    }
    proof {
        assert(itemsv.skip(n as int) =~= Seq::<StoreItemV>::empty());
    }
}


/// The guarded bulk write never removes a stored key.
pub proof fn lemma_store_all_dom_monotone(
    m: Map<Seq<char>, StoreItemV>,
    items: Seq<StoreItemV>,
    p: Seq<char>,
)
    requires
        m.contains_key(p),
    ensures
        spec_store_all(m, items).contains_key(p),
    decreases items.len(),
{
    if items.len() > 0 {
        lemma_store_all_dom_monotone(spec_store_one(m, items[0]), items.drop_first(), p);
    }
}

/// An item whose id is fresh for the store and unique in the write list is
/// stored by the guarded bulk write.
pub proof fn lemma_store_all_fresh(
    m: Map<Seq<char>, StoreItemV>,
    items: Seq<StoreItemV>,
    j: int,
)
    requires
        0 <= j < items.len(),
        !m.contains_key(items[j].id),
        forall|a: int, b: int|
            0 <= a < b < items.len() ==> (#[trigger] items[a]).id != (#[trigger] items[b]).id,
    ensures
        spec_store_all(m, items).contains_key(items[j].id),
    decreases items.len(),
{
    let one = spec_store_one(m, items[0]);
    if j == 0 {
        assert(one.contains_key(items[0].id));
        lemma_store_all_dom_monotone(one, items.drop_first(), items[0].id);
    } else {
        assert(items[0].id != items[j].id);
        assert(!one.contains_key(items[j].id));
        let rest = items.drop_first();
        assert(forall|k: int| 0 <= k < rest.len() ==> #[trigger] rest[k] == items[k + 1]);
        assert(rest[j - 1] == items[j]);
        assert forall|a: int, b: int|
            0 <= a < b < rest.len() implies (#[trigger] rest[a]).id != (#[trigger] rest[b]).id by {
            assert(rest[a] == items[a + 1]);
            assert(rest[b] == items[b + 1]);
        }
        lemma_store_all_fresh(one, rest, j - 1);
    }
}

/// Ownership preservation: whatever the guarded bulk write does, an IRI that
/// already held an item keeps an item with the same instance tag.
pub proof fn lemma_store_all_preserves_instance(
    m: Map<Seq<char>, StoreItemV>,
    items: Seq<StoreItemV>,
    p: Seq<char>,
)
    requires
        m.contains_key(p),
    ensures
        spec_store_all(m, items).contains_key(p),
        spec_instance_of(spec_store_all(m, items)[p]) == spec_instance_of(m[p]),
    decreases items.len(),
{
    if items.len() > 0 {
        let one = spec_store_one(m, items[0]);
        assert(one.contains_key(p));
        assert(spec_instance_of(one[p]) == spec_instance_of(m[p]));
        lemma_store_all_preserves_instance(one, items.drop_first(), p);
    }
}

} // verus!
