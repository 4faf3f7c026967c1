//! The retrieving store: the decision whether a missing entity may be fetched
//! remotely, the origin restriction on what a fetch may write, and the cache
//! write-through. The HTTP fetch itself is outside work; callers perform it
//! and hand the expanded items back through `ingest_fetched`.

use vstd::prelude::*;

use crate::entity::{PropValue, StoreItem, StoreItemV};
use crate::iri::{spec_trust_authority, trust_authority_of};
use crate::store::{spec_store_all, store_all, MemoryStore};
use crate::strutil::{spec_has_prefix, starts_with, str_eq};
use crate::vocab;

verus! {

/// What a `get` that misses the local store should do.
#[derive(PartialEq, Eq, Structural)]
pub enum FetchDecision {
    /// Never fetch: a local id, a blank node, or a tag IRI.
    Deny,
    /// Answer with the synthesized public-collection entity.
    SynthesizePublic,
    /// A remote IRI: fetch it.
    Fetch,
}

/// The fetch rule of the retrieving store.
pub open spec fn spec_fetch_decision(iri: Seq<char>, base: Seq<char>) -> FetchDecision {
    if spec_has_prefix(iri, "_:"@) || spec_has_prefix(iri, base) || spec_has_prefix(
        iri,
        vocab::as_tag(),
    ) {
        FetchDecision::Deny
    } else if iri == vocab::as_public() {
        FetchDecision::SynthesizePublic
    } else {
        FetchDecision::Fetch
    }
}

/// Decide whether a missing id may be fetched.
pub fn fetch_decision(iri: &str, base: &str) -> (r: FetchDecision)
    ensures
        r == spec_fetch_decision(iri@, base@),
{
    proof {
        reveal_strlit("_:");
    }
    if starts_with(iri, "_:") || starts_with(iri, base) || starts_with(iri, vocab::as_tag_str()) {
        FetchDecision::Deny
    } else if str_eq(iri, vocab::as_public_str()) {
        FetchDecision::SynthesizePublic
    } else {
        FetchDecision::Fetch
    }
}

/// The synthesized entity answering for the public collection.
pub fn public_collection() -> (r: StoreItem)
    ensures
        r.wf(),
        r@.id == vocab::as_public(),
        r@.main.types == seq![vocab::as_collection()],
{
    let mut item = StoreItem::new(vocab::as_public_str().to_owned());
    item.main.push_type(vocab::as_collection_str().to_owned());
    proof {
        assert(item@.main.types =~= seq![vocab::as_collection()]);
    }
    item
}

/// The items of a fetched graph whose ids answer to the fetched origin.
pub open spec fn spec_origin_filter(items: Seq<StoreItemV>, authority: Seq<char>) -> Seq<StoreItemV>
    decreases items.len(),
{
    if items.len() == 0 {
        Seq::empty()
    } else {
        let rest = spec_origin_filter(items.drop_first(), authority);
        if spec_trust_authority(items[0].id) == Some(authority) {
            seq![items[0]] + rest
        } else {
            rest
        }
    }
}

/// Keep only the items whose id's authority equals `authority` (the origin
/// restriction: a host may only assert facts about its own IRIs).
pub fn origin_filter(items: Vec<StoreItem>, authority: &str) -> (r: Vec<StoreItem>)
    ensures
        r@.map_values(|it: StoreItem| it@) == spec_origin_filter(
            items@.map_values(|it: StoreItem| it@),
            authority@,
        ),
{
    let ghost itemsv = items@.map_values(|it: StoreItem| it@);
    let n = items.len();
    let mut out: Vec<StoreItem> = Vec::new();
    let mut i: usize = 0;
    proof {
        assert(itemsv.skip(0) =~= itemsv);
    }
    let mut items = items;
    let mut taken: usize = 0;
    while taken < n
        invariant
            n == itemsv.len(),
            taken <= n,
            items@.len() == n - taken,
            forall|j: int|
                0 <= j < items@.len() ==> (#[trigger] items@[j])@ == itemsv[j + taken],
            spec_origin_filter(itemsv, authority@) =~= out@.map_values(|it: StoreItem| it@)
                + spec_origin_filter(itemsv.skip(taken as int), authority@),
        decreases n - taken,
    {
        let item = items.remove(0);
        let ghost pre = out@;
        proof {
            assert(item@ == itemsv[taken as int]);
            assert(itemsv.skip(taken as int)[0] == itemsv[taken as int]);
            assert(itemsv.skip(taken as int).drop_first() =~= itemsv.skip(taken + 1));
        }
        let keep = match trust_authority_of(item.id.as_str()) {
            Some(a) => str_eq(a.as_str(), authority),
            None => false,
        };
        if keep {
            out.push(item);
            proof {
                assert(out@.map_values(|it: StoreItem| it@) =~= pre.map_values(
                    |it: StoreItem| it@,
                ) + seq![itemsv[taken as int]]);
            }
        }
        taken = taken + 1;
    }
    proof {
        assert(itemsv.skip(n as int) =~= Seq::<StoreItemV>::empty());
        assert(spec_origin_filter(itemsv.skip(n as int), authority@) =~= Seq::<StoreItemV>::empty());
        assert(out@.map_values(|it: StoreItem| it@) + Seq::<StoreItemV>::empty() =~= out@.map_values(
            |it: StoreItem| it@,
        ));
    }
    out
}

/// Write a fetched, expanded graph through the origin restriction and the
/// replacement guard.
pub fn ingest_fetched(store: &mut MemoryStore, items: Vec<StoreItem>, authority: &str)
    requires
        old(store).wf(),
        forall|j: int| 0 <= j < items@.len() ==> (#[trigger] items@[j]).wf(),
    ensures
        final(store).wf(),
        final(store).contents() == spec_store_all(
            old(store).contents(),
            spec_origin_filter(items@.map_values(|it: StoreItem| it@), authority@),
        ),
        final(store).colls() == old(store).colls(),
{
    let ghost itemsv = items@.map_values(|it: StoreItem| it@);
    let filtered = origin_filter(items, authority);
    proof {
        lemma_origin_filter_wf(itemsv, authority@);
        assert forall|j: int|
            0 <= j < filtered@.len() implies (#[trigger] filtered@[j]).wf() by {
            assert(filtered@[j]@ == spec_origin_filter(itemsv, authority@)[j]);
        }
    }
    store_all(store, filtered);
}

/// Filtering keeps well-formedness and keeps only matching origins.
pub proof fn lemma_origin_filter_wf(items: Seq<StoreItemV>, authority: Seq<char>)
    requires
        forall|j: int| 0 <= j < items.len() ==> (#[trigger] items[j]).main.id == items[j].id,
    ensures
        forall|j: int|
            0 <= j < spec_origin_filter(items, authority).len() ==> (
            #[trigger] spec_origin_filter(items, authority)[j]).main.id == spec_origin_filter(
                items,
                authority,
            )[j].id,
    decreases items.len(),
{
    if items.len() > 0 {
        assert(forall|j: int|
            0 <= j < items.len() - 1 ==> (#[trigger] items.drop_first()[j]) == items[j + 1]);
        lemma_origin_filter_wf(items.drop_first(), authority);
        let rest = spec_origin_filter(items.drop_first(), authority);
        let whole = spec_origin_filter(items, authority);
        if spec_trust_authority(items[0].id) == Some(authority) {
            assert forall|j: int| 0 <= j < whole.len() implies (#[trigger] whole[j]).main.id
                == whole[j].id by {
                if j == 0 {
                    assert(whole[0] == items[0]);
                } else {
                    assert(whole[j] == rest[j - 1]);
                }
            }
        }
    }
}

/// Every item the origin filter lets through answers to the given authority.
pub proof fn lemma_origin_filter_safe(items: Seq<StoreItemV>, authority: Seq<char>)
    ensures
        forall|j: int|
            0 <= j < spec_origin_filter(items, authority).len() ==> spec_trust_authority(
                (#[trigger] spec_origin_filter(items, authority)[j]).id,
            ) == Some(authority),
    decreases items.len(),
{
    if items.len() > 0 {
        lemma_origin_filter_safe(items.drop_first(), authority);
    }
}

/// Origin safety for the fetch write path: after writing a fetched graph,
/// any id that is new or whose item changed answers to the fetch authority.
pub proof fn lemma_origin_safety(
    m: Map<Seq<char>, StoreItemV>,
    items: Seq<StoreItemV>,
    authority: Seq<char>,
    p: Seq<char>,
)
    requires
        ({
            let result = spec_store_all(m, spec_origin_filter(items, authority));
            result.contains_key(p) && (!m.contains_key(p) || m[p] != result[p])
        }),
    ensures
        spec_trust_authority(p) == Some(authority),
{
    lemma_origin_filter_safe(items, authority);
    lemma_store_all_sources(m, spec_origin_filter(items, authority), p);
}

/// Whatever the guarded bulk write stores at `p` is either what was there or
/// one of the written items, stored under its own id.
pub proof fn lemma_store_all_sources(
    m: Map<Seq<char>, StoreItemV>,
    items: Seq<StoreItemV>,
    p: Seq<char>,
)
    requires
        spec_store_all(m, items).contains_key(p),
    ensures
        (m.contains_key(p) && spec_store_all(m, items)[p] == m[p]) || exists|j: int|
            0 <= j < items.len() && (#[trigger] items[j]).id == p && spec_store_all(m, items)[p]
                == items[j],
    decreases items.len(),
{
    if items.len() > 0 {
        let one = crate::store::spec_store_one(m, items[0]);
        lemma_store_all_sources(one, items.drop_first(), p);
        if one.contains_key(p) && spec_store_all(m, items)[p] == one[p] && !(m.contains_key(p)
            && one[p] == m[p]) {
            assert(items[0].id == p && one[p] == items[0]);
        }
        if exists|j: int|
            0 <= j < items.drop_first().len() && (#[trigger] items.drop_first()[j]).id == p
                && spec_store_all(one, items.drop_first())[p] == items.drop_first()[j] {
            let j = choose|j: int|
                0 <= j < items.drop_first().len() && (#[trigger] items.drop_first()[j]).id == p
                    && spec_store_all(one, items.drop_first())[p] == items.drop_first()[j];
            assert(items[j + 1].id == p && spec_store_all(m, items)[p] == items[j + 1]);
        }
    }
}

/// A store that answers local reads from its inner store and confines remote
/// fetching to the decision and write-through above.
pub struct RetrievingEntityStore {
    pub inner: MemoryStore,
    pub base: String,
}

impl RetrievingEntityStore {
    /// Wrap a store with a fetch boundary for the given server base.
    pub fn new(store: MemoryStore, base: String) -> (r: RetrievingEntityStore)
        ensures
            r.inner == store,
            r.base@ == base@,
    {
        RetrievingEntityStore { inner: store, base }
    }

    /// A local read; remote fetching is the caller's to drive when
    /// `needs_fetch` says so.
    pub fn get_local(&self, iri: &str) -> (r: Option<StoreItem>)
        requires
            self.inner.wf(),
        ensures
            match r {
                Some(item) => self.inner.contents().contains_key(iri@) && item@
                    == self.inner.contents()[iri@] && item.wf(),
                None => !self.inner.contents().contains_key(iri@),
            },
    {
        self.inner.get(iri)
    }

    /// Whether a missed id should be fetched, denied, or synthesized.
    pub fn needs_fetch(&self, iri: &str) -> (r: FetchDecision)
        requires
            self.inner.wf(),
        ensures
            r == spec_fetch_decision(iri@, self.base@),
            r == FetchDecision::Fetch ==> !spec_has_prefix(iri@, self.base@),
    {
        fetch_decision(iri, self.base.as_str())
    }

    /// Remove a member from a collection of the inner store.
    pub fn remove_collection(&mut self, iri: &str, member: &str)
        requires
            old(self).inner.wf(),
        ensures
            final(self).inner.wf(),
            final(self).base == old(self).base,
            final(self).inner.contents() == old(self).inner.contents(),
            old(self).inner.colls().contains_key(iri@) ==> final(self).inner.colls() == old(
                self,
            ).inner.colls().insert(
                iri@,
                crate::store::spec_drop_member(old(self).inner.colls()[iri@], member@),
            ),
            !old(self).inner.colls().contains_key(iri@) ==> final(self).inner.colls() == old(
                self,
            ).inner.colls(),
    {
        self.inner.remove_collection(iri, member);
    }

    /// Write a fetched graph through the origin restriction.
    pub fn store_fetched(&mut self, items: Vec<StoreItem>, authority: &str)
        requires
            old(self).inner.wf(),
            forall|j: int| 0 <= j < items@.len() ==> (#[trigger] items@[j]).wf(),
        ensures
            final(self).inner.wf(),
            final(self).base == old(self).base,
            final(self).inner.contents() == spec_store_all(
                old(self).inner.contents(),
                spec_origin_filter(items@.map_values(|it: StoreItem| it@), authority@),
            ),
            final(self).inner.colls() == old(self).inner.colls(),
    {
        ingest_fetched(&mut self.inner, items, authority);
    }
}

} // verus!
