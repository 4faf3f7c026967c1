//! Id assignment for outbox ingest: blank and server-minted ids are replaced
//! by fresh IRIs under the actor's namespace, and references are rewritten
//! consistently.

use vstd::prelude::*;

use crate::entity::{Entity, EntityV, PropValue, PropValueV, Property, StoreItem, StoreItemV};
use crate::iri::spec_is_blank;
use crate::store::MemoryStore;
use crate::strutil::{concat_str, spec_has_prefix, starts_with, str_eq, u64_to_dec};

verus! {

/// An id must be replaced when it is blank or already under the server base.
pub open spec fn spec_needs_assign(id: Seq<char>, base: Seq<char>) -> bool {
    spec_is_blank(id) || spec_has_prefix(id, base)
}

/// Decide whether an id must be replaced.
pub fn needs_assign(id: &str, base: &str) -> (r: bool)
    ensures
        r == spec_needs_assign(id@, base@),
{
    proof {
        reveal_strlit("_:");
    }
    starts_with(id, "_:") || starts_with(id, base)
}

/// Position of the first graph item carrying this id.
pub open spec fn spec_find_index(items: Seq<StoreItemV>, id: Seq<char>) -> Option<int>
    decreases items.len(),
{
    if items.len() == 0 {
        None
    } else if items[0].id == id {
        Some(0int)
    } else {
        match spec_find_index(items.drop_first(), id) {
            Some(j) => Some(j + 1),
            None => None,
        }
    }
}

/// An id after rewriting: the replacement minted for the graph item that
/// carries it, when one was; else the id itself.
pub open spec fn spec_rewrite(
    items: Seq<StoreItemV>,
    news: Seq<Option<Seq<char>>>,
    id: Seq<char>,
) -> Seq<char> {
    match spec_find_index(items, id) {
        Some(j) => if 0 <= j < news.len() {
            match news[j] {
                Some(n) => n,
                None => id,
            }
        } else {
            id
        },
        None => id,
    }
}

/// The first index found carries the id, and no earlier item does.
pub proof fn lemma_find_index(items: Seq<StoreItemV>, id: Seq<char>)
    ensures
        match spec_find_index(items, id) {
            Some(j) => 0 <= j < items.len() && items[j].id == id && forall|i: int|
                0 <= i < j ==> (#[trigger] items[i]).id != id,
            None => forall|i: int| 0 <= i < items.len() ==> (#[trigger] items[i]).id != id,
        },
    decreases items.len(),
{
    if items.len() > 0 && items[0].id != id {
        let rest = items.drop_first();
        lemma_find_index(rest, id);
        assert(forall|i: int| 0 <= i < items.len() - 1 ==> #[trigger] rest[i] == items[i + 1]);
        match spec_find_index(rest, id) {
            Some(j) => {
                assert(items[j + 1].id == id) by {
                    assert(rest[j] == items[j + 1]);
                }
                assert forall|i: int| 0 <= i < j + 1 implies (#[trigger] items[i]).id != id by {
                    if i > 0 {
                        assert(rest[i - 1] == items[i]);
                        assert(rest[i - 1].id != id);
                    }
                }
            },
            None => {
                assert forall|i: int|
                    0 <= i < items.len() implies (#[trigger] items[i]).id != id by {
                    if i > 0 {
                        assert(rest[i - 1] == items[i]);
                        assert(rest[i - 1].id != id);
                    }
                }
            },
        }
    }
}

/// Scan the graph for the item carrying this id.
fn find_index(items: &Vec<StoreItem>, id: &str) -> (r: Option<usize>)
    ensures
        match r {
            Some(j) => spec_find_index(items@.map_values(|it: StoreItem| it@), id@) == Some(
                j as int,
            ),
            None => spec_find_index(items@.map_values(|it: StoreItem| it@), id@) is None,
        },
{
    let ghost itemsv = items@.map_values(|it: StoreItem| it@);
    let n = items.len();
    let mut i: usize = 0;
    while i < n
        invariant
            n == items@.len(),
            itemsv == items@.map_values(|it: StoreItem| it@),
            i <= n,
            forall|j: int| 0 <= j < i ==> (#[trigger] itemsv[j]).id != id@,
        decreases n - i,
    {
        if str_eq(items[i].id.as_str(), id) {
            proof {
                lemma_find_index(itemsv, id@);
                match spec_find_index(itemsv, id@) {
                    Some(k) => {
                        if k < i as int {
                            assert(itemsv[k].id != id@);
                        }
                        if k > i as int {
                            assert(itemsv[i as int].id != id@);
                        }
                    },
                    None => {
                        assert(itemsv[i as int].id != id@);
                    },
                }
            }
            return Some(i);
        }
        i = i + 1;
    }
    proof {
        lemma_find_index(itemsv, id@);
        if let Some(k) = spec_find_index(itemsv, id@) {
            assert(itemsv[k].id != id@);
        }
    }
    None
}

/// The abstract assignment list.
pub open spec fn spec_news_view(news: Seq<Option<String>>) -> Seq<Option<Seq<char>>> {
    news.map_values(
        |o: Option<String>|
            match o {
                Some(n) => Some(n@),
                None => None,
            },
    )
}

/// Rewrite one id.
pub fn rewrite_id(items: &Vec<StoreItem>, news: &Vec<Option<String>>, id: &str) -> (r: String)
    requires
        news@.len() == items@.len(),
    ensures
        r@ == spec_rewrite(
            items@.map_values(|it: StoreItem| it@),
            spec_news_view(news@),
            id@,
        ),
{
    let ghost itemsv = items@.map_values(|it: StoreItem| it@);
    match find_index(items, id) {
        Some(j) => {
            proof {
                lemma_find_index(itemsv, id@);
            }
            match &news[j] {
                Some(n) => n.clone(),
                None => id.to_owned(),
            }
        },
        None => id.to_owned(),
    }
}

/// A value after rewriting: references follow the assignment, literals stand.
pub open spec fn spec_rewrite_value(
    items: Seq<StoreItemV>,
    news: Seq<Option<Seq<char>>>,
    v: PropValueV,
) -> PropValueV {
    match v {
        PropValueV::Ref(x) => PropValueV::Ref(spec_rewrite(items, news, x)),
        other => other,
    }
}

/// A property list after rewriting all references.
pub open spec fn spec_rewrite_props(
    items: Seq<StoreItemV>,
    news: Seq<Option<Seq<char>>>,
    props: Seq<(Seq<char>, Seq<PropValueV>)>,
) -> Seq<(Seq<char>, Seq<PropValueV>)> {
    props.map_values(
        |p: (Seq<char>, Seq<PropValueV>)|
            (p.0, p.1.map_values(|v: PropValueV| spec_rewrite_value(items, news, v))),
    )
}

/// An entity after rewriting.
pub open spec fn spec_rewrite_entity(
    items: Seq<StoreItemV>,
    news: Seq<Option<Seq<char>>>,
    e: EntityV,
) -> EntityV {
    EntityV {
        id: spec_rewrite(items, news, e.id),
        types: e.types,
        props: spec_rewrite_props(items, news, e.props),
    }
}

/// A store item after rewriting.
pub open spec fn spec_rewrite_item(
    items: Seq<StoreItemV>,
    news: Seq<Option<Seq<char>>>,
    it: StoreItemV,
) -> StoreItemV {
    StoreItemV {
        id: spec_rewrite(items, news, it.id),
        main: spec_rewrite_entity(items, news, it.main),
        meta: spec_rewrite_entity(items, news, it.meta),
    }
}

/// The properties a good assignment has: it replaces exactly the ids that
/// need it, with ids fresh for the store and the graph, distinct, not blank,
/// under the actor's data namespace.
pub open spec fn spec_assignments_ok(
    news: Seq<Option<Seq<char>>>,
    items: Seq<StoreItemV>,
    contents: Map<Seq<char>, StoreItemV>,
    base: Seq<char>,
    actor: Seq<char>,
) -> bool {
    &&& news.len() == items.len()
    &&& forall|j: int|
        0 <= j < items.len() ==> ((#[trigger] news[j]) is Some == spec_needs_assign(
            items[j].id,
            base,
        ))
    &&& forall|j: int|
        0 <= j < items.len() && (#[trigger] news[j]) is Some ==> !contents.contains_key(
            news[j]->0,
        )
    &&& forall|j: int, k: int|
        0 <= j < items.len() && 0 <= k < items.len() && (#[trigger] news[j]) is Some ==> news[j]->0
            != (#[trigger] items[k]).id
    &&& forall|a: int, b: int|
        0 <= a < items.len() && 0 <= b < items.len() && a != b && (#[trigger] news[a]) is Some && (
        #[trigger] news[b]) is Some ==> news[a]->0 != news[b]->0
    &&& forall|j: int|
        0 <= j < items.len() && (#[trigger] news[j]) is Some ==> spec_has_prefix(
            news[j]->0,
            actor + "/data/"@,
        ) && !spec_is_blank(news[j]->0)
}

/// Whether any graph item carries this id.
fn graph_has_id(items: &Vec<StoreItem>, id: &str) -> (r: bool)
    ensures
        r == exists|j: int|
            0 <= j < items@.len() && (#[trigger] items@[j])@.id == id@,
{
    let n = items.len();
    let mut i: usize = 0;
    while i < n
        invariant
            n == items@.len(),
            i <= n,
            forall|j: int| 0 <= j < i ==> (#[trigger] items@[j])@.id != id@,
        decreases n - i,
    {
        if str_eq(items[i].id.as_str(), id) {
            return true;
        }
        i = i + 1;
    }
    false
}

/// Whether any minted replacement equals this id.
fn news_has(news: &Vec<Option<String>>, id: &str) -> (r: bool)
    ensures
        r == exists|j: int|
            0 <= j < news@.len() && (#[trigger] news@[j]) is Some && news@[j]->0@ == id@,
{
    let n = news.len();
    let mut i: usize = 0;
    while i < n
        invariant
            n == news@.len(),
            i <= n,
            forall|j: int|
                0 <= j < i ==> !((#[trigger] news@[j]) is Some) || news@[j]->0@ != id@,
        decreases n - i,
    {
        if let Some(candidate) = &news[i] {
            if str_eq(candidate.as_str(), id) {
                return true;
            }
        }
        i = i + 1;
    }
    false
}

/// Mint an id under `prefix` that no stored item, graph item or earlier
/// replacement carries, advancing the counter.
fn mint_fresh(
    store: &MemoryStore,
    items: &Vec<StoreItem>,
    news: &Vec<Option<String>>,
    prefix: &str,
    counter: &mut u64,
) -> (r: Result<String, ()>)
    requires
        store.wf(),
    ensures
        match r {
            Ok(c) => {
                &&& spec_has_prefix(c@, prefix@)
                &&& !store.contents().contains_key(c@)
                &&& forall|j: int| 0 <= j < items@.len() ==> (#[trigger] items@[j])@.id != c@
                &&& forall|j: int|
                    0 <= j < news@.len() && (#[trigger] news@[j]) is Some ==> news@[j]->0@ != c@
            },
            Err(()) => true,
        },
{
    while *counter < u64::MAX
        invariant
            store.wf(),
        decreases u64::MAX - *counter,
    {
        let suffix = u64_to_dec(*counter);
        *counter = *counter + 1;
        let candidate = concat_str(prefix, suffix.as_str());
        let in_store = store.contains(candidate.as_str());
        let in_graph = graph_has_id(items, candidate.as_str());
        let in_news = news_has(news, candidate.as_str());
        if !in_store && !in_graph && !in_news {
            proof {
                assert(spec_has_prefix(candidate@, prefix@)) by {
                    assert(candidate@.subrange(0, prefix@.len() as int) =~= prefix@);
                }
            }
            return Ok(candidate);
        }
    }
    Err(())
}

/// Mint one fresh id for every graph id that needs assignment.
pub fn make_assignments(
    store: &MemoryStore,
    base: &str,
    actor: &str,
    items: &Vec<StoreItem>,
) -> (r: Result<Vec<Option<String>>, ()>)
    requires
        store.wf(),
        actor@.len() >= 2,
        !spec_is_blank(actor@),
    ensures
        match r {
            Ok(news) => spec_assignments_ok(
                spec_news_view(news@),
                items@.map_values(|it: StoreItem| it@),
                store.contents(),
                base@,
                actor@,
            ),
            Err(()) => true,
        },
{
    let ghost itemsv = items@.map_values(|it: StoreItem| it@);
    let prefix = concat_str(actor, "/data/");
    proof {
        reveal_strlit("/data/");
    }
    let mut news: Vec<Option<String>> = Vec::new();
    let mut counter: u64 = 0;
    let n = items.len();
    let mut k: usize = 0;
    while k < n
        invariant
            n == items@.len(),
            itemsv == items@.map_values(|it: StoreItem| it@),
            store.wf(),
            actor@.len() >= 2,
            !spec_is_blank(actor@),
            prefix@ == actor@ + "/data/"@,
            k <= n,
            news@.len() == k,
            forall|j: int|
                0 <= j < k ==> ((#[trigger] news@[j]) is Some == spec_needs_assign(
                    itemsv[j].id,
                    base@,
                )),
            forall|j: int|
                0 <= j < k && (#[trigger] news@[j]) is Some ==> !store.contents().contains_key(
                    news@[j]->0@,
                ),
            forall|j: int, k2: int|
                0 <= j < k && 0 <= k2 < itemsv.len() && (#[trigger] news@[j]) is Some
                    ==> news@[j]->0@ != (#[trigger] itemsv[k2]).id,
            forall|a: int, b: int|
                0 <= a < k && 0 <= b < k && a != b && (#[trigger] news@[a]) is Some && (
                #[trigger] news@[b]) is Some ==> news@[a]->0@ != news@[b]->0@,
            forall|j: int|
                0 <= j < k && (#[trigger] news@[j]) is Some ==> spec_has_prefix(
                    news@[j]->0@,
                    actor@ + "/data/"@,
                ) && !spec_is_blank(news@[j]->0@),
        decreases n - k,
    {
        let ghost pre = news@;
        if needs_assign(items[k].id.as_str(), base) {
            let candidate = match mint_fresh(store, items, &news, prefix.as_str(), &mut counter) {
                Ok(candidate) => candidate,
                Err(()) => {
                    return Err(());
                },
            };
            proof {
                assert(!spec_is_blank(candidate@)) by {
                    reveal_strlit("_:");
                    if spec_is_blank(candidate@) {
                        assert(candidate@.subrange(0, 2)[0] == candidate@[0]);
                        assert(candidate@.subrange(0, 2)[1] == candidate@[1]);
                        assert(candidate@.subrange(0, prefix@.len() as int) == prefix@);
                        assert(candidate@.subrange(0, prefix@.len() as int)[0] == candidate@[0]);
                        assert(candidate@.subrange(0, prefix@.len() as int)[1] == candidate@[1]);
                        assert(prefix@[0] == actor@[0]);
                        assert(prefix@[1] == actor@[1]);
                        assert(actor@.subrange(0, 2) =~= "_:"@);
                        assert(spec_is_blank(actor@));
                    }
                }
            }
            news.push(Some(candidate));
            proof {
                assert(forall|j: int| 0 <= j < k ==> #[trigger] news@[j] == pre[j]);
            }
        } else {
            news.push(None);
            proof {
                assert(forall|j: int| 0 <= j < k ==> #[trigger] news@[j] == pre[j]);
            }
        }
        k = k + 1;
    }
    proof {
        assert(spec_assignments_ok(
            spec_news_view(news@),
            itemsv,
            store.contents(),
            base@,
            actor@,
        ));
    }
    Ok(news)
}

/// Rewrite the references of a value list.
fn rewrite_values(
    items: &Vec<StoreItem>,
    news: &Vec<Option<String>>,
    vals: &Vec<PropValue>,
) -> (r: Vec<PropValue>)
    requires
        news@.len() == items@.len(),
    ensures
        r@.map_values(|v: PropValue| v@) == vals@.map_values(|v: PropValue| v@).map_values(
            |v: PropValueV| spec_rewrite_value(
                items@.map_values(|it: StoreItem| it@),
                spec_news_view(news@),
                v,
            ),
        ),
{
    let ghost itemsv = items@.map_values(|it: StoreItem| it@);
    let ghost newsv = spec_news_view(news@);
    let n = vals.len();
    let mut out: Vec<PropValue> = Vec::new();
    let mut i: usize = 0;
    while i < n
        invariant
            n == vals@.len(),
            news@.len() == items@.len(),
            itemsv == items@.map_values(|it: StoreItem| it@),
            newsv == spec_news_view(news@),
            i <= n,
            out@.len() == i,
            forall|j: int|
                0 <= j < i ==> out@[j]@ == spec_rewrite_value(itemsv, newsv, vals@[j]@),
        decreases n - i,
    {
        let rewritten = match &vals[i] {
            PropValue::Ref(x) => PropValue::Ref(rewrite_id(items, news, x.as_str())),
            other => other.clone(),
        };
        out.push(rewritten);
        i = i + 1;
    }
    proof {
        assert(out@.map_values(|v: PropValue| v@) =~= vals@.map_values(|v: PropValue| v@)
            .map_values(|v: PropValueV| spec_rewrite_value(itemsv, newsv, v)));
    }
    out
}

/// Rewrite an entity.
fn rewrite_entity(items: &Vec<StoreItem>, news: &Vec<Option<String>>, e: &Entity) -> (r: Entity)
    requires
        news@.len() == items@.len(),
    ensures
        r@ == spec_rewrite_entity(
            items@.map_values(|it: StoreItem| it@),
            spec_news_view(news@),
            e@,
        ),
{
    let ghost itemsv = items@.map_values(|it: StoreItem| it@);
    let ghost newsv = spec_news_view(news@);
    let n = e.props.len();
    let mut props: Vec<Property> = Vec::new();
    let mut i: usize = 0;
    while i < n
        invariant
            n == e.props@.len(),
            news@.len() == items@.len(),
            itemsv == items@.map_values(|it: StoreItem| it@),
            newsv == spec_news_view(news@),
            i <= n,
            props@.len() == i,
            forall|j: int|
                0 <= j < i ==> props@[j]@ == (
                    e.props@[j]@.0,
                    e.props@[j]@.1.map_values(
                        |v: PropValueV| spec_rewrite_value(itemsv, newsv, v),
                    ),
                ),
        decreases n - i,
    {
        let prop = Property {
            key: e.props[i].key.clone(),
            values: rewrite_values(items, news, &e.props[i].values),
        };
        props.push(prop);
        i = i + 1;
    }
    let r = Entity {
        id: rewrite_id(items, news, e.id.as_str()),
        types: crate::entity::clone_strings(&e.types),
        props,
    };
    proof {
        assert(r@.props =~~= spec_rewrite_props(itemsv, newsv, e@.props));
        assert(r@ =~= spec_rewrite_entity(itemsv, newsv, e@));
    }
    r
}

/// Rewrite one store item.
pub fn rewrite_item(
    items: &Vec<StoreItem>,
    news: &Vec<Option<String>>,
    it: &StoreItem,
) -> (r: StoreItem)
    requires
        news@.len() == items@.len(),
    ensures
        r@ == spec_rewrite_item(
            items@.map_values(|it2: StoreItem| it2@),
            spec_news_view(news@),
            it@,
        ),
{
    let r = StoreItem {
        id: rewrite_id(items, news, it.id.as_str()),
        main: rewrite_entity(items, news, &it.main),
        meta: rewrite_entity(items, news, &it.meta),
    };
    proof {
        assert(r@ =~= spec_rewrite_item(
            items@.map_values(|it2: StoreItem| it2@),
            spec_news_view(news@),
            it@,
        ));
    }
    r
}

/// Rewrite the whole graph.
pub fn apply_assignments(items: &Vec<StoreItem>, news: &Vec<Option<String>>) -> (r: Vec<StoreItem>)
    requires
        news@.len() == items@.len(),
    ensures
        r@.len() == items@.len(),
        forall|k: int|
            0 <= k < items@.len() ==> (#[trigger] r@[k])@ == spec_rewrite_item(
                items@.map_values(|it: StoreItem| it@),
                spec_news_view(news@),
                items@[k]@,
            ),
        forall|k: int|
            0 <= k < items@.len() && (#[trigger] items@[k]).wf() ==> r@[k].wf(),
{
    let n = items.len();
    let mut out: Vec<StoreItem> = Vec::new();
    let mut i: usize = 0;
    while i < n
        invariant
            n == items@.len(),
            news@.len() == items@.len(),
            i <= n,
            out@.len() == i,
            forall|k: int|
                0 <= k < i ==> (#[trigger] out@[k])@ == spec_rewrite_item(
                    items@.map_values(|it: StoreItem| it@),
                    spec_news_view(news@),
                    items@[k]@,
                ),
        decreases n - i,
    {
        let rewritten = rewrite_item(items, news, &items[i]);
        out.push(rewritten);
        i = i + 1;
    }
    proof {
        assert forall|k: int|
            0 <= k < items@.len() && (#[trigger] items@[k]).wf() implies out@[k].wf() by {
            assert(out@[k]@ == spec_rewrite_item(
                items@.map_values(|it: StoreItem| it@),
                spec_news_view(news@),
                items@[k]@,
            ));
        }
    }
    out
}

/// The closure of an assignment: no rewritten id is blank, a replaced id is
/// fresh for the store, and every reference that named a graph item still
/// names that item's (rewritten) id.
pub proof fn lemma_assign_closure(
    items: Seq<StoreItemV>,
    news: Seq<Option<Seq<char>>>,
    contents: Map<Seq<char>, StoreItemV>,
    base: Seq<char>,
    actor: Seq<char>,
    k: int,
)
    requires
        spec_assignments_ok(news, items, contents, base, actor),
        0 <= k < items.len(),
        forall|a: int, b: int|
            0 <= a < b < items.len() ==> (#[trigger] items[a]).id != (#[trigger] items[b]).id,
    ensures
        !spec_is_blank(spec_rewrite_item(items, news, items[k]).id),
        spec_needs_assign(items[k].id, base) ==> !contents.contains_key(
            spec_rewrite_item(items, news, items[k]).id,
        ),
        forall|y: Seq<char>|
            #![trigger spec_rewrite(items, news, y)]
            (exists|j: int| 0 <= j < items.len() && (#[trigger] items[j]).id == y) ==> exists|
                j: int,
            |
                0 <= j < items.len() && (#[trigger] items[j]).id == y && spec_rewrite(
                    items,
                    news,
                    y,
                ) == spec_rewrite_item(items, news, items[j]).id,
{
    lemma_find_index(items, items[k].id);
    let fk = spec_find_index(items, items[k].id);
    let jk = fk->0;
    assert(items[jk].id == items[k].id);
    assert(jk == k) by {
        if jk < k {
            assert(items[jk].id != items[k].id);
        }
        if jk > k {
            assert(items[k].id != items[jk].id);
        }
    }
    assert(!spec_is_blank(spec_rewrite(items, news, items[k].id))) by {
        if news[k] is Some {
            assert(!spec_is_blank(news[k]->0));
        } else {
            assert(!spec_needs_assign(items[k].id, base));
        }
    }
    assert forall|y: Seq<char>|
        #![trigger spec_rewrite(items, news, y)]
        (exists|j: int| 0 <= j < items.len() && (#[trigger] items[j]).id == y) implies exists|
        j: int,
    |
        0 <= j < items.len() && (#[trigger] items[j]).id == y && spec_rewrite(items, news, y)
            == spec_rewrite_item(items, news, items[j]).id by {
        lemma_find_index(items, y);
        let j = spec_find_index(items, y)->0;
        assert(items[j].id == y);
        assert(spec_rewrite_item(items, news, items[j]).id == spec_rewrite(items, news, y));
    }
}

} // verus!
