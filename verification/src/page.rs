//! Collection pages: newest-first reading of a stored collection with opaque
//! numeric cursors, and the page entity served for `<collection>?<cursor>`.

use vstd::prelude::*;

use crate::entity::{PropValue, StoreItem};
use crate::store::MemoryStore;
use crate::strutil::{spec_dec, u64_to_dec};
use crate::vocab;

verus! {

/// One page of a collection.
pub struct CollectionPage {
    /// The member IRIs of this page, newest first.
    pub items: Vec<String>,
    /// The cursor of the previous (newer) page, if any.
    pub before: Option<u64>,
    /// The cursor of the next (older) page, if any.
    pub after: Option<u64>,
}

/// Read one page of a collection, newest first. The cursor is an offset from
/// the newest member; a missing cursor starts there, and a missing count
/// reads twenty members. The `after` cursor, when present, is strictly
/// larger than the offset read, so following `after` terminates.
pub fn read_collection(
    store: &MemoryStore,
    iri: &str,
    count: Option<u64>,
    cursor: Option<u64>,
) -> (r: CollectionPage)
    requires
        store.wf(),
    ensures
        ({
            let members = store.spec_members(iri@);
            let offset = match cursor {
                Some(c) => c as int,
                None => 0int,
            };
            &&& forall|j: int|
                0 <= j < r.items@.len() ==> (#[trigger] r.items@[j])@ == members[members.len() - 1
                    - offset - j]
            &&& (offset < members.len() ==> r.items@.len() >= 1)
            &&& (offset <= members.len() ==> offset + r.items@.len() <= members.len())
            &&& match r.after {
                Some(a) => a as int == offset + r.items@.len() && (a as int) < members.len(),
                None => offset + r.items@.len() >= members.len(),
            }
            &&& match r.before {
                Some(b) => offset > 0 && (b as int) < offset,
                None => offset == 0 || offset > members.len(),
            }
        }),
{
    let members = store.collection_members(iri);
    let ghost membersv = store.spec_members(iri@);
    let len = members.len() as u64;
    let offset: u64 = match cursor {
        Some(c) => c,
        None => 0,
    };
    let step: u64 = match count {
        Some(c) => if c == 0 {
            1
        } else {
            c
        },
        None => 20,
    };
    if offset >= len {
        let before = if offset > 0 && offset <= len {
            Some(if offset >= step {
                offset - step
            } else {
                0
            })
        } else {
            None
        };
        proof {
            assert(membersv.len() == members@.len());
        }
        return CollectionPage { items: Vec::new(), before, after: None };
    }
    let take: u64 = if len - offset < step {
        len - offset
    } else {
        step
    };
    let mut items: Vec<String> = Vec::new();
    let mut j: u64 = 0;
    while j < take
        invariant
            membersv == store.spec_members(iri@),
            members@.len() == membersv.len(),
            forall|k: int| 0 <= k < members@.len() ==> (#[trigger] members@[k])@ == membersv[k],
            offset + take <= len,
            len == membersv.len(),
            j <= take,
            take >= 1,
            items@.len() == j,
            forall|k: int|
                0 <= k < j ==> (#[trigger] items@[k])@ == membersv[membersv.len() - 1 - offset
                    - k],
        decreases take - j,
    {
        let idx = (len - 1 - offset - j) as usize;
        items.push(members[idx].clone());
        j = j + 1;
    }
    let after = if offset + take < len {
        Some(offset + take)
    } else {
        None
    };
    let before = if offset > 0 {
        Some(if offset >= step {
            offset - step
        } else {
            0
        })
    } else {
        None
    };
    CollectionPage { items, before, after }
}

/// Build the page entity served for `<collection>?<cursor>`: typed as an
/// ordered collection page, part of the collection, holding one reference
/// per member, with `prev`/`next` cursors where pages remain.
pub fn collection_page_item(coll_id: &str, cursor_label: &str, page: &CollectionPage) -> (r:
    StoreItem)
    ensures
        r.wf(),
        r@.id == coll_id@ + "?"@ + cursor_label@,
        r@.main.types == seq![vocab::as_ordered_collection_page()],
        crate::entity::spec_single_ref(r.main.spec_values(vocab::as_part_of())) == Some(coll_id@),
        r.main.spec_values(vocab::as_items()).len() == page.items@.len(),
        forall|j: int|
            0 <= j < page.items@.len() ==> r.main.spec_values(vocab::as_items())[j]
                == crate::entity::PropValueV::Ref((#[trigger] page.items@[j])@),
        match page.before {
            Some(b) => crate::entity::spec_single_ref(r.main.spec_values(vocab::as_prev()))
                == Some(coll_id@ + "?"@ + spec_dec(b as nat)),
            None => r.main.spec_values(vocab::as_prev()).len() == 0,
        },
        match page.after {
            Some(a) => crate::entity::spec_single_ref(r.main.spec_values(vocab::as_next()))
                == Some(coll_id@ + "?"@ + spec_dec(a as nat)),
            None => r.main.spec_values(vocab::as_next()).len() == 0,
        },
{
    proof {
        reveal_strlit("?");
        reveal_strlit("https://www.w3.org/ns/activitystreams#partOf");
        reveal_strlit("https://www.w3.org/ns/activitystreams#items");
        reveal_strlit("https://www.w3.org/ns/activitystreams#prev");
        reveal_strlit("https://www.w3.org/ns/activitystreams#next");
        assert(vocab::as_part_of().len() == 44);
        assert(vocab::as_items().len() == 43);
        assert(vocab::as_prev().len() == 42);
        assert(vocab::as_next().len() == 42);
        assert(vocab::as_prev()[38] != vocab::as_next()[38]);
        assert(vocab::as_prev() != vocab::as_next());
    }
    let mut id = coll_id.to_owned();
    id.append("?");
    id.append(cursor_label);
    let mut item = StoreItem::new(id);
    proof {
        assert(item.main.spec_values(vocab::as_part_of()).len() == 0);
        assert(item.main.spec_values(vocab::as_items()).len() == 0);
        assert(item.main.spec_values(vocab::as_prev()).len() == 0);
        assert(item.main.spec_values(vocab::as_next()).len() == 0);
    }
    item.main.push_type(vocab::as_ordered_collection_page_str().to_owned());
    proof {
        assert(item@.main.types =~= seq![vocab::as_ordered_collection_page()]);
    }
    item.main.push_value(vocab::as_part_of_str(), PropValue::Ref(coll_id.to_owned()));
    proof {
        assert(item.main.spec_values(vocab::as_part_of()) =~= seq![
            crate::entity::PropValueV::Ref(coll_id@),
        ]);
        assert(crate::entity::spec_single_ref(item.main.spec_values(vocab::as_part_of()))
            == Some(coll_id@));
    }
    let n = page.items.len();
    let mut j: usize = 0;
    while j < n
        invariant
            n == page.items@.len(),
            j <= n,
            item.wf(),
            item@.id == coll_id@ + "?"@ + cursor_label@,
            item@.main.types == seq![vocab::as_ordered_collection_page()],
            crate::entity::spec_single_ref(item.main.spec_values(vocab::as_part_of())) == Some(
                coll_id@,
            ),
            item.main.spec_values(vocab::as_items()).len() == j,
            forall|k: int|
                0 <= k < j ==> item.main.spec_values(vocab::as_items())[k]
                    == crate::entity::PropValueV::Ref((#[trigger] page.items@[k])@),
            item.main.spec_values(vocab::as_prev()).len() == 0,
            item.main.spec_values(vocab::as_next()).len() == 0,
        decreases n - j,
    {
        proof {
            reveal_strlit("https://www.w3.org/ns/activitystreams#partOf");
            reveal_strlit("https://www.w3.org/ns/activitystreams#items");
            reveal_strlit("https://www.w3.org/ns/activitystreams#prev");
            reveal_strlit("https://www.w3.org/ns/activitystreams#next");
            assert(vocab::as_part_of().len() == 44);
            assert(vocab::as_items().len() == 43);
            assert(vocab::as_prev().len() == 42);
            assert(vocab::as_next().len() == 42);
        }
        item.main.push_value(
            vocab::as_items_str(),
            PropValue::Ref(page.items[j].clone()),
        );
        j = j + 1;
    }
    match &page.before {
        Some(b) => {
            let mut prev = coll_id.to_owned();
            prev.append("?");
            prev.append(u64_to_dec(*b).as_str());
            item.main.push_value(vocab::as_prev_str(), PropValue::Ref(prev));
        },
        None => {},
    }
    match &page.after {
        Some(a) => {
            let mut next = coll_id.to_owned();
            next.append("?");
            next.append(u64_to_dec(*a).as_str());
            item.main.push_value(vocab::as_next_str(), PropValue::Ref(next));
        },
        None => {},
    }
    item
}

} // verus!
