//! The delivery worker's verified core: audience expansion into a set of
//! inboxes, registration of deliveries on the queue, the per-item delivery
//! plan, and the lease/resolve discipline.
//!
//! The HTTP POST of a remote delivery is outside work: callers obtain a plan,
//! perform the post, and resolve the lease through `finish_delivery`.

use vstd::prelude::*;

use crate::context::Context;
use crate::entity::{QueueItem, StoreItem, StoreItemV};
use crate::queue::{spec_format_delivery, format_delivery, QueueState};
use crate::store::MemoryStore;
use crate::strutil::str_eq;
use crate::vocab;

verus! {

/// Whether some element of `v` reads `s`.
fn vec_has_str(v: &Vec<String>, s: &str) -> (r: bool)
    ensures
        r == exists|j: int| 0 <= j < v@.len() && (#[trigger] v@[j])@ == s@,
{
    let n = v.len();
    let mut i: usize = 0;
    while i < n
        invariant
            n == v@.len(),
            i <= n,
            forall|j: int| 0 <= j < i ==> (#[trigger] v@[j])@ != s@,
        decreases n - i,
    {
        if str_eq(v[i].as_str(), s) {
            return true;
        }
        i = i + 1;
    }
    false
}

/// Push `s` unless an equal string is already there.
fn push_unique(v: &mut Vec<String>, s: String)
    requires
        forall|a: int, b: int|
            0 <= a < b < old(v)@.len() ==> (#[trigger] old(v)@[a])@ != (#[trigger] old(v)@[b])@,
    ensures
        forall|a: int, b: int|
            0 <= a < b < final(v)@.len() ==> (#[trigger] final(v)@[a])@ != (
            #[trigger] final(v)@[b])@,
        exists|j: int| 0 <= j < final(v)@.len() && (#[trigger] final(v)@[j])@ == s@,
        old(v)@.len() <= final(v)@.len() <= old(v)@.len() + 1,
        forall|j: int| 0 <= j < old(v)@.len() ==> final(v)@[j] == old(v)@[j],
        final(v)@.len() == old(v)@.len() + 1 ==> final(v)@.last()@ == s@,
{
    if !vec_has_str(v, s.as_str()) {
        let ghost pre = v@;
        v.push(s);
        proof {
            let last = v@.len() - 1;
            assert(v@[last]@ == s@);
            assert forall|a: int, b: int|
                0 <= a < b < v@.len() implies (#[trigger] v@[a])@ != (#[trigger] v@[b])@ by {
                if b < last {
                    assert(v@[a] == pre[a]);
                    assert(v@[b] == pre[b]);
                } else {
                    assert(v@[a] == pre[a]);
                    assert(pre[a]@ != s@);
                }
            }
        }
    } else {
        proof {
            let j = choose|j: int| 0 <= j < v@.len() && (#[trigger] v@[j])@ == s@;
        }
    }
}

/// `b` is declared as an inbox by some stored entity: among its `ldp:inbox`
/// values or its `as:sharedInbox` values.
pub open spec fn spec_declared_inbox(contents: Map<Seq<char>, StoreItemV>, b: Seq<char>) -> bool {
    exists|c: Seq<char>|
        #[trigger] contents.contains_key(c) && (crate::auth::spec_has_ref(
            crate::entity::spec_lookup(contents[c].main.props, vocab::ldp_inbox()),
            b,
        ) || crate::auth::spec_has_ref(
            crate::entity::spec_lookup(contents[c].main.props, vocab::as_shared_inbox()),
            b,
        ))
}

/// `s` is directly addressed by the activity: named in `to`, `bto`, `cc`,
/// `bcc`, `audience` or `actor`.
pub open spec fn spec_audience_seed(main: crate::entity::EntityV, s: Seq<char>) -> bool {
    crate::auth::spec_audience_has(main, s) || crate::auth::spec_has_ref(
        crate::entity::spec_lookup(main.props, vocab::as_actor()),
        s,
    )
}

/// Every `ldp:inbox` of the stored entity `s` is in `boxes`.
pub open spec fn spec_inboxes_covered(
    contents: Map<Seq<char>, StoreItemV>,
    s: Seq<char>,
    boxes: Seq<String>,
) -> bool {
    contents.contains_key(s) ==> forall|b: Seq<char>|
        #[trigger] crate::auth::spec_has_ref(
            crate::entity::spec_lookup(contents[s].main.props, vocab::ldp_inbox()),
            b,
        ) ==> exists|j: int| 0 <= j < boxes.len() && (#[trigger] boxes[j])@ == b
}

/// One entry of the expansion work list: the audience IRI and whether a
/// shared inbox may stand in.
struct WorkEntry {
    target: String,
    allow_shared: bool,
}

/// Push every `ldp:inbox` reference of `item` into `boxes`.
fn push_inboxes(boxes: &mut Vec<String>, item: &StoreItem)
    requires
        forall|a: int, b: int|
            0 <= a < b < old(boxes)@.len() ==> (#[trigger] old(boxes)@[a])@ != (
            #[trigger] old(boxes)@[b])@,
    ensures
        forall|a: int, b: int|
            0 <= a < b < final(boxes)@.len() ==> (#[trigger] final(boxes)@[a])@ != (
            #[trigger] final(boxes)@[b])@,
        final(boxes)@.len() >= old(boxes)@.len(),
        forall|j: int| 0 <= j < old(boxes)@.len() ==> final(boxes)@[j] == old(boxes)@[j],
        forall|j: int|
            old(boxes)@.len() <= j < final(boxes)@.len() ==> crate::auth::spec_has_ref(
                crate::entity::spec_lookup(item@.main.props, vocab::ldp_inbox()),
                (#[trigger] final(boxes)@[j])@,
            ),
        forall|b: Seq<char>|
            #[trigger] crate::auth::spec_has_ref(
                crate::entity::spec_lookup(item@.main.props, vocab::ldp_inbox()),
                b,
            ) ==> exists|j: int| 0 <= j < final(boxes)@.len() && (#[trigger] final(boxes)@[j])@
                == b,
{
    let inboxes = item.main.values(vocab::ldp_inbox_str());
    let ghost inboxesv = inboxes@.map_values(|v: crate::entity::PropValue| v@);
    let bn = inboxes.len();
    let mut bi: usize = 0;
    while bi < bn
        invariant
            bn == inboxes@.len(),
            inboxesv == inboxes@.map_values(|v: crate::entity::PropValue| v@),
            inboxesv == crate::entity::spec_lookup(item@.main.props, vocab::ldp_inbox()),
            bi <= bn,
            forall|a: int, b: int|
                0 <= a < b < boxes@.len() ==> (#[trigger] boxes@[a])@ != (#[trigger] boxes@[b])@,
            boxes@.len() >= old(boxes)@.len(),
            forall|j: int| 0 <= j < old(boxes)@.len() ==> boxes@[j] == old(boxes)@[j],
            forall|j: int|
                old(boxes)@.len() <= j < boxes@.len() ==> crate::auth::spec_has_ref(
                    inboxesv,
                    (#[trigger] boxes@[j])@,
                ),
            forall|k: int|
                0 <= k < bi && (#[trigger] inboxesv[k]) is Ref ==> exists|j: int|
                    0 <= j < boxes@.len() && (#[trigger] boxes@[j])@ == inboxesv[k]->Ref_0,
        decreases bn - bi,
    {
        let ghost pre = boxes@;
        if let crate::entity::PropValue::Ref(inbox) = &inboxes[bi] {
            proof {
                assert(inboxesv[bi as int] == inboxes@[bi as int]@);
                assert(crate::auth::spec_has_ref(inboxesv, inbox@)) by {
                    assert(inboxesv[bi as int] == crate::entity::PropValueV::Ref(inbox@));
                }
            }
            push_unique(boxes, inbox.clone());
            proof {
                assert forall|k: int|
                    0 <= k < bi + 1 && (#[trigger] inboxesv[k]) is Ref implies exists|j: int|
                    0 <= j < boxes@.len() && (#[trigger] boxes@[j])@ == inboxesv[k]->Ref_0 by {
                    if k < bi as int {
                        let j = choose|j: int|
                            0 <= j < pre.len() && (#[trigger] pre[j])@ == inboxesv[k]->Ref_0;
                        assert(boxes@[j]@ == inboxesv[k]->Ref_0);
                    } else {
                        let j = choose|j: int|
                            0 <= j < boxes@.len() && (#[trigger] boxes@[j])@ == inbox@;
                    }
                }
            }
        }
        bi = bi + 1;
    }
    proof {
        assert forall|b: Seq<char>|
            #[trigger] crate::auth::spec_has_ref(inboxesv, b) implies exists|j: int|
            0 <= j < boxes@.len() && (#[trigger] boxes@[j])@ == b by {
            let k = choose|k: int|
                0 <= k < inboxesv.len() && inboxesv[k] == crate::entity::PropValueV::Ref(b);
            assert(inboxesv[k] is Ref && inboxesv[k]->Ref_0 == b);
        }
    }
}

/// Expand the audience of an activity into concrete inbox IRIs.
///
/// Work entries start from `to`, `bto`, `cc`, `bcc`, `audience` and `actor`
/// and are resolved level by level, up to depth three. A remote target
/// contributes its shared inbox when allowed, else its `ldp:inbox`es; an
/// owned ordered collection is paged through, marking the delivering actor's
/// followers collection as shared-inbox eligible; an owned actor contributes
/// its `ldp:inbox`es. In the local-only variant a remote target instead
/// contributes the inboxes of the local accounts that follow it.
///
/// The result holds no duplicates; every returned IRI is declared as an
/// inbox or shared inbox by some stored entity; and, outside the local-only
/// variant, every stored, directly addressed target contributes all of its
/// `ldp:inbox`es.
pub fn collect_delivery_targets(
    store: &MemoryStore,
    instance_id: u32,
    subject: &str,
    obj: &StoreItem,
    local: bool,
) -> (r: Vec<String>)
    requires
        store.wf(),
    ensures
        forall|a: int, b: int|
            0 <= a < b < r@.len() ==> (#[trigger] r@[a])@ != (#[trigger] r@[b])@,
        forall|j: int| 0 <= j < r@.len() ==> spec_declared_inbox(store.contents(), (#[trigger] r@[j])@),
        !local ==> forall|s: Seq<char>|
            #[trigger] spec_audience_seed(obj@.main, s) ==> spec_inboxes_covered(
                store.contents(),
                s,
                r@,
            ),
{
    let mut boxes: Vec<String> = Vec::new();
    let mut current: Vec<WorkEntry> = Vec::new();
    let ghost mainv = obj@.main;
    seed_audience(&mut current, obj, vocab::as_to_str());
    seed_audience(&mut current, obj, vocab::as_bto_str());
    seed_audience(&mut current, obj, vocab::as_cc_str());
    seed_audience(&mut current, obj, vocab::as_bcc_str());
    seed_audience(&mut current, obj, vocab::as_audience_str());
    seed_audience(&mut current, obj, vocab::as_actor_str());
    proof {
        assert forall|s: Seq<char>| #[trigger] spec_audience_seed(mainv, s) implies exists|idx: int|
            0 <= idx < current@.len() && (#[trigger] current@[idx]).target@ == s
                && !current@[idx].allow_shared by {
            if crate::auth::spec_has_ref(obj.main.spec_values(vocab::as_to()), s) {
            } else if crate::auth::spec_has_ref(obj.main.spec_values(vocab::as_bto()), s) {
            } else if crate::auth::spec_has_ref(obj.main.spec_values(vocab::as_cc()), s) {
            } else if crate::auth::spec_has_ref(obj.main.spec_values(vocab::as_bcc()), s) {
            } else if crate::auth::spec_has_ref(obj.main.spec_values(vocab::as_audience()), s) {
            } else {
                assert(crate::auth::spec_has_ref(obj.main.spec_values(vocab::as_actor()), s));
            }
        }
    }
    let follower_id: Option<String> = match store.get(subject) {
        Some(user_item) => match user_item.main.single_ref(vocab::as_followers_str()) {
            Some(f) => Some(f.clone()),
            None => None,
        },
        None => None,
    };
    let mut level: u32 = 0;
    while level < 4
        invariant
            store.wf(),
            level <= 4,
            forall|a: int, b: int|
                0 <= a < b < boxes@.len() ==> (#[trigger] boxes@[a])@ != (#[trigger] boxes@[b])@,
            forall|j: int|
                0 <= j < boxes@.len() ==> spec_declared_inbox(
                    store.contents(),
                    (#[trigger] boxes@[j])@,
                ),
            !local && level == 0 ==> forall|s: Seq<char>|
                #[trigger] spec_audience_seed(mainv, s) ==> exists|idx: int|
                    0 <= idx < current@.len() && (#[trigger] current@[idx]).target@ == s
                        && !current@[idx].allow_shared,
            !local && level > 0 ==> forall|s: Seq<char>|
                #[trigger] spec_audience_seed(mainv, s) ==> spec_inboxes_covered(
                    store.contents(),
                    s,
                    boxes@,
                ),
        decreases 4 - level,
    {
        let mut next: Vec<WorkEntry> = Vec::new();
        let n = current.len();
        let mut i: usize = 0;
        while i < n
            invariant
                store.wf(),
                level < 4,
                n == current@.len(),
                i <= n,
                forall|a: int, b: int|
                    0 <= a < b < boxes@.len() ==> (#[trigger] boxes@[a])@ != (
                    #[trigger] boxes@[b])@,
                forall|j: int|
                    0 <= j < boxes@.len() ==> spec_declared_inbox(
                        store.contents(),
                        (#[trigger] boxes@[j])@,
                    ),
                !local && level == 0 ==> forall|s: Seq<char>|
                    #[trigger] spec_audience_seed(mainv, s) ==> (exists|idx: int|
                        i <= idx < current@.len() && (#[trigger] current@[idx]).target@ == s
                            && !current@[idx].allow_shared) || spec_inboxes_covered(
                        store.contents(),
                        s,
                        boxes@,
                    ),
                !local && level > 0 ==> forall|s: Seq<char>|
                    #[trigger] spec_audience_seed(mainv, s) ==> spec_inboxes_covered(
                        store.contents(),
                        s,
                        boxes@,
                    ),
            decreases n - i,
        {
            let ghost pre_boxes = boxes@;
            let entry = &current[i];
            let fetched = store.get(entry.target.as_str());
            match &fetched {
                None => {},
                Some(item) => {
                    if !item.is_owned(instance_id) {
                        if local {
                            expand_local_followers(store, &item, &mut boxes);
                        } else {
                            let mut has_shared = false;
                            if entry.allow_shared {
                                has_shared = push_shared_inbox(store, &item, &mut boxes);
                            }
                            if !has_shared {
                                push_inboxes(&mut boxes, &item);
                            }
                        }
                    } else {
                        if !local && level < 3 && item.main.has_type(
                            vocab::as_ordered_collection_str(),
                        ) {
                            let members = store.collection_members(item.id.as_str());
                            let mn = members.len();
                            let allow = match &follower_id {
                                Some(f) => str_eq(f.as_str(), item.id.as_str()),
                                None => false,
                            };
                            let mut mi: usize = 0;
                            while mi < mn
                                invariant
                                    mn == members@.len(),
                                    mi <= mn,
                                decreases mn - mi,
                            {
                                next.push(
                                    WorkEntry {
                                        target: members[mi].clone(),
                                        allow_shared: allow,
                                    },
                                );
                                mi = mi + 1;
                            }
                        }
                        push_inboxes(&mut boxes, &item);
                    }
                },
            }
            proof {
                if !local && level == 0 {
                    assert forall|s: Seq<char>|
                        #[trigger] spec_audience_seed(mainv, s) implies (exists|idx: int|
                        i + 1 <= idx < current@.len() && (#[trigger] current@[idx]).target@ == s
                            && !current@[idx].allow_shared) || spec_inboxes_covered(
                        store.contents(),
                        s,
                        boxes@,
                    ) by {
                        if exists|idx: int|
                            i <= idx < current@.len() && (#[trigger] current@[idx]).target@ == s
                                && !current@[idx].allow_shared {
                            let idx = choose|idx: int|
                                i <= idx < current@.len() && (#[trigger] current@[idx]).target@
                                    == s && !current@[idx].allow_shared;
                            if idx == i as int {
                                assert(!current@[i as int].allow_shared);
                                match fetched {
                                    None => {
                                        assert(!store.contents().contains_key(s));
                                    },
                                    Some(item) => {
                                        assert(store.contents()[s] == item@);
                                        assert(spec_inboxes_covered(store.contents(), s, boxes@));
                                    },
                                }
                            }
                        } else {
                            lemma_covered_monotone(store.contents(), s, pre_boxes, boxes@);
                        }
                    }
                }
                if !local && level > 0 {
                    assert forall|s: Seq<char>|
                        #[trigger] spec_audience_seed(mainv, s) implies spec_inboxes_covered(
                        store.contents(),
                        s,
                        boxes@,
                    ) by {
                        lemma_covered_monotone(store.contents(), s, pre_boxes, boxes@);
                    }
                }
            }
            i = i + 1;
        }
        proof {
            if !local && level == 0 {
                assert forall|s: Seq<char>|
                    #[trigger] spec_audience_seed(mainv, s) implies spec_inboxes_covered(
                    store.contents(),
                    s,
                    boxes@,
                ) by {}
            }
        }
        current = next;
        level = level + 1;
    }
    boxes
}

/// Coverage of a target's inboxes survives extending the box list.
proof fn lemma_covered_monotone(
    contents: Map<Seq<char>, StoreItemV>,
    s: Seq<char>,
    pre: Seq<String>,
    post: Seq<String>,
)
    requires
        spec_inboxes_covered(contents, s, pre),
        post.len() >= pre.len(),
        forall|j: int| 0 <= j < pre.len() ==> post[j] == pre[j],
    ensures
        spec_inboxes_covered(contents, s, post),
{
    if contents.contains_key(s) {
        assert forall|b: Seq<char>|
            #[trigger] crate::auth::spec_has_ref(
                crate::entity::spec_lookup(contents[s].main.props, vocab::ldp_inbox()),
                b,
            ) implies exists|j: int| 0 <= j < post.len() && (#[trigger] post[j])@ == b by {
            let j = choose|j: int| 0 <= j < pre.len() && (#[trigger] pre[j])@ == b;
            assert(post[j]@ == b);
        }
    }
}

/// Seed the work list with every reference under one audience key.
fn seed_audience(work: &mut Vec<WorkEntry>, obj: &StoreItem, key: &str)
    ensures
        final(work)@.len() >= old(work)@.len(),
        forall|j: int| 0 <= j < old(work)@.len() ==> final(work)@[j] == old(work)@[j],
        forall|j: int|
            old(work)@.len() <= j < final(work)@.len() ==> !(#[trigger] final(work)@[j]).allow_shared,
        forall|s: Seq<char>|
            #[trigger] crate::auth::spec_has_ref(obj.main.spec_values(key@), s) ==> exists|idx: int|
                0 <= idx < final(work)@.len() && (#[trigger] final(work)@[idx]).target@ == s,
{
    let vals = obj.main.values(key);
    let ghost valsv = vals@.map_values(|v: crate::entity::PropValue| v@);
    let m = vals.len();
    let mut i: usize = 0;
    while i < m
        invariant
            m == vals@.len(),
            valsv == vals@.map_values(|v: crate::entity::PropValue| v@),
            i <= m,
            work@.len() >= old(work)@.len(),
            forall|j: int| 0 <= j < old(work)@.len() ==> work@[j] == old(work)@[j],
            forall|j: int|
                old(work)@.len() <= j < work@.len() ==> !(#[trigger] work@[j]).allow_shared,
            forall|k: int|
                0 <= k < i && (#[trigger] valsv[k]) is Ref ==> exists|idx: int|
                    0 <= idx < work@.len() && (#[trigger] work@[idx]).target@ == valsv[k]->Ref_0,
        decreases m - i,
    {
        let ghost pre = work@;
        if let crate::entity::PropValue::Ref(id) = &vals[i] {
            proof {
                assert(valsv[i as int] == vals@[i as int]@);
            }
            work.push(WorkEntry { target: id.clone(), allow_shared: false });
        }
        proof {
            assert forall|k: int|
                0 <= k < i + 1 && (#[trigger] valsv[k]) is Ref implies exists|idx: int|
                0 <= idx < work@.len() && (#[trigger] work@[idx]).target@ == valsv[k]->Ref_0 by {
                if k < i as int {
                    let idx = choose|idx: int|
                        0 <= idx < pre.len() && (#[trigger] pre[idx]).target@ == valsv[k]->Ref_0;
                    assert(work@[idx].target@ == valsv[k]->Ref_0);
                } else {
                    assert(work@.last().target@ == valsv[k]->Ref_0);
                }
            }
        }
        i = i + 1;
    }
    proof {
        assert forall|s: Seq<char>|
            #[trigger] crate::auth::spec_has_ref(valsv, s) implies exists|idx: int|
            0 <= idx < work@.len() && (#[trigger] work@[idx]).target@ == s by {
            let k = choose|k: int|
                0 <= k < valsv.len() && valsv[k] == crate::entity::PropValueV::Ref(s);
            assert(valsv[k] is Ref && valsv[k]->Ref_0 == s);
        }
    }
}

/// Push the first shared inbox reachable through the item's endpoints, when
/// one is declared; says whether one was found.
fn push_shared_inbox(store: &MemoryStore, item: &StoreItem, boxes: &mut Vec<String>) -> (r: bool)
    requires
        store.wf(),
        forall|a: int, b: int|
            0 <= a < b < old(boxes)@.len() ==> (#[trigger] old(boxes)@[a])@ != (
            #[trigger] old(boxes)@[b])@,
    ensures
        forall|a: int, b: int|
            0 <= a < b < final(boxes)@.len() ==> (#[trigger] final(boxes)@[a])@ != (
            #[trigger] final(boxes)@[b])@,
        final(boxes)@.len() >= old(boxes)@.len(),
        forall|j: int| 0 <= j < old(boxes)@.len() ==> final(boxes)@[j] == old(boxes)@[j],
        forall|j: int|
            old(boxes)@.len() <= j < final(boxes)@.len() ==> spec_declared_inbox(
                store.contents(),
                (#[trigger] final(boxes)@[j])@,
            ),
{
    let endpoints = item.main.values(vocab::as_endpoints_str());
    let en = endpoints.len();
    let mut ei: usize = 0;
    while ei < en
        invariant
            store.wf(),
            en == endpoints@.len(),
            ei <= en,
            forall|a: int, b: int|
                0 <= a < b < boxes@.len() ==> (#[trigger] boxes@[a])@ != (#[trigger] boxes@[b])@,
            boxes@.len() >= old(boxes)@.len(),
            forall|j: int| 0 <= j < old(boxes)@.len() ==> boxes@[j] == old(boxes)@[j],
            forall|j: int|
                old(boxes)@.len() <= j < boxes@.len() ==> spec_declared_inbox(
                    store.contents(),
                    (#[trigger] boxes@[j])@,
                ),
        decreases en - ei,
    {
        if let crate::entity::PropValue::Ref(endpoint) = &endpoints[ei] {
            if let Some(endpoint_item) = store.get(endpoint.as_str()) {
                let shared = endpoint_item.main.values(vocab::as_shared_inbox_str());
                let sn = shared.len();
                let mut si: usize = 0;
                while si < sn
                    invariant
                        store.wf(),
                        sn == shared@.len(),
                        shared@.map_values(|v: crate::entity::PropValue| v@)
                            == crate::entity::spec_lookup(
                            endpoint_item@.main.props,
                            vocab::as_shared_inbox(),
                        ),
                        store.contents().contains_key(endpoint@),
                        store.contents()[endpoint@] == endpoint_item@,
                        si <= sn,
                        forall|a: int, b: int|
                            0 <= a < b < boxes@.len() ==> (#[trigger] boxes@[a])@ != (
                            #[trigger] boxes@[b])@,
                        boxes@.len() >= old(boxes)@.len(),
                        forall|j: int| 0 <= j < old(boxes)@.len() ==> boxes@[j] == old(boxes)@[j],
                        forall|j: int|
                            old(boxes)@.len() <= j < boxes@.len() ==> spec_declared_inbox(
                                store.contents(),
                                (#[trigger] boxes@[j])@,
                            ),
                    decreases sn - si,
                {
                    if let crate::entity::PropValue::Ref(inbox) = &shared[si] {
                        proof {
                            assert(crate::auth::spec_has_ref(
                                crate::entity::spec_lookup(
                                    endpoint_item@.main.props,
                                    vocab::as_shared_inbox(),
                                ),
                                inbox@,
                            )) by {
                                let sharedv = shared@.map_values(
                                    |v: crate::entity::PropValue| v@,
                                );
                                assert(sharedv[si as int] == crate::entity::PropValueV::Ref(
                                    inbox@,
                                ));
                            }
                        }
                        push_unique(boxes, inbox.clone());
                        proof {
                            assert(spec_declared_inbox(store.contents(), inbox@)) by {
                                assert(store.contents().contains_key(endpoint@));
                                assert(crate::auth::spec_has_ref(
                                    crate::entity::spec_lookup(
                                        store.contents()[endpoint@].main.props,
                                        vocab::as_shared_inbox(),
                                    ),
                                    inbox@,
                                ));
                            }
                        }
                        return true;
                    }
                    si = si + 1;
                }
            }
        }
        ei = ei + 1;
    }
    false
}

/// Push the inboxes of every local account that follows the remote actor:
/// accounts whose `following` collection contains an entity declaring the
/// actor's id as its `as:followers`.
fn expand_local_followers(store: &MemoryStore, item: &StoreItem, boxes: &mut Vec<String>)
    requires
        store.wf(),
        forall|a: int, b: int|
            0 <= a < b < old(boxes)@.len() ==> (#[trigger] old(boxes)@[a])@ != (
            #[trigger] old(boxes)@[b])@,
    ensures
        forall|a: int, b: int|
            0 <= a < b < final(boxes)@.len() ==> (#[trigger] final(boxes)@[a])@ != (
            #[trigger] final(boxes)@[b])@,
        final(boxes)@.len() >= old(boxes)@.len(),
        forall|j: int| 0 <= j < old(boxes)@.len() ==> final(boxes)@[j] == old(boxes)@[j],
        forall|j: int|
            old(boxes)@.len() <= j < final(boxes)@.len() ==> spec_declared_inbox(
                store.contents(),
                (#[trigger] final(boxes)@[j])@,
            ),
{
    let users = store.subjects_with_ref(vocab::as_followers_str(), item.id.as_str());
    let un = users.len();
    let mut ui: usize = 0;
    while ui < un
        invariant
            store.wf(),
            un == users@.len(),
            ui <= un,
            forall|a: int, b: int|
                0 <= a < b < boxes@.len() ==> (#[trigger] boxes@[a])@ != (#[trigger] boxes@[b])@,
            boxes@.len() >= old(boxes)@.len(),
            forall|j: int| 0 <= j < old(boxes)@.len() ==> boxes@[j] == old(boxes)@[j],
            forall|j: int|
                old(boxes)@.len() <= j < boxes@.len() ==> spec_declared_inbox(
                    store.contents(),
                    (#[trigger] boxes@[j])@,
                ),
        decreases un - ui,
    {
        let colls = store.collections_containing(users[ui].as_str());
        let cn = colls.len();
        let mut ci: usize = 0;
        while ci < cn
            invariant
                store.wf(),
                cn == colls@.len(),
                ci <= cn,
                forall|a: int, b: int|
                    0 <= a < b < boxes@.len() ==> (#[trigger] boxes@[a])@ != (
                    #[trigger] boxes@[b])@,
                boxes@.len() >= old(boxes)@.len(),
                forall|j: int| 0 <= j < old(boxes)@.len() ==> boxes@[j] == old(boxes)@[j],
                forall|j: int|
                    old(boxes)@.len() <= j < boxes@.len() ==> spec_declared_inbox(
                        store.contents(),
                        (#[trigger] boxes@[j])@,
                    ),
            decreases cn - ci,
        {
            let followers = store.subjects_with_ref(vocab::as_following_str(), colls[ci].as_str());
            let fnn = followers.len();
            let mut fi: usize = 0;
            while fi < fnn
                invariant
                    store.wf(),
                    fnn == followers@.len(),
                    fi <= fnn,
                    forall|a: int, b: int|
                        0 <= a < b < boxes@.len() ==> (#[trigger] boxes@[a])@ != (
                        #[trigger] boxes@[b])@,
                    boxes@.len() >= old(boxes)@.len(),
                    forall|j: int| 0 <= j < old(boxes)@.len() ==> boxes@[j] == old(boxes)@[j],
                    forall|j: int|
                        old(boxes)@.len() <= j < boxes@.len() ==> spec_declared_inbox(
                            store.contents(),
                            (#[trigger] boxes@[j])@,
                        ),
                decreases fnn - fi,
            {
                if let Some(local_user) = store.get(followers[fi].as_str()) {
                    let ghost pre = boxes@;
                    let ghost fkey = followers@[fi as int]@;
                    push_inboxes(boxes, &local_user);
                    proof {
                        assert forall|j: int|
                            old(boxes)@.len() <= j < boxes@.len() implies spec_declared_inbox(
                            store.contents(),
                            (#[trigger] boxes@[j])@,
                        ) by {
                            if j < pre.len() {
                                assert(boxes@[j] == pre[j]);
                            } else {
                                assert(store.contents().contains_key(fkey));
                                assert(store.contents()[fkey] == local_user@);
                                assert(crate::auth::spec_has_ref(
                                    crate::entity::spec_lookup(
                                        store.contents()[fkey].main.props,
                                        vocab::ldp_inbox(),
                                    ),
                                    boxes@[j]@,
                                ));
                            }
                        }
                    }
                }
                fi = fi + 1;
            }
            ci = ci + 1;
        }
        ui = ui + 1;
    }
}

/// Expand the audience of the stored activity `id` and enqueue one `deliver`
/// order per resulting inbox. The returned list names the inboxes, in the
/// order their orders were enqueued; the queue grows by exactly those orders.
pub fn prepare_delivery(ctx: &mut Context, id: &str, local: bool) -> (r: Result<Vec<String>, ()>)
    requires
        old(ctx).wf(),
    ensures
        final(ctx).wf(),
        final(ctx).entity_store == old(ctx).entity_store,
        !old(ctx).entity_store.contents().contains_key(id@) ==> (r matches Ok(boxes)
            && boxes@.len() == 0 && final(ctx).queue_store == old(ctx).queue_store),
        match r {
            Ok(boxes) => {
                &&& forall|j: int|
                    0 <= j < boxes@.len() ==> spec_declared_inbox(
                        old(ctx).entity_store.contents(),
                        (#[trigger] boxes@[j])@,
                    )
                &&& (!local && old(ctx).entity_store.contents().contains_key(id@))
                    ==> forall|s: Seq<char>|
                    #[trigger] spec_audience_seed(
                        old(ctx).entity_store.contents()[id@].main,
                        s,
                    ) ==> spec_inboxes_covered(old(ctx).entity_store.contents(), s, boxes@)
                &&& final(ctx).queue_store.elems().len() == old(ctx).queue_store.elems().len()
                    + boxes@.len()
                &&& forall|j: int|
                    0 <= j < old(ctx).queue_store.elems().len() ==> final(ctx).queue_store.elems()[j] == old(ctx).queue_store.elems()[j]
                &&& forall|j: int|
                    0 <= j < boxes@.len() ==> {
                        let e = #[trigger] final(ctx).queue_store.elems()[old(ctx).queue_store.elems().len() + j];
                        e.0.event == "deliver"@ && e.0.data == spec_format_delivery(
                            id@,
                            boxes@[j]@,
                        ) && e.1 == QueueState::Pending
                    }
                &&& forall|a: int, b: int|
                    0 <= a < b < boxes@.len() ==> (#[trigger] boxes@[a])@ != (
                    #[trigger] boxes@[b])@
            },
            Err(()) => true,
        },
{
    let obj = match ctx.entity_store.get(id) {
        Some(obj) => obj,
        None => {
            let boxes: Vec<String> = Vec::new();
            return Ok(boxes);
        },
    };
    let boxes = collect_delivery_targets(
        &ctx.entity_store,
        ctx.instance_id,
        ctx.user.subject.clone().as_str(),
        &obj,
        local,
    );
    let ghost old_elems = ctx.queue_store.elems();
    let n = boxes.len();
    let mut i: usize = 0;
    proof {
        reveal_strlit("deliver");
    }
    while i < n
        invariant
            ctx.queue_store.wf(),
            ctx.entity_store == old(ctx).entity_store,
            ctx.entity_store.wf(),
            old(ctx).entity_store.contents().contains_key(id@),
            n == boxes@.len(),
            i <= n,
            ctx.queue_store.elems().len() == old_elems.len() + i,
            forall|j: int|
                0 <= j < old_elems.len() ==> ctx.queue_store.elems()[j] == old_elems[j],
            forall|j: int|
                0 <= j < i ==> {
                    let e = #[trigger] ctx.queue_store.elems()[old_elems.len() + j];
                    e.0.event == "deliver"@ && e.0.data == spec_format_delivery(id@, boxes@[j]@)
                        && e.1 == QueueState::Pending
                },
        decreases n - i,
    {
        let data = format_delivery(id, boxes[i].as_str());
        let event = String::from_str("deliver");
        let ghost pre = ctx.queue_store.elems();
        match ctx.queue_store.add(event, data) {
            Ok(()) => {},
            Err(()) => {
                return Err(());
            },
        }
        proof {
            assert(ctx.queue_store.elems().drop_last() == pre);
            assert(forall|j: int|
                0 <= j < pre.len() ==> #[trigger] ctx.queue_store.elems()[j] == pre[j]);
        }
        i = i + 1;
    }
    Ok(boxes)
}

/// What a leased `deliver` order asks a worker to do.
pub enum DeliveryPlan {
    /// Nothing: the order is malformed, the object is gone, or it names no
    /// single actor.
    Skip,
    /// The inbox is an owned entity: dispatch through the ingest pipeline as
    /// the activity's actor, without leaving the process.
    Local { object_id: String, inbox: String, actor: String },
    /// The inbox is remote: assemble, sign as the actor, and post.
    Remote { object_id: String, inbox: String, actor: String },
}

/// Work out what a leased queue item asks for: parse `<object> <inbox>` from
/// its escaped data, load the object, read its single actor, and classify
/// the inbox as owned or remote.
pub fn plan_delivery(ctx: &Context, item: &QueueItem) -> (r: DeliveryPlan)
    requires
        ctx.wf(),
    ensures
        match r {
            DeliveryPlan::Skip => {
                ||| item@.event != "deliver"@
                ||| crate::queue::spec_parse_delivery(item@.data) is None
                ||| (crate::queue::spec_parse_delivery(item@.data) matches Some(p)
                    && !ctx.entity_store.contents().contains_key(p.0))
                ||| (crate::queue::spec_parse_delivery(item@.data) matches Some(p)
                    && ctx.entity_store.contents().contains_key(p.0)
                    && crate::entity::spec_single_ref(
                    crate::entity::spec_lookup(
                        ctx.entity_store.contents()[p.0].main.props,
                        vocab::as_actor(),
                    ),
                ) is None)
            },
            DeliveryPlan::Local { object_id, inbox, actor } => {
                &&& item@.event == "deliver"@
                &&& crate::queue::spec_parse_delivery(item@.data) == Some((object_id@, inbox@))
                &&& ctx.entity_store.contents().contains_key(object_id@)
                &&& crate::entity::spec_single_ref(
                    crate::entity::spec_lookup(
                        ctx.entity_store.contents()[object_id@].main.props,
                        vocab::as_actor(),
                    ),
                ) == Some(actor@)
                &&& ctx.entity_store.contents().contains_key(inbox@)
                &&& crate::auth::spec_instance_of(ctx.entity_store.contents()[inbox@]) == Some(
                    ctx.instance_id as i64,
                )
            },
            DeliveryPlan::Remote { object_id, inbox, actor } => {
                &&& item@.event == "deliver"@
                &&& crate::queue::spec_parse_delivery(item@.data) == Some((object_id@, inbox@))
                &&& ctx.entity_store.contents().contains_key(object_id@)
                &&& crate::entity::spec_single_ref(
                    crate::entity::spec_lookup(
                        ctx.entity_store.contents()[object_id@].main.props,
                        vocab::as_actor(),
                    ),
                ) == Some(actor@)
                &&& (!ctx.entity_store.contents().contains_key(inbox@)
                    || crate::auth::spec_instance_of(ctx.entity_store.contents()[inbox@]) != Some(
                    ctx.instance_id as i64,
                ))
            },
        },
{
    proof {
        reveal_strlit("deliver");
    }
    if !str_eq(item.event.as_str(), "deliver") {
        return DeliveryPlan::Skip;
    }
    let (object_id, inbox) = match crate::queue::parse_delivery(item.data.as_str()) {
        Some(p) => p,
        None => {
            return DeliveryPlan::Skip;
        },
    };
    let obj = match ctx.entity_store.get(object_id.as_str()) {
        Some(obj) => obj,
        None => {
            return DeliveryPlan::Skip;
        },
    };
    let actor = match obj.main.single_ref(vocab::as_actor_str()) {
        Some(actor) => actor.clone(),
        None => {
            return DeliveryPlan::Skip;
        },
    };
    let is_local = match ctx.entity_store.get(inbox.as_str()) {
        Some(inbox_item) => inbox_item.is_owned(ctx.instance_id),
        None => false,
    };
    if is_local {
        DeliveryPlan::Local { object_id, inbox, actor }
    } else {
        DeliveryPlan::Remote { object_id, inbox, actor }
    }
}

/// Lease one queue element; an element marked `Success` is never handed out.
pub fn lease_delivery(ctx: &mut Context) -> (r: Option<QueueItem>)
    requires
        old(ctx).wf(),
    ensures
        final(ctx).wf(),
        final(ctx).entity_store == old(ctx).entity_store,
        match r {
            Some(item) => exists|j: int|
                {
                    &&& 0 <= j < old(ctx).queue_store.elems().len()
                    &&& #[trigger] old(ctx).queue_store.elems()[j].0 == item@
                    &&& (old(ctx).queue_store.elems()[j].1 == QueueState::Pending
                        || old(ctx).queue_store.elems()[j].1 == QueueState::Failed)
                    &&& final(ctx).queue_store.elems() == old(ctx).queue_store.elems().update(
                        j,
                        (item@, QueueState::Leased),
                    )
                },
            None => final(ctx).queue_store == old(ctx).queue_store && forall|j: int|
                0 <= j < old(ctx).queue_store.elems().len() ==> (#[trigger] old(
                    ctx,
                ).queue_store.elems()[j].1) != QueueState::Pending && old(
                    ctx,
                ).queue_store.elems()[j].1 != QueueState::Failed,
        },
{
    ctx.queue_store.get_item()
}

/// Resolve a leased delivery: mark it `Success` on a completed attempt and
/// `Failed` otherwise. Afterwards the element carrying the item's id is in a
/// resolved state, so a leased order reaches success or failure in one
/// worker step.
pub fn finish_delivery(ctx: &mut Context, item: &QueueItem, success: bool)
    requires
        old(ctx).wf(),
    ensures
        final(ctx).wf(),
        final(ctx).entity_store == old(ctx).entity_store,
        final(ctx).queue_store.elems().len() == old(ctx).queue_store.elems().len(),
        forall|j: int|
            0 <= j < old(ctx).queue_store.elems().len() && (#[trigger] old(ctx).queue_store.elems()[j]).0.id == item@.id ==> final(ctx).queue_store.elems()[j] == (
                old(ctx).queue_store.elems()[j].0,
                if success {
                    QueueState::Success
                } else {
                    QueueState::Failed
                },
            ),
        forall|j: int|
            0 <= j < old(ctx).queue_store.elems().len() && (#[trigger] old(ctx).queue_store.elems()[j]).0.id != item@.id ==> final(ctx).queue_store.elems()[j] == old(ctx).queue_store.elems()[j],
{
    if success {
        ctx.queue_store.mark_success(item);
    } else {
        ctx.queue_store.mark_failure(item);
    }
}

/// Enqueue one delivery order for `item` towards `towards`, in the escaped
/// wire format.
pub fn register_delivery(ctx: &mut Context, item: &str, towards: &str) -> (r: Result<(), ()>)
    requires
        old(ctx).wf(),
    ensures
        final(ctx).wf(),
        final(ctx).entity_store == old(ctx).entity_store,
        match r {
            Ok(()) => {
                &&& final(ctx).queue_store.elems().len() == old(ctx).queue_store.elems().len() + 1
                &&& final(ctx).queue_store.elems().drop_last() == old(ctx).queue_store.elems()
                &&& final(ctx).queue_store.elems().last().0.event == "deliver"@
                &&& final(ctx).queue_store.elems().last().0.data == spec_format_delivery(
                    item@,
                    towards@,
                )
                &&& final(ctx).queue_store.elems().last().1 == QueueState::Pending
            },
            Err(()) => true,
        },
{
    proof {
        reveal_strlit("deliver");
    }
    let data = format_delivery(item, towards);
    ctx.queue_store.add(String::from_str("deliver"), data)
}

} // verus!
