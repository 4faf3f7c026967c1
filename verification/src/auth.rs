//! Visibility and replacement decisions over graph items (the authorizer).

use vstd::prelude::*;

use crate::entity::{spec_first_number, spec_lookup, EntityV, PropValue, PropValueV, StoreItem};
use crate::strutil::str_eq;
use crate::vocab;

verus! {

/// The instance tag of an abstract store item.
pub open spec fn spec_instance_of(item: crate::entity::StoreItemV) -> Option<i64> {
    spec_first_number(spec_lookup(item.meta.props, vocab::kroeg_instance()))
}

/// `vals` holds a reference to `iri`.
pub open spec fn spec_has_ref(vals: Seq<PropValueV>, iri: Seq<char>) -> bool {
    exists|j: int| 0 <= j < vals.len() && vals[j] == PropValueV::Ref(iri)
}

/// Scan a slice of values for a reference to `iri`.
pub fn has_ref(vals: &[PropValue], iri: &str) -> (r: bool)
    ensures
        r == spec_has_ref(vals@.map_values(|v: PropValue| v@), iri@),
{
    let ghost view = vals@.map_values(|v: PropValue| v@);
    let n = vals.len();
    let mut i: usize = 0;
    while i < n
        invariant
            n == vals@.len(),
            view == vals@.map_values(|v: PropValue| v@),
            i <= n,
            forall|j: int| 0 <= j < i ==> view[j] != PropValueV::Ref(iri@),
        decreases n - i,
    {
        if let PropValue::Ref(id) = &vals[i] {
            if str_eq(id.as_str(), iri) {
                proof {
                    assert(view[i as int] == PropValueV::Ref(iri@));
                }
                return true;
            }
        }
        proof {
            assert(view[i as int] != PropValueV::Ref(iri@));
        }
        i = i + 1;
    }
    proof {
        if spec_has_ref(view, iri@) {
            let j = choose|j: int| 0 <= j < view.len() && view[j] == PropValueV::Ref(iri@);
            assert(view[j] != PropValueV::Ref(iri@));
        }
    }
    false
}

/// The addressing of a node mentions `iri` in `to`, `bto`, `cc`, `bcc` or
/// `audience`.
pub open spec fn spec_audience_has(main: EntityV, iri: Seq<char>) -> bool {
    ||| spec_has_ref(spec_lookup(main.props, vocab::as_to()), iri)
    ||| spec_has_ref(spec_lookup(main.props, vocab::as_bto()), iri)
    ||| spec_has_ref(spec_lookup(main.props, vocab::as_cc()), iri)
    ||| spec_has_ref(spec_lookup(main.props, vocab::as_bcc()), iri)
    ||| spec_has_ref(spec_lookup(main.props, vocab::as_audience()), iri)
}

/// Scan the five addressing attributes of an item's main node for `iri`.
pub fn audience_has(item: &StoreItem, iri: &str) -> (r: bool)
    ensures
        r == spec_audience_has(item@.main, iri@),
{
    if has_ref(item.main.values(vocab::as_to_str()), iri) {
        return true;
    }
    if has_ref(item.main.values(vocab::as_bto_str()), iri) {
        return true;
    }
    if has_ref(item.main.values(vocab::as_cc_str()), iri) {
        return true;
    }
    if has_ref(item.main.values(vocab::as_bcc_str()), iri) {
        return true;
    }
    has_ref(item.main.values(vocab::as_audience_str()), iri)
}

/// The default visibility rule: an item may be shown to a principal iff it is
/// public, or the principal is addressed, or the principal owns it.
pub open spec fn spec_can_show(item: crate::entity::StoreItemV, subject: Seq<char>, instance_id: u32) -> bool {
    ||| spec_audience_has(item.main, vocab::as_public())
    ||| spec_audience_has(item.main, subject)
    ||| (spec_instance_of(item) == Some(instance_id as i64) && (spec_has_ref(
        spec_lookup(item.main.props, vocab::as_attributed_to()),
        subject,
    ) || spec_has_ref(spec_lookup(item.main.props, vocab::as_actor()), subject)))
}

/// Decide visibility for the principal with the given subject.
pub fn can_show(item: &StoreItem, subject: &str, instance_id: u32) -> (r: bool)
    ensures
        r == spec_can_show(item@, subject@, instance_id),
{
    if audience_has(item, vocab::as_public_str()) {
        return true;
    }
    if audience_has(item, subject) {
        return true;
    }
    if item.is_owned(instance_id) {
        if has_ref(item.main.values(vocab::as_attributed_to_str()), subject) {
            return true;
        }
        return has_ref(item.main.values(vocab::as_actor_str()), subject);
    }
    false
}

/// The local-only rule wrapped around the default one: the item must in
/// addition be owned by this server.
pub open spec fn spec_can_show_local(
    item: crate::entity::StoreItemV,
    subject: Seq<char>,
    instance_id: u32,
) -> bool {
    spec_instance_of(item) == Some(instance_id as i64) && spec_can_show(item, subject, instance_id)
}

/// Decide local-only visibility.
pub fn can_show_local(item: &StoreItem, subject: &str, instance_id: u32) -> (r: bool)
    ensures
        r == spec_can_show_local(item@, subject@, instance_id),
{
    item.is_owned(instance_id) && can_show(item, subject, instance_id)
}

/// The replacement rule: a new item may replace a stored one iff both carry
/// the same instance tag.
pub open spec fn spec_can_replace(prev: crate::entity::StoreItemV, new: crate::entity::StoreItemV) -> bool {
    spec_instance_of(prev) == spec_instance_of(new)
}

/// Decide whether `new` may replace `prev`.
pub fn can_replace(prev: &StoreItem, new: &StoreItem) -> (r: bool)
    ensures
        r == spec_can_replace(prev@, new@),
{
    let a = prev.instance();
    let b = new.instance();
    match (a, b) {
        (Some(x), Some(y)) => x == y,
        (None, None) => true,
        _ => false,
    }
}

} // verus!
