//! The retrieving store's fetch rule, the origin-restricted write-through,
//! and the visibility and replacement decisions.

use kroeg::auth::{audience_has, can_replace, can_show, can_show_local};
use kroeg::entity::{PropValue, StoreItem};
use kroeg::owned_by;
use kroeg::retrieve::{fetch_decision, public_collection, FetchDecision, RetrievingEntityStore};
use kroeg::store::MemoryStore;
use kroeg::vocab;

fn with_instance(id: &str, instance: i64) -> StoreItem {
    let mut item = StoreItem::new(id.to_string());
    item.meta.push_value(vocab::kroeg_instance_str(), PropValue::Number(instance));
    item
}

#[test]
fn fetch_rule_never_fetches_local_blank_or_tag_ids() {
    let base = "https://x.test";
    assert!(fetch_decision("https://x.test/~a", base) == FetchDecision::Deny);
    assert!(fetch_decision("_:b0", base) == FetchDecision::Deny);
    assert!(
        fetch_decision("https://www.w3.org/ns/activitystreams#tagabcd", base)
            == FetchDecision::Deny
    );
    assert!(
        fetch_decision(vocab::as_public_str(), base) == FetchDecision::SynthesizePublic
    );
    assert!(fetch_decision("https://y.test/u/b", base) == FetchDecision::Fetch);
}

#[test]
fn public_collection_is_synthesized() {
    let item = public_collection();
    assert_eq!(item.id, vocab::as_public_str());
    assert!(item.main.has_type(vocab::as_collection_str()));
}

#[test]
fn fetched_graphs_are_origin_restricted() {
    // A host may only assert facts about its own IRIs: items from other
    // authorities are dropped on the fetch write-through.
    let mut store = RetrievingEntityStore::new(MemoryStore::new(), "https://x.test".to_string());
    let own = StoreItem::new("https://y.test/u/b".to_string());
    let foreign = StoreItem::new("https://z.test/other".to_string());
    store.store_fetched(vec![own, foreign], "y.test");
    assert!(store.get_local("https://y.test/u/b").is_some());
    assert!(store.get_local("https://z.test/other").is_none());
    assert!(store.needs_fetch("https://q.test/u") == FetchDecision::Fetch);
}

#[test]
fn visibility_follows_audience_and_ownership() {
    let mut public_note = with_instance("https://x.test/n1", 1);
    public_note.main.push_value(
        vocab::as_to_str(),
        PropValue::Ref(vocab::as_public_str().to_string()),
    );
    assert!(audience_has(&public_note, vocab::as_public_str()));
    assert!(can_show(&public_note, "https://anyone.test/u", 1));

    let mut addressed = with_instance("https://x.test/n2", 1);
    addressed.main.push_value(
        vocab::as_bcc_str(),
        PropValue::Ref("https://y.test/u/b".to_string()),
    );
    assert!(can_show(&addressed, "https://y.test/u/b", 1));
    assert!(!can_show(&addressed, "https://y.test/u/other", 1));

    let mut own_note = with_instance("https://x.test/n3", 1);
    own_note.main.push_value(
        vocab::as_attributed_to_str(),
        PropValue::Ref("https://x.test/~a".to_string()),
    );
    assert!(can_show(&own_note, "https://x.test/~a", 1));
    // The same item on another instance is not owned there.
    assert!(!can_show(&own_note, "https://x.test/~a", 2));
}

#[test]
fn local_only_visibility_requires_ownership() {
    let mut remote_public = with_instance("https://y.test/n1", 9);
    remote_public.main.push_value(
        vocab::as_to_str(),
        PropValue::Ref(vocab::as_public_str().to_string()),
    );
    assert!(can_show(&remote_public, "https://x.test/~a", 1));
    assert!(!can_show_local(&remote_public, "https://x.test/~a", 1));
    let mut owned_public = with_instance("https://x.test/n2", 1);
    owned_public.main.push_value(
        vocab::as_to_str(),
        PropValue::Ref(vocab::as_public_str().to_string()),
    );
    assert!(can_show_local(&owned_public, "https://x.test/~a", 1));
}

#[test]
fn replacement_needs_matching_instance_tags() {
    let ours = with_instance("https://x.test/n1", 1);
    let also_ours = with_instance("https://x.test/n1", 1);
    let theirs = with_instance("https://x.test/n1", 2);
    let untagged = StoreItem::new("https://x.test/n1".to_string());
    assert!(can_replace(&ours, &also_ours));
    assert!(!can_replace(&ours, &theirs));
    assert!(!can_replace(&ours, &untagged));
    assert!(can_replace(&untagged, &untagged.clone()));
}

#[test]
fn ownership_is_instance_equality() {
    assert!(owned_by(3, 3));
    assert!(!owned_by(3, 4));
    let item = with_instance("https://x.test/n1", 5);
    assert!(item.is_owned(5));
    assert!(!item.is_owned(6));
    assert!(!StoreItem::new("https://x.test/n2".to_string()).is_owned(5));
}
