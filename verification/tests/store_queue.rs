//! The entity store port guarantees, the replacement guard, and the queue
//! lease discipline.

use kroeg::entity::{PropValue, QueueItem, StoreItem};
use kroeg::queue::MemoryQueue;
use kroeg::store::{store_all, MemoryStore};
use kroeg::vocab;

fn item_with_instance(id: &str, instance: i64) -> StoreItem {
    let mut item = StoreItem::new(id.to_string());
    item.meta.push_value(vocab::kroeg_instance_str(), PropValue::Number(instance));
    item
}

fn named_item(id: &str, instance: i64, name: &str) -> StoreItem {
    let mut item = item_with_instance(id, instance);
    item.main.push_value(
        vocab::as_name_str(),
        PropValue::Text(name.to_string(), String::new()),
    );
    item
}

#[test]
fn get_after_put_returns_stored_value() {
    let mut store = MemoryStore::new();
    let item = named_item("https://x.test/~a", 1, "alice");
    store.put(item);
    let read = store.get("https://x.test/~a").expect("stored");
    assert_eq!(read.id, "https://x.test/~a");
    assert_eq!(
        read.main.first_text(vocab::as_name_str()).map(|s| s.as_str()),
        Some("alice")
    );
    assert_eq!(read.instance(), Some(1));
    assert!(store.get("https://x.test/unknown").is_none());
}

#[test]
fn put_replaces_under_same_id() {
    let mut store = MemoryStore::new();
    store.put(named_item("https://x.test/~a", 1, "alice"));
    store.put(named_item("https://x.test/~a", 1, "alice2"));
    let read = store.get("https://x.test/~a").expect("stored");
    assert_eq!(
        read.main.first_text(vocab::as_name_str()).map(|s| s.as_str()),
        Some("alice2")
    );
}

#[test]
fn cross_instance_overwrite_refused() {
    // A remote instance asserting an owned IRI must not replace it.
    let mut store = MemoryStore::new();
    store.put(named_item("https://x.test/~a", 1, "alice"));
    let forged = named_item("https://x.test/~a", 2, "pwned");
    store_all(&mut store, vec![forged]);
    let read = store.get("https://x.test/~a").expect("still stored");
    assert_eq!(
        read.main.first_text(vocab::as_name_str()).map(|s| s.as_str()),
        Some("alice")
    );
    assert_eq!(read.instance(), Some(1));
}

#[test]
fn same_instance_replacement_allowed_and_new_items_stored() {
    let mut store = MemoryStore::new();
    store.put(named_item("https://x.test/~a", 1, "alice"));
    let update = named_item("https://x.test/~a", 1, "renamed");
    let fresh = named_item("https://x.test/new", 7, "fresh");
    store_all(&mut store, vec![update, fresh]);
    assert_eq!(
        store.get("https://x.test/~a").unwrap().main.first_text(vocab::as_name_str()).map(
            |s| s.as_str(),
        ),
        Some("renamed")
    );
    assert_eq!(store.get("https://x.test/new").unwrap().instance(), Some(7));
}

#[test]
fn collections_append_find_remove_inverse() {
    let mut store = MemoryStore::new();
    let coll = "https://x.test/~a/outbox";
    store.insert_collection(coll, "https://x.test/act/1".to_string());
    store.insert_collection(coll, "https://x.test/act/2".to_string());
    assert!(store.find_collection(coll, "https://x.test/act/1"));
    assert!(!store.find_collection(coll, "https://x.test/act/3"));
    let members = store.collection_members(coll);
    assert_eq!(members, vec!["https://x.test/act/1", "https://x.test/act/2"]);
    let containing = store.collections_containing("https://x.test/act/2");
    assert_eq!(containing, vec![coll.to_string()]);
}

#[test]
fn subjects_with_ref_finds_followers() {
    let mut store = MemoryStore::new();
    let mut follower = StoreItem::new("https://x.test/~b".to_string());
    follower.main.push_value(
        vocab::as_followers_str(),
        PropValue::Ref("https://y.test/u/r".to_string()),
    );
    store.put(follower);
    let subjects = store.subjects_with_ref(vocab::as_followers_str(), "https://y.test/u/r");
    assert_eq!(subjects, vec!["https://x.test/~b".to_string()]);
    assert!(store.subjects_with_ref(vocab::as_followers_str(), "https://y.test/other").is_empty());
}

#[test]
fn queue_leases_pending_never_success() {
    let mut queue = MemoryQueue::new();
    queue.add("deliver".to_string(), "a b".to_string()).unwrap();
    let leased: QueueItem = queue.get_item().expect("one pending");
    assert_eq!(leased.event, "deliver");
    assert_eq!(leased.data, "a b");
    // While leased, nothing is available.
    assert!(queue.get_item().is_none());
    queue.mark_success(&leased);
    // A succeeded element is never handed out again.
    assert!(queue.get_item().is_none());
}

#[test]
fn queue_failed_items_are_leased_again() {
    let mut queue = MemoryQueue::new();
    queue.add("deliver".to_string(), "a b".to_string()).unwrap();
    let leased = queue.get_item().expect("one pending");
    queue.mark_failure(&leased);
    let again = queue.get_item().expect("failed is eligible again");
    assert_eq!(again.id, leased.id);
    queue.mark_success(&again);
    assert!(queue.get_item().is_none());
}

#[test]
fn queue_hands_out_each_pending_item() {
    let mut queue = MemoryQueue::new();
    queue.add("deliver".to_string(), "1".to_string()).unwrap();
    queue.add("deliver".to_string(), "2".to_string()).unwrap();
    let first = queue.get_item().expect("first");
    queue.mark_success(&first);
    let second = queue.get_item().expect("second");
    assert_ne!(first.id, second.id);
    queue.mark_success(&second);
    assert!(queue.get_item().is_none());
}

#[test]
fn remove_collection_deletes_every_occurrence() {
    let mut store = MemoryStore::new();
    let coll = "https://x.test/~a/followers";
    store.insert_collection(coll, "https://y.test/u/1".to_string());
    store.insert_collection(coll, "https://y.test/u/2".to_string());
    store.insert_collection(coll, "https://y.test/u/1".to_string());
    store.remove_collection(coll, "https://y.test/u/1");
    assert_eq!(store.collection_members(coll), vec!["https://y.test/u/2".to_string()]);
    // Removing from a collection that does not exist changes nothing.
    store.remove_collection("https://x.test/none", "https://y.test/u/1");
    assert!(store.collection_members("https://x.test/none").is_empty());
}
