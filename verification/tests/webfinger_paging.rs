//! Webfinger resolution, collection paging, and the client-API translation.

use kroeg::entity::{PropValue, StoreItem};
use kroeg::masto::{account, decode_id, encode_id, status, timeline};
use kroeg::page::{collection_page_item, read_collection};
use kroeg::strutil::dec_to_u64;
use kroeg::store::MemoryStore;
use kroeg::vocab;
use kroeg::webfinger::webfinger;

fn local_user(id: &str, username: &str) -> StoreItem {
    let mut item = StoreItem::new(id.to_string());
    item.main.push_value(
        vocab::as_preferred_username_str(),
        PropValue::Text(username.to_string(), String::new()),
    );
    item.meta.push_value(vocab::kroeg_instance_str(), PropValue::Number(1));
    item
}

#[test]
fn webfinger_describes_a_local_user() {
    let mut store = MemoryStore::new();
    store.put(local_user("https://x.test/~a", "a"));
    let jrd = webfinger(&store, 1, "resource=acct:a@x.test").expect("resolves");
    assert_eq!(jrd.subject, "acct:a@x.test");
    assert_eq!(jrd.aliases, vec!["https://x.test/~a".to_string()]);
    assert_eq!(jrd.links.len(), 1);
    assert_eq!(jrd.links[0].rel, "self");
    assert_eq!(jrd.links[0].media_type, "application/activity+json");
    assert_eq!(jrd.links[0].href, "https://x.test/~a");
}

#[test]
fn webfinger_misses_unknown_users_and_foreign_instances() {
    let mut store = MemoryStore::new();
    store.put(local_user("https://x.test/~a", "a"));
    assert!(webfinger(&store, 1, "resource=acct:b@x.test").is_none());
    // The same username on another instance id is not this server's user.
    assert!(webfinger(&store, 2, "resource=acct:a@x.test").is_none());
    assert!(webfinger(&store, 1, "unrelated=1").is_none());
}

#[test]
fn paging_walks_the_collection_newest_first_and_terminates() {
    let mut store = MemoryStore::new();
    let coll = "https://x.test/~a/outbox";
    for i in 0..45 {
        store.insert_collection(coll, format!("https://x.test/act/{}", i));
    }
    // The first page holds the newest items.
    let first = read_collection(&store, coll, None, None);
    assert_eq!(first.items.len(), 20);
    assert_eq!(first.items[0], "https://x.test/act/44");
    assert_eq!(first.items[19], "https://x.test/act/25");
    assert_eq!(first.before, None);
    // Following `after` terminates with all members seen exactly once.
    let mut seen = first.items.clone();
    let mut cursor = first.after;
    let mut pages = 1;
    while let Some(c) = cursor {
        let page = read_collection(&store, coll, None, Some(c));
        assert!(!page.items.is_empty());
        seen.extend(page.items.iter().cloned());
        cursor = page.after;
        pages += 1;
        assert!(pages <= 10, "paging must terminate");
    }
    assert_eq!(pages, 3);
    assert_eq!(seen.len(), 45);
    assert_eq!(seen[44], "https://x.test/act/0");
    // An empty collection yields an empty page without cursors.
    let empty = read_collection(&store, "https://x.test/empty", None, None);
    assert!(empty.items.is_empty());
    assert_eq!(empty.after, None);
    assert_eq!(empty.before, None);
}

#[test]
fn page_entity_carries_items_and_cursors() {
    let mut store = MemoryStore::new();
    let coll = "https://x.test/~a/outbox";
    for i in 0..25 {
        store.insert_collection(coll, format!("https://x.test/act/{}", i));
    }
    let page = read_collection(&store, coll, None, None);
    let item = collection_page_item(coll, "first", &page);
    assert_eq!(item.id, "https://x.test/~a/outbox?first");
    assert!(item.main.has_type(vocab::as_ordered_collection_page_str()));
    assert_eq!(
        item.main.single_ref(vocab::as_part_of_str()).map(|s| s.as_str()),
        Some(coll)
    );
    assert_eq!(item.main.values(vocab::as_items_str()).len(), 20);
    assert_eq!(
        item.main.single_ref(vocab::as_next_str()).map(|s| s.as_str()),
        Some("https://x.test/~a/outbox?20")
    );
    assert!(item.main.single_ref(vocab::as_prev_str()).is_none());
}

#[test]
fn opaque_ids_round_trip() {
    let id = "https://x.test/~a/data/7";
    assert_eq!(decode_id(&encode_id(id)), id);
    assert_eq!(decode_id("!!!not base64!!!"), "");
}

#[test]
fn account_translation_reads_the_stored_actor() {
    let mut store = MemoryStore::new();
    let mut actor = local_user("https://x.test/~a", "a");
    actor.main.push_value(
        vocab::as_name_str(),
        PropValue::Text("Alice".to_string(), String::new()),
    );
    actor.main.push_value(
        vocab::as_summary_str(),
        PropValue::Text("hello".to_string(), String::new()),
    );
    store.put(actor);
    let acc = account(&store, "https://x.test/~a").expect("translates");
    assert_eq!(acc.username, "a");
    assert_eq!(acc.display_name, "Alice");
    assert_eq!(acc.note, "hello");
    assert_eq!(acc.url, "https://x.test/~a");
    assert_eq!(acc.id, encode_id("https://x.test/~a"));
    assert!(account(&store, "https://x.test/missing").is_none());
}

#[test]
fn status_translation_follows_create_to_the_note() {
    let mut store = MemoryStore::new();
    store.put(local_user("https://x.test/~a", "a"));
    let mut note = StoreItem::new("https://x.test/~a/data/n1".to_string());
    note.main.push_type(vocab::as_note_str().to_string());
    note.main.push_value(
        vocab::as_content_str(),
        PropValue::Text("hi".to_string(), String::new()),
    );
    note.main.push_value(
        vocab::as_attributed_to_str(),
        PropValue::Ref("https://x.test/~a".to_string()),
    );
    store.put(note);
    let mut create = StoreItem::new("https://x.test/~a/data/c1".to_string());
    create.main.push_type(vocab::as_create_str().to_string());
    create.main.push_value(
        vocab::as_object_str(),
        PropValue::Ref("https://x.test/~a/data/n1".to_string()),
    );
    store.put(create);
    let st = status(&store, "https://x.test/~a/data/c1", 8).expect("translates");
    assert_eq!(st.uri, "https://x.test/~a/data/n1");
    assert_eq!(st.content, "hi");
    assert_eq!(st.account.username, "a");
    assert!(st.reblog.is_none());
    // A non-note target translates to nothing.
    assert!(status(&store, "https://x.test/~a", 8).is_none());
}

#[test]
fn timeline_translates_a_collection_page() {
    let mut store = MemoryStore::new();
    store.put(local_user("https://x.test/~a", "a"));
    let mut note = StoreItem::new("https://x.test/~a/data/n1".to_string());
    note.main.push_type(vocab::as_note_str().to_string());
    note.main.push_value(
        vocab::as_content_str(),
        PropValue::Text("hi".to_string(), String::new()),
    );
    note.main.push_value(
        vocab::as_attributed_to_str(),
        PropValue::Ref("https://x.test/~a".to_string()),
    );
    store.put(note);
    store.insert_collection("https://x.test/~a/outbox", "https://x.test/~a/data/n1".to_string());
    store.insert_collection("https://x.test/~a/outbox", "https://x.test/not-a-note".to_string());
    let (statuses, _before, after) = timeline(&store, "https://x.test/~a/outbox", None);
    assert_eq!(statuses.len(), 1);
    assert_eq!(statuses[0].content, "hi");
    assert_eq!(after, None);
}

#[test]
fn decimal_parsing() {
    assert_eq!(dec_to_u64("0"), Some(0));
    assert_eq!(dec_to_u64("90210"), Some(90210));
    assert_eq!(dec_to_u64("18446744073709551615"), Some(u64::MAX));
    assert_eq!(dec_to_u64("18446744073709551616"), None);
    assert_eq!(dec_to_u64(""), None);
    assert_eq!(dec_to_u64("12a"), None);
}
