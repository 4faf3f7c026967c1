//! End-to-end ingest scenarios: local create, inbound delivery, forged
//! authority, id assignment, and audience expansion into the queue.

use kroeg::assemble::JsonValue;
use kroeg::assign::{apply_assignments, make_assignments};
use kroeg::context::{Context, ServerConfig};
use kroeg::delivery::{finish_delivery, lease_delivery, plan_delivery, prepare_delivery, DeliveryPlan};
use kroeg::entity::QueueItem;
use kroeg::untangle::UntangleError;
use kroeg::entity::{PropValue, StoreItem, User};
use kroeg::ingest::{ingest, IngestError, NoopHandler};
use kroeg::queue::parse_delivery;
use kroeg::retrieve::origin_filter;
use kroeg::strutil::starts_with;
use kroeg::untangle::untangle;
use kroeg::vocab;

fn config() -> ServerConfig {
    ServerConfig {
        domain: "https://x.test".to_string(),
        name: "test server".to_string(),
        description: "a test server".to_string(),
        instance_id: 1,
        admins: vec![],
    }
}

fn user(subject: &str) -> User {
    User {
        subject: subject.to_string(),
        issuer: None,
        audience: vec![],
        claims: vec![],
        token_identifier: "test".to_string(),
    }
}

fn owned_box(id: &str, role: &str) -> StoreItem {
    let mut item = StoreItem::new(id.to_string());
    item.meta.push_value(vocab::kroeg_box_str(), PropValue::Ref(role.to_string()));
    item.meta.push_value(vocab::kroeg_instance_str(), PropValue::Number(1));
    item
}

fn local_actor(id: &str, username: &str) -> StoreItem {
    let mut item = StoreItem::new(id.to_string());
    item.main.push_value(
        vocab::as_preferred_username_str(),
        PropValue::Text(username.to_string(), String::new()),
    );
    item.main.push_value(
        vocab::as_followers_str(),
        PropValue::Ref(format!("{}/followers", id)),
    );
    item.main.push_value(vocab::ldp_inbox_str(), PropValue::Ref(format!("{}/inbox", id)));
    item.meta.push_value(vocab::kroeg_instance_str(), PropValue::Number(1));
    item
}

fn seeded_context() -> Context {
    let mut ctx = Context::new(&config(), user("https://x.test/~a"));
    ctx.entity_store.put(local_actor("https://x.test/~a", "a"));
    ctx.entity_store.put(owned_box("https://x.test/~a/outbox", vocab::as_outbox_str()));
    ctx.entity_store.put(owned_box("https://x.test/~a/inbox", vocab::ldp_inbox_str()));
    // The followers collection is an owned ordered collection holding one
    // remote follower.
    let mut followers = StoreItem::new("https://x.test/~a/followers".to_string());
    followers.main.push_type(vocab::as_ordered_collection_str().to_string());
    followers.meta.push_value(vocab::kroeg_instance_str(), PropValue::Number(1));
    ctx.entity_store.put(followers);
    ctx.entity_store.insert_collection(
        "https://x.test/~a/followers",
        "https://y.test/u/f".to_string(),
    );
    // The remote follower exposes a plain inbox.
    let mut remote = StoreItem::new("https://y.test/u/f".to_string());
    remote.main.push_value(
        vocab::ldp_inbox_str(),
        PropValue::Ref("https://y.test/u/f/inbox".to_string()),
    );
    ctx.entity_store.put(remote);
    ctx
}

fn create_note_graph() -> Vec<StoreItem> {
    let mut activity = StoreItem::new("_:b0".to_string());
    activity.main.push_type(vocab::as_create_str().to_string());
    activity.main.push_value(vocab::as_actor_str(), PropValue::Ref("https://x.test/~a".to_string()));
    activity.main.push_value(vocab::as_object_str(), PropValue::Ref("_:b1".to_string()));
    activity.main.push_value(
        vocab::as_to_str(),
        PropValue::Ref("https://x.test/~a/followers".to_string()),
    );
    let mut note = StoreItem::new("_:b1".to_string());
    note.main.push_type(vocab::as_note_str().to_string());
    note.main.push_value(
        vocab::as_content_str(),
        PropValue::Text("hi".to_string(), String::new()),
    );
    vec![activity, note]
}

#[test]
fn local_create_commits_and_queues_deliveries() {
    // An authenticated local actor posts a Create to its outbox: the
    // activity gets a fresh IRI under the actor, lands in the outbox
    // collection, and one delivery per remote follower inbox is queued.
    let mut ctx = seeded_context();
    let outcome = ingest(
        &mut ctx,
        "https://x.test/~a/outbox",
        create_note_graph(),
        Some("_:b0".to_string()),
        &mut NoopHandler,
    )
    .expect("ingest succeeds");
    assert!(starts_with(&outcome.root, "https://x.test/~a/data/"));
    assert_eq!(outcome.collection, "https://x.test/~a/outbox");
    let members = ctx.entity_store.collection_members("https://x.test/~a/outbox");
    assert_eq!(members, vec![outcome.root.clone()]);
    // The follower's remote inbox is among the queued deliveries.
    assert!(outcome.delivered.contains(&"https://y.test/u/f/inbox".to_string()));
    // The committed activity is stored under its fresh id and references the
    // re-identified note.
    let stored = ctx.entity_store.get(&outcome.root).expect("activity stored");
    let object = stored.main.first_ref(vocab::as_object_str()).expect("object kept").clone();
    assert!(starts_with(&object, "https://x.test/~a/data/"));
    assert!(ctx.entity_store.get(&object).is_some());
    // Every queued order parses back to the activity and one delivered
    // inbox; the follower's remote inbox is among them.
    let mut seen = Vec::new();
    while let Some(leased) = lease_delivery(&mut ctx) {
        let (item_id, inbox) = parse_delivery(&leased.data).expect("wire format");
        assert_eq!(item_id, outcome.root);
        assert!(outcome.delivered.contains(&inbox));
        seen.push(inbox);
        finish_delivery(&mut ctx, &leased, true);
    }
    assert!(seen.contains(&"https://y.test/u/f/inbox".to_string()));
}

#[test]
fn inbound_signed_delivery_commits_without_outbound_queue() {
    // A remote actor posts a Create into the local inbox in trust mode: the
    // activity is stored, the inbox collection holds it, nothing is queued.
    let mut ctx = seeded_context();
    ctx.user = user("https://y.test/u/b");
    let mut activity = StoreItem::new("https://y.test/u/b/act/1".to_string());
    activity.main.push_type(vocab::as_create_str().to_string());
    activity.main.push_value(
        vocab::as_actor_str(),
        PropValue::Ref("https://y.test/u/b".to_string()),
    );
    let outcome = ingest(
        &mut ctx,
        "https://x.test/~a/inbox",
        vec![activity],
        Some("https://y.test/u/b/act/1".to_string()),
        &mut NoopHandler,
    )
    .expect("ingest succeeds");
    assert_eq!(outcome.root, "https://y.test/u/b/act/1");
    let members = ctx.entity_store.collection_members("https://x.test/~a/inbox");
    assert_eq!(members, vec!["https://y.test/u/b/act/1".to_string()]);
    assert!(outcome.delivered.is_empty());
    assert!(lease_delivery(&mut ctx).is_none());
    assert!(ctx.entity_store.get("https://y.test/u/b/act/1").is_some());
}

#[test]
fn forged_authority_is_dropped() {
    // The authenticated subject is on y.test; a body item claiming a z.test
    // id is stripped from the graph before anything is stored.
    let mut ctx = seeded_context();
    ctx.user = user("https://y.test/u/b");
    let mut activity = StoreItem::new("https://y.test/u/b/act/2".to_string());
    activity.main.push_type(vocab::as_create_str().to_string());
    activity.main.push_value(
        vocab::as_actor_str(),
        PropValue::Ref("https://y.test/u/b".to_string()),
    );
    let mut forged = StoreItem::new("https://z.test/forged".to_string());
    forged.main.push_value(
        vocab::as_name_str(),
        PropValue::Text("forged".to_string(), String::new()),
    );
    ingest(
        &mut ctx,
        "https://x.test/~a/inbox",
        vec![activity, forged],
        Some("https://y.test/u/b/act/2".to_string()),
        &mut NoopHandler,
    )
    .expect("ingest succeeds");
    assert!(ctx.entity_store.get("https://z.test/forged").is_none());
    assert!(ctx.entity_store.get("https://y.test/u/b/act/2").is_some());
}

#[test]
fn origin_filter_keeps_only_matching_authority() {
    let keep = StoreItem::new("https://y.test/u/b/ok".to_string());
    let drop = StoreItem::new("https://z.test/forged".to_string());
    let blank = StoreItem::new("_:https://y.test/u/b/node".to_string());
    let kept = origin_filter(vec![keep, drop, blank], "y.test");
    let ids: Vec<String> = kept.iter().map(|it| it.id.clone()).collect();
    assert_eq!(
        ids,
        vec!["https://y.test/u/b/ok".to_string(), "_:https://y.test/u/b/node".to_string()]
    );
}

#[test]
fn post_to_nonbox_and_missing_target_are_refused() {
    let mut ctx = seeded_context();
    let err = ingest(
        &mut ctx,
        "https://x.test/~a",
        vec![],
        Some("_:b0".to_string()),
        &mut NoopHandler,
    )
    .expect_err("an actor is not a box");
    assert!(err == IngestError::PostToNonbox);
    let err = ingest(
        &mut ctx,
        "https://x.test/missing",
        vec![],
        Some("_:b0".to_string()),
        &mut NoopHandler,
    )
    .expect_err("missing target");
    assert!(err == IngestError::TargetNotFound);
}

#[test]
fn assignment_closure_on_a_fresh_graph() {
    // After assignment no id is blank, assigned ids are fresh, and the
    // object reference follows the note's new id.
    let ctx = seeded_context();
    let graph = create_note_graph();
    let news = make_assignments(
        &ctx.entity_store,
        "https://x.test",
        "https://x.test/~a",
        &graph,
    )
    .expect("assignment succeeds");
    let rewritten = apply_assignments(&graph, &news);
    assert_eq!(rewritten.len(), 2);
    for item in &rewritten {
        assert!(!item.id.starts_with("_:"));
        assert!(item.id.starts_with("https://x.test/~a/data/"));
        assert!(ctx.entity_store.get(&item.id).is_none());
    }
    assert_ne!(rewritten[0].id, rewritten[1].id);
    let object = rewritten[0].main.first_ref(vocab::as_object_str()).expect("object");
    assert_eq!(object, &rewritten[1].id);
}

#[test]
fn worker_resolves_each_leased_order() {
    // A leased order is planned and then resolved: afterwards it is either
    // done for good or eligible again, and a second worker pass drains it.
    let mut ctx = seeded_context();
    let outcome = ingest(
        &mut ctx,
        "https://x.test/~a/outbox",
        create_note_graph(),
        Some("_:b0".to_string()),
        &mut NoopHandler,
    )
    .expect("ingest succeeds");
    assert!(!outcome.delivered.is_empty());
    let mut saw_remote = false;
    let mut saw_local = false;
    let mut rounds = 0;
    while let Some(leased) = lease_delivery(&mut ctx) {
        rounds += 1;
        assert!(rounds < 100, "every order must resolve in finitely many steps");
        match plan_delivery(&ctx, &leased) {
            DeliveryPlan::Remote { object_id, inbox, actor } => {
                assert_eq!(object_id, outcome.root);
                assert_eq!(inbox, "https://y.test/u/f/inbox");
                assert_eq!(actor, "https://x.test/~a");
                if !saw_remote {
                    // First attempt fails: the order stays eligible and is
                    // leased again later.
                    saw_remote = true;
                    finish_delivery(&mut ctx, &leased, false);
                } else {
                    finish_delivery(&mut ctx, &leased, true);
                }
            },
            DeliveryPlan::Local { object_id, actor, .. } => {
                assert_eq!(object_id, outcome.root);
                assert_eq!(actor, "https://x.test/~a");
                saw_local = true;
                finish_delivery(&mut ctx, &leased, true);
            },
            DeliveryPlan::Skip => panic!("queued orders must be plannable"),
        }
    }
    assert!(saw_remote);
    assert!(saw_local);
    assert!(lease_delivery(&mut ctx).is_none());
}

#[test]
fn untangling_lifts_nested_nodes_and_names_blanks() {
    // One expanded node: a Create without an id, holding a literal content
    // value and a nested Note object.
    let nested = JsonValue::Object(vec![
        ("@id".to_string(), JsonValue::Text("https://x.test/note".to_string())),
        (
            vocab::as_content_str().to_string(),
            JsonValue::Array(vec![JsonValue::Object(vec![(
                "@value".to_string(),
                JsonValue::Text("hi".to_string()),
            )])]),
        ),
    ]);
    let activity = JsonValue::Object(vec![
        (
            "@type".to_string(),
            JsonValue::Array(vec![JsonValue::Text(vocab::as_create_str().to_string())]),
        ),
        (
            vocab::as_object_str().to_string(),
            JsonValue::Array(vec![nested]),
        ),
        (
            vocab::as_actor_str().to_string(),
            JsonValue::Array(vec![JsonValue::Object(vec![(
                "@id".to_string(),
                JsonValue::Text("https://x.test/~a".to_string()),
            )])]),
        ),
    ]);
    let doc = JsonValue::Array(vec![activity]);
    let items = untangle(&doc).expect("untangles");
    // The nested note is lifted to the top with its own id; the activity got
    // a fresh blank id and references both the note and the actor.
    assert_eq!(items.len(), 2);
    assert_eq!(items[0].id, "https://x.test/note");
    assert_eq!(
        items[0].main.first_text(vocab::as_content_str()).map(|s| s.as_str()),
        Some("hi")
    );
    assert!(items[1].id.starts_with("_:b"));
    assert!(items[1].main.has_type(vocab::as_create_str()));
    assert_eq!(
        items[1].main.first_ref(vocab::as_object_str()).map(|s| s.as_str()),
        Some("https://x.test/note")
    );
    assert_eq!(
        items[1].main.first_ref(vocab::as_actor_str()).map(|s| s.as_str()),
        Some("https://x.test/~a")
    );
}

#[test]
fn untangle_refuses_malformed_documents() {
    assert!(matches!(
        untangle(&JsonValue::Text("not a document".to_string())),
        Err(UntangleError::NotArray)
    ));
    let doc = JsonValue::Array(vec![JsonValue::Flag(true)]);
    assert!(matches!(untangle(&doc), Err(UntangleError::NotObject)));
}

#[test]
fn plan_skips_only_malformed_or_unresolvable_orders() {
    let ctx = seeded_context();
    // A non-deliver event is skipped.
    let other = QueueItem { id: 1, event: "ping".to_string(), data: "a b".to_string() };
    assert!(matches!(plan_delivery(&ctx, &other), DeliveryPlan::Skip));
    // A datum without a separator is skipped.
    let bad = QueueItem { id: 2, event: "deliver".to_string(), data: "no-separator".to_string() };
    assert!(matches!(plan_delivery(&ctx, &bad), DeliveryPlan::Skip));
    // A missing object is skipped.
    let gone = QueueItem {
        id: 3,
        event: "deliver".to_string(),
        data: "https://x.test/missing https://y.test/u/f/inbox".to_string(),
    };
    assert!(matches!(plan_delivery(&ctx, &gone), DeliveryPlan::Skip));
    // An object without a single actor is skipped.
    let mut ctx = ctx;
    ctx.entity_store.put(StoreItem::new("https://x.test/actorless".to_string()));
    let actorless = QueueItem {
        id: 4,
        event: "deliver".to_string(),
        data: "https://x.test/actorless https://y.test/u/f/inbox".to_string(),
    };
    assert!(matches!(plan_delivery(&ctx, &actorless), DeliveryPlan::Skip));
}

#[test]
fn directly_addressed_remote_actors_always_get_their_inbox() {
    // An activity addressed straight to a remote actor (no collection in
    // between) reaches that actor's declared inbox.
    let mut ctx = seeded_context();
    let mut activity = StoreItem::new("_:b0".to_string());
    activity.main.push_type(vocab::as_create_str().to_string());
    activity.main.push_value(vocab::as_actor_str(), PropValue::Ref("https://x.test/~a".to_string()));
    activity.main.push_value(
        vocab::as_to_str(),
        PropValue::Ref("https://y.test/u/f".to_string()),
    );
    let outcome = ingest(
        &mut ctx,
        "https://x.test/~a/outbox",
        vec![activity],
        Some("_:b0".to_string()),
        &mut NoopHandler,
    )
    .expect("ingest succeeds");
    assert!(outcome.delivered.contains(&"https://y.test/u/f/inbox".to_string()));
}

#[test]
fn prepare_delivery_on_a_missing_object_queues_nothing() {
    let mut ctx = seeded_context();
    let boxes = prepare_delivery(&mut ctx, "https://x.test/nothing-here", false)
        .expect("absent objects are not an error");
    assert!(boxes.is_empty());
    assert!(lease_delivery(&mut ctx).is_none());
}
