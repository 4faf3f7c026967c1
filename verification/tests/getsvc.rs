//! Resolving GET requests: visibility and collection page synthesis.

use kroeg::assemble::{apply_supplement, assemble, assemble_outgoing, outgoing_context, JsonValue};
use kroeg::context::{Context, ServerConfig};
use kroeg::entity::{PropValue, StoreItem, User};
use kroeg::getsvc::get_object;
use kroeg::vocab;

fn context() -> Context {
    Context::new(
        &ServerConfig {
            domain: "https://x.test".to_string(),
            name: "t".to_string(),
            description: "t".to_string(),
            instance_id: 1,
            admins: vec![],
        },
        User {
            subject: "https://viewer.test/u".to_string(),
            issuer: None,
            audience: vec![],
            claims: vec![],
            token_identifier: "t".to_string(),
        },
    )
}

fn public_note(id: &str) -> StoreItem {
    let mut note = StoreItem::new(id.to_string());
    note.main.push_type(vocab::as_note_str().to_string());
    note.main.push_value(
        vocab::as_to_str(),
        PropValue::Ref(vocab::as_public_str().to_string()),
    );
    note
}

#[test]
fn visible_objects_are_served_and_hidden_ones_are_not() {
    let mut ctx = context();
    ctx.entity_store.put(public_note("https://x.test/n1"));
    let mut private_note = StoreItem::new("https://x.test/n2".to_string());
    private_note.main.push_value(
        vocab::as_to_str(),
        PropValue::Ref("https://someone-else.test/u".to_string()),
    );
    ctx.entity_store.put(private_note);
    assert!(get_object(&ctx, "https://x.test/n1").is_some());
    assert!(get_object(&ctx, "https://x.test/n2").is_none());
    assert!(get_object(&ctx, "https://x.test/missing").is_none());
}

#[test]
fn owned_collections_page_through_queries() {
    let mut ctx = context();
    let coll = "https://x.test/~a/outbox";
    let mut outbox = StoreItem::new(coll.to_string());
    outbox.main.push_type(vocab::as_ordered_collection_str().to_string());
    outbox.main.push_value(
        vocab::as_to_str(),
        PropValue::Ref(vocab::as_public_str().to_string()),
    );
    outbox.meta.push_value(vocab::kroeg_instance_str(), PropValue::Number(1));
    ctx.entity_store.put(outbox);
    for i in 0..30 {
        ctx.entity_store.insert_collection(coll, format!("https://x.test/act/{}", i));
    }
    // Without a query the collection grows a pointer to its first page.
    let bare = get_object(&ctx, coll).expect("visible");
    assert_eq!(
        bare.main.first_ref(vocab::as_first_str()).map(|s| s.as_str()),
        Some("https://x.test/~a/outbox?first")
    );
    // The first page lists the newest items and links onwards.
    let page = get_object(&ctx, "https://x.test/~a/outbox?first").expect("page");
    assert!(page.main.has_type(vocab::as_ordered_collection_page_str()));
    assert_eq!(page.main.values(vocab::as_items_str()).len(), 20);
    assert_eq!(
        page.main.single_ref(vocab::as_next_str()).map(|s| s.as_str()),
        Some("https://x.test/~a/outbox?20")
    );
    // Following the cursor reaches the end.
    let last = get_object(&ctx, "https://x.test/~a/outbox?20").expect("page");
    assert_eq!(last.main.values(vocab::as_items_str()).len(), 10);
    assert!(last.main.single_ref(vocab::as_next_str()).is_none());
    // A malformed cursor resolves to nothing.
    assert!(get_object(&ctx, "https://x.test/~a/outbox?junk").is_none());
}

#[test]
fn assembling_inlines_visible_references_and_keeps_cycles_bare() {
    let mut ctx = context();
    // Two public notes referencing each other: a cycle.
    let mut first = public_note("https://x.test/n1");
    first.main.push_value(
        vocab::as_in_reply_to_str(),
        PropValue::Ref("https://x.test/n2".to_string()),
    );
    let mut second = public_note("https://x.test/n2");
    second.main.push_value(
        vocab::as_in_reply_to_str(),
        PropValue::Ref("https://x.test/n1".to_string()),
    );
    ctx.entity_store.put(first.clone());
    ctx.entity_store.put(second);
    let mut seen = Vec::new();
    let doc = assemble(
        &ctx.entity_store,
        &first,
        0,
        "https://viewer.test/u",
        1,
        &mut seen,
    );
    let fields = match doc {
        JsonValue::Object(fields) => fields,
        _ => panic!("an assembled item is an object"),
    };
    assert_eq!(fields[0].0, "@id");
    match &fields[0].1 {
        JsonValue::Text(id) => assert_eq!(id, "https://x.test/n1"),
        _ => panic!("@id is a string"),
    }
    // The reply reference is inlined one level deep.
    let reply = fields
        .iter()
        .find(|(k, _)| k == vocab::as_in_reply_to_str())
        .expect("reply attribute kept");
    let inlined = match &reply.1 {
        JsonValue::Array(vals) => match &vals[0] {
            JsonValue::Object(inner) => inner,
            _ => panic!("inlined node is an object"),
        },
        _ => panic!("attribute values are arrays"),
    };
    match &inlined[0].1 {
        JsonValue::Text(id) => assert_eq!(id, "https://x.test/n2"),
        _ => panic!("@id is a string"),
    }
    // The cycle back to the root stays a bare reference: one field only.
    let back = inlined
        .iter()
        .find(|(k, _)| k == vocab::as_in_reply_to_str())
        .expect("back reference kept");
    match &back.1 {
        JsonValue::Array(vals) => match &vals[0] {
            JsonValue::Object(bare) => assert_eq!(bare.len(), 1),
            _ => panic!("bare reference is an object"),
        },
        _ => panic!("attribute values are arrays"),
    }
}

#[test]
fn context_supplement_application() {
    let supplement = || JsonValue::Text("https://x.test/-/context".to_string());
    // A single context becomes a pair.
    let doc = JsonValue::Object(vec![(
        "@context".to_string(),
        JsonValue::Text("https://www.w3.org/ns/activitystreams".to_string()),
    )]);
    let out = apply_supplement(doc, supplement());
    match out {
        JsonValue::Object(fields) => match &fields[0].1 {
            JsonValue::Array(parts) => assert_eq!(parts.len(), 2),
            _ => panic!("the context becomes an array"),
        },
        _ => panic!("objects stay objects"),
    }
    // A document without a context is left alone.
    let plain = JsonValue::Object(vec![(
        "@id".to_string(),
        JsonValue::Text("https://x.test/n".to_string()),
    )]);
    match apply_supplement(plain, supplement()) {
        JsonValue::Object(fields) => {
            assert_eq!(fields.len(), 1);
            assert_eq!(fields[0].0, "@id");
        },
        _ => panic!("objects stay objects"),
    }
}

#[test]
fn outgoing_context_names_both_documents() {
    match outgoing_context("https://x.test") {
        JsonValue::Array(parts) => {
            assert_eq!(parts.len(), 2);
            match (&parts[0], &parts[1]) {
                (JsonValue::Text(a), JsonValue::Text(b)) => {
                    assert_eq!(a, "https://www.w3.org/ns/activitystreams");
                    assert_eq!(b, "https://x.test/-/context");
                },
                _ => panic!("both context entries are strings"),
            }
        },
        _ => panic!("the outgoing context is an array"),
    }
}

#[test]
fn outgoing_assembly_keeps_remote_content_as_bare_references() {
    let mut ctx = context();
    // An owned public activity referencing a remote public note.
    let mut activity = public_note("https://x.test/act/1");
    activity.meta.push_value(vocab::kroeg_instance_str(), PropValue::Number(1));
    activity.main.push_value(
        vocab::as_object_str(),
        PropValue::Ref("https://y.test/remote-note".to_string()),
    );
    ctx.entity_store.put(activity.clone());
    ctx.entity_store.put(public_note("https://y.test/remote-note"));
    // The serving assembly inlines the remote note (it is public).
    let mut seen = Vec::new();
    let doc = assemble(&ctx.entity_store, &activity, 0, "https://viewer.test/u", 1, &mut seen);
    let object_field = |doc: &JsonValue| -> usize {
        match doc {
            JsonValue::Object(fields) => match &fields
                .iter()
                .find(|(k, _)| k == vocab::as_object_str())
                .expect("object attribute kept")
                .1
            {
                JsonValue::Array(vals) => match &vals[0] {
                    JsonValue::Object(inner) => inner.len(),
                    _ => panic!("rendered values are objects"),
                },
                _ => panic!("attribute values are arrays"),
            },
            _ => panic!("assembled items are objects"),
        }
    };
    assert!(object_field(&doc) > 1, "the serving assembly inlines the public remote note");
    // The outgoing assembly keeps it as a bare reference.
    let mut seen = Vec::new();
    let out = assemble_outgoing(
        &ctx.entity_store,
        &activity,
        0,
        "https://viewer.test/u",
        1,
        &mut seen,
    );
    assert_eq!(object_field(&out), 1, "remote content is not re-exposed verbatim");
}
