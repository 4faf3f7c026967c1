//! Serving GET requests: resolve the entity behind a request IRI, enforce
//! visibility, and synthesize collection pages for owned ordered
//! collections.

use vstd::prelude::*;

use crate::auth::{can_show, spec_can_show};
use crate::context::Context;
use crate::entity::{PropValue, StoreItem};
use crate::page::{collection_page_item, read_collection};
use crate::strutil::{dec_to_u64, find_char, lemma_find_char, spec_find_char, spec_parse_dec, str_eq, substring};
use crate::vocab;

verus! {

/// The entity IRI named by a request IRI: everything before the first `?`.
pub open spec fn spec_request_id(url: Seq<char>) -> Seq<char> {
    match spec_find_char(url, '?') {
        Some(i) => url.take(i),
        None => url,
    }
}

/// Resolve the object behind a request IRI for the active principal.
///
/// The stored entity must exist and be visible. For an owned ordered
/// collection, a query names a page: `first` is the newest page, a decimal
/// cursor continues; without a query the collection gains a synthetic
/// `as:first` pointing at its first page.
pub fn get_object(ctx: &Context, url: &str) -> (r: Option<StoreItem>)
    requires
        ctx.wf(),
    ensures
        match r {
            Some(out) => ctx.entity_store.contents().contains_key(spec_request_id(url@))
                && spec_can_show(
                ctx.entity_store.contents()[spec_request_id(url@)],
                ctx.user@.subject,
                ctx.instance_id,
            ),
            None => {
                ||| !ctx.entity_store.contents().contains_key(spec_request_id(url@))
                || !spec_can_show(
                    ctx.entity_store.contents()[spec_request_id(url@)],
                    ctx.user@.subject,
                    ctx.instance_id,
                )
                ||| {
                    let query = match spec_find_char(url@, '?') {
                        Some(i) => url@.skip(i + 1),
                        None => Seq::empty(),
                    };
                    &&& spec_find_char(url@, '?') is Some
                    &&& query != "first"@
                    &&& (crate::strutil::spec_parse_dec(query) is None
                        || crate::strutil::spec_parse_dec(query)->0 > u64::MAX as nat)
                }
            },
        },
{
    let len = url.unicode_len();
    let (id, query) = match find_char(url, '?') {
        Some(i) => {
            proof {
                lemma_find_char(url@, '?');
            }
            let id = substring(url, 0, i);
            let query = substring(url, i + 1, len);
            (id, Some(query))
        },
        None => (url.to_owned(), None),
    };
    let item = match ctx.entity_store.get(id.as_str()) {
        Some(item) => item,
        None => {
            return None;
        },
    };
    if !can_show(&item, ctx.user.subject.as_str(), ctx.instance_id) {
        return None;
    }
    let paged = item.is_owned(ctx.instance_id) && item.main.has_type(
        vocab::as_ordered_collection_str(),
    );
    if !paged {
        return Some(item);
    }
    match query {
        Some(q) => {
            proof {
                reveal_strlit("first");
            }
            let cursor = if str_eq(q.as_str(), "first") {
                None
            } else {
                match dec_to_u64(q.as_str()) {
                    Some(c) => Some(c),
                    None => {
                        return None;
                    },
                }
            };
            let page = read_collection(&ctx.entity_store, id.as_str(), None, cursor);
            Some(collection_page_item(id.as_str(), q.as_str(), &page))
        },
        None => {
            let mut first = id.clone();
            first.append("?first");
            let mut out = item;
            out.main.push_value(vocab::as_first_str(), PropValue::Ref(first));
            Some(out)
        },
    }
}

/// The handler answering GET requests: resolve and page entities.
pub struct GetHandler;

impl GetHandler {
    /// Serve one GET request IRI.
    pub fn run(&self, ctx: &Context, url: &str) -> (r: Option<StoreItem>)
        requires
            ctx.wf(),
        ensures
            match r {
                Some(out) => ctx.entity_store.contents().contains_key(spec_request_id(url@))
                    && spec_can_show(
                    ctx.entity_store.contents()[spec_request_id(url@)],
                    ctx.user@.subject,
                    ctx.instance_id,
                ),
                None => {
                    ||| !ctx.entity_store.contents().contains_key(spec_request_id(url@))
                    || !spec_can_show(
                        ctx.entity_store.contents()[spec_request_id(url@)],
                        ctx.user@.subject,
                        ctx.instance_id,
                    )
                    ||| {
                        let query = match spec_find_char(url@, '?') {
                            Some(i) => url@.skip(i + 1),
                            None => Seq::empty(),
                        };
                        &&& spec_find_char(url@, '?') is Some
                        &&& query != "first"@
                        &&& (spec_parse_dec(query) is None || spec_parse_dec(query)->0
                            > u64::MAX as nat)
                    }
                },
            },
    {
        get_object(ctx, url)
    }
}

} // verus!
