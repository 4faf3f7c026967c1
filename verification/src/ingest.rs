//! The ingest pipeline: classify the target box, apply the id discipline,
//! persist the graph behind the replacement guard, run the handler chain,
//! register deliveries, and commit the root into the box's collection.

use vstd::prelude::*;

use crate::assign::{apply_assignments, make_assignments, rewrite_id};
use crate::context::Context;
use crate::delivery::prepare_delivery;
use crate::entity::StoreItem;
use crate::iri::authority_of;
use crate::retrieve::origin_filter;
use crate::store::store_all;
use crate::strutil::{starts_with, str_eq};
use crate::vocab;

verus! {

/// How incoming ids are treated.
#[derive(PartialEq, Eq, Structural)]
pub enum TrustMode {
    /// Server-to-server: keep only ids on the authenticated origin.
    TrustIds,
    /// Client-to-server: mint fresh ids for blank and server-based ids.
    AssignIds,
}

/// Where the committed activity is delivered afterwards.
#[derive(PartialEq, Eq, Structural)]
pub enum DeliveryMode {
    /// Expand the audience fully and queue remote posts.
    LocalAndRemote,
    /// Only resolve local followers of remote audiences.
    LocalOnly,
    /// No delivery at all.
    NoDelivery,
}

/// The named steps of the side-effect chains. Their implementations are the
/// caller's; the pipeline fixes only their order.
#[derive(PartialEq, Eq, Structural, Clone, Copy)]
pub enum HandlerKind {
    AutomaticCreate,
    VerifyRequiredEventsOutbox,
    VerifyRequiredEventsInbox,
    ClientCreate,
    CreateActor,
    ClientLike,
    ClientUndo,
    ServerCreate,
    ServerLike,
    ServerFollow,
}

/// One step of the side-effect chain. Implementations may mutate the stores
/// through the context, move the root, or retarget the box, but must leave
/// the stores well formed.
pub trait MessageHandler {
    fn handle(
        &mut self,
        kind: &HandlerKind,
        ctx: &mut Context,
        inbox: &mut String,
        root: &mut String,
    ) -> (r: Result<(), ()>)
        requires
            old(ctx).wf(),
        ensures
            final(ctx).wf(),
    ;
}

/// The handler that does nothing; every step succeeds.
pub struct NoopHandler;

impl MessageHandler for NoopHandler {
    fn handle(
        &mut self,
        kind: &HandlerKind,
        ctx: &mut Context,
        inbox: &mut String,
        root: &mut String,
    ) -> (r: Result<(), ()>) {
        Ok(())
    }
}

/// The chain, delivery mode and trust mode of a box role, or nothing for a
/// role the pipeline refuses.
pub fn get_handler(box_type: &str) -> (r: Option<(Vec<HandlerKind>, DeliveryMode, TrustMode)>)
    ensures
        box_type@ == vocab::ldp_inbox() ==> (r matches Some(t) && t.0@ == seq![
            HandlerKind::VerifyRequiredEventsInbox,
            HandlerKind::ServerCreate,
            HandlerKind::ServerLike,
            HandlerKind::ServerFollow,
        ] && t.1 == DeliveryMode::NoDelivery && t.2 == TrustMode::TrustIds),
        box_type@ == vocab::as_outbox() ==> (r matches Some(t) && t.0@ == seq![
            HandlerKind::AutomaticCreate,
            HandlerKind::VerifyRequiredEventsOutbox,
            HandlerKind::ClientCreate,
            HandlerKind::CreateActor,
            HandlerKind::ClientLike,
            HandlerKind::ClientUndo,
        ] && t.1 == DeliveryMode::LocalAndRemote && t.2 == TrustMode::AssignIds),
        box_type@ == vocab::as_shared_inbox() ==> (r matches Some(t) && t.0@ == seq![
            HandlerKind::VerifyRequiredEventsInbox,
        ] && t.1 == DeliveryMode::LocalOnly && t.2 == TrustMode::TrustIds),
        box_type@ != vocab::ldp_inbox() && box_type@ != vocab::as_outbox() && box_type@
            != vocab::as_shared_inbox() ==> r is None,
{
    proof {
        reveal_strlit("http://www.w3.org/ns/ldp#inbox");
        reveal_strlit("https://www.w3.org/ns/activitystreams#outbox");
        reveal_strlit("https://www.w3.org/ns/activitystreams#sharedInbox");
        assert(vocab::ldp_inbox().len() == 30);
        assert(vocab::as_outbox().len() == 44);
        assert(vocab::as_shared_inbox().len() == 49);
    }
    if str_eq(box_type, vocab::ldp_inbox_str()) {
        let mut chain: Vec<HandlerKind> = Vec::new();
        chain.push(HandlerKind::VerifyRequiredEventsInbox);
        chain.push(HandlerKind::ServerCreate);
        chain.push(HandlerKind::ServerLike);
        chain.push(HandlerKind::ServerFollow);
        proof {
            assert(chain@ =~= seq![
                HandlerKind::VerifyRequiredEventsInbox,
                HandlerKind::ServerCreate,
                HandlerKind::ServerLike,
                HandlerKind::ServerFollow,
            ]);
        }
        Some((chain, DeliveryMode::NoDelivery, TrustMode::TrustIds))
    } else if str_eq(box_type, vocab::as_outbox_str()) {
        let mut chain: Vec<HandlerKind> = Vec::new();
        chain.push(HandlerKind::AutomaticCreate);
        chain.push(HandlerKind::VerifyRequiredEventsOutbox);
        chain.push(HandlerKind::ClientCreate);
        chain.push(HandlerKind::CreateActor);
        chain.push(HandlerKind::ClientLike);
        chain.push(HandlerKind::ClientUndo);
        proof {
            assert(chain@ =~= seq![
                HandlerKind::AutomaticCreate,
                HandlerKind::VerifyRequiredEventsOutbox,
                HandlerKind::ClientCreate,
                HandlerKind::CreateActor,
                HandlerKind::ClientLike,
                HandlerKind::ClientUndo,
            ]);
        }
        Some((chain, DeliveryMode::LocalAndRemote, TrustMode::AssignIds))
    } else if str_eq(box_type, vocab::as_shared_inbox_str()) {
        let mut chain: Vec<HandlerKind> = Vec::new();
        chain.push(HandlerKind::VerifyRequiredEventsInbox);
        proof {
            assert(chain@ =~= seq![HandlerKind::VerifyRequiredEventsInbox]);
        }
        Some((chain, DeliveryMode::LocalOnly, TrustMode::TrustIds))
    } else {
        None
    }
}

/// Why an ingest was refused.
#[derive(Debug, PartialEq, Eq, Structural)]
pub enum IngestError {
    /// The target entity does not exist.
    TargetNotFound,
    /// The target exists but is not an inbox, outbox or shared inbox.
    PostToNonbox,
    /// No root survived the id discipline.
    MissingRoot,
    /// Fresh ids could not be minted.
    AssignFailed,
    /// A handler of the chain refused the activity.
    HandlerFailed,
    /// Audience expansion or queueing failed.
    DeliveryFailed,
}

/// What a committed ingest produced.
#[derive(Debug)]
pub struct IngestOutcome {
    /// The id of the committed activity.
    pub root: String,
    /// The collection the activity was appended to.
    pub collection: String,
    /// The inboxes a delivery was queued for, in order.
    pub delivered: Vec<String>,
}

/// The box role recorded in the target's meta node, when the target is
/// stored and its `kroeg:box` holds a single reference.
pub open spec fn spec_box_role(
    contents: Map<Seq<char>, crate::entity::StoreItemV>,
    target: Seq<char>,
) -> Option<Seq<char>> {
    if contents.contains_key(target) {
        crate::entity::spec_single_ref(
            crate::entity::spec_lookup(contents[target].meta.props, vocab::kroeg_box()),
        )
    } else {
        None
    }
}

/// The three box roles the pipeline accepts.
pub open spec fn spec_role_known(role: Seq<char>) -> bool {
    role == vocab::ldp_inbox() || role == vocab::as_outbox() || role == vocab::as_shared_inbox()
}

/// What trust-mode persisting leaves in the entity store: the graph filtered
/// to the principal's origin, written behind the replacement guard; nothing
/// when the principal's subject has no authority.
pub open spec fn spec_trust_persisted(
    m: Map<Seq<char>, crate::entity::StoreItemV>,
    untangled: Seq<crate::entity::StoreItemV>,
    subject: Seq<char>,
) -> Map<Seq<char>, crate::entity::StoreItemV> {
    match crate::iri::spec_authority(subject) {
        Some(a) => crate::store::spec_store_all(
            m,
            crate::retrieve::spec_origin_filter(untangled, a),
        ),
        None => m,
    }
}

/// The graph with every id and reference rewritten through an assignment.
pub open spec fn spec_rewritten_graph(
    untangled: Seq<crate::entity::StoreItemV>,
    news: Seq<Option<Seq<char>>>,
) -> Seq<crate::entity::StoreItemV> {
    untangled.map_values(
        |it: crate::entity::StoreItemV| crate::assign::spec_rewrite_item(untangled, news, it),
    )
}

/// The last `delivered.len()` queue elements are pending `deliver` orders
/// for `root`, one per delivered inbox, in order.
pub open spec fn spec_delivery_orders_suffix(
    elems: Seq<(crate::entity::QueueItemV, crate::queue::QueueState)>,
    root: Seq<char>,
    delivered: Seq<String>,
) -> bool {
    elems.len() >= delivered.len() && forall|j: int|
        0 <= j < delivered.len() ==> {
            let e = #[trigger] elems[elems.len() - delivered.len() + j];
            e.0.event == "deliver"@ && e.0.data == crate::queue::spec_format_delivery(
                root,
                delivered[j]@,
            ) && e.1 == crate::queue::QueueState::Pending
        }
}

/// What the pipeline hands to the handler chain: the resolved root, the
/// target collection, and the chain and modes of the box role.
pub struct PreparedIngest {
    /// The root after the id discipline.
    pub root: String,
    /// The collection the root will be appended to.
    pub collection: String,
    /// The chain of the box role, in order.
    pub chain: Vec<HandlerKind>,
    /// The delivery mode of the box role.
    pub delivery_mode: DeliveryMode,
    /// The trust mode of the box role.
    pub trust_mode: TrustMode,
}

/// The pipeline up to the handler chain: resolve the target box, apply the
/// id discipline, and persist the surviving graph behind the replacement
/// guard. The contract fixes exactly what was persisted.
pub fn ingest_prepare(
    ctx: &mut Context,
    target: &str,
    untangled: Vec<StoreItem>,
    root: Option<String>,
) -> (r: Result<PreparedIngest, IngestError>)
    requires
        old(ctx).wf(),
        forall|j: int| 0 <= j < untangled@.len() ==> (#[trigger] untangled@[j]).wf(),
    ensures
        final(ctx).wf(),
        final(ctx).server_base == old(ctx).server_base,
        final(ctx).instance_id == old(ctx).instance_id,
        final(ctx).user == old(ctx).user,
        final(ctx).queue_store == old(ctx).queue_store,
        final(ctx).entity_store.colls() == old(ctx).entity_store.colls(),
        r matches Err(e) ==> (e == IngestError::TargetNotFound || e == IngestError::PostToNonbox
            || e == IngestError::AssignFailed || e == IngestError::MissingRoot),
        (r matches Err(e) && e == IngestError::TargetNotFound) <==> !old(ctx).entity_store.contents().contains_key(target@),
        (r matches Err(e) && e == IngestError::PostToNonbox) <==> (old(ctx).entity_store.contents().contains_key(target@) && match spec_box_role(
            old(ctx).entity_store.contents(),
            target@,
        ) {
            None => true,
            Some(role) => !spec_role_known(role),
        }),
        r is Err ==> *final(ctx) == *old(ctx),
        r matches Err(e) && e == IngestError::MissingRoot ==> root is None,
        r matches Err(e) && e == IngestError::AssignFailed ==> spec_box_role(
            old(ctx).entity_store.contents(),
            target@,
        ) == Some(vocab::as_outbox()),
        r matches Ok(prep) ==> ({
            let contents0 = old(ctx).entity_store.contents();
            let role = spec_box_role(contents0, target@)->0;
            let untangledv = untangled@.map_values(|it: StoreItem| it@);
            let subject = old(ctx).user.subject@;
            &&& contents0.contains_key(target@)
            &&& spec_box_role(contents0, target@) is Some
            &&& spec_role_known(role)
            &&& prep.collection@ == target@
            &&& (role == vocab::ldp_inbox() ==> prep.chain@ == seq![
                HandlerKind::VerifyRequiredEventsInbox,
                HandlerKind::ServerCreate,
                HandlerKind::ServerLike,
                HandlerKind::ServerFollow,
            ] && prep.delivery_mode == DeliveryMode::NoDelivery && prep.trust_mode
                == TrustMode::TrustIds)
            &&& (role == vocab::as_outbox() ==> prep.chain@ == seq![
                HandlerKind::AutomaticCreate,
                HandlerKind::VerifyRequiredEventsOutbox,
                HandlerKind::ClientCreate,
                HandlerKind::CreateActor,
                HandlerKind::ClientLike,
                HandlerKind::ClientUndo,
            ] && prep.delivery_mode == DeliveryMode::LocalAndRemote && prep.trust_mode
                == TrustMode::AssignIds)
            &&& (role == vocab::as_shared_inbox() ==> prep.chain@ == seq![
                HandlerKind::VerifyRequiredEventsInbox,
            ] && prep.delivery_mode == DeliveryMode::LocalOnly && prep.trust_mode
                == TrustMode::TrustIds)
            &&& (prep.trust_mode == TrustMode::TrustIds ==> final(ctx).entity_store.contents()
                == spec_trust_persisted(contents0, untangledv, subject) && (root matches Some(r0)
                && prep.root@ == r0@))
            &&& (prep.trust_mode == TrustMode::TrustIds ==> forall|p: Seq<char>|
                #[trigger] final(ctx).entity_store.contents().contains_key(p) && (
                !contents0.contains_key(p) || final(ctx).entity_store.contents()[p]
                    != contents0[p]) ==> crate::iri::spec_trust_authority(p)
                    == crate::iri::spec_authority(subject))
            &&& (prep.trust_mode == TrustMode::AssignIds ==> exists|news: Seq<Option<Seq<char>>>|
                {
                    &&& #[trigger] crate::assign::spec_assignments_ok(
                        news,
                        untangledv,
                        contents0,
                        old(ctx).server_base@,
                        subject,
                    )
                    &&& final(ctx).entity_store.contents() == crate::store::spec_store_all(
                        contents0,
                        spec_rewritten_graph(untangledv, news),
                    )
                    &&& (root matches Some(r0) && prep.root@ == crate::assign::spec_rewrite(
                        untangledv,
                        news,
                        r0@,
                    ))
                })
            &&& (prep.trust_mode == TrustMode::AssignIds && (root matches Some(r0)
                && crate::assign::spec_needs_assign(r0@, old(ctx).server_base@) && (exists|k: int|
                0 <= k < untangledv.len() && (#[trigger] untangledv[k]).id == r0@))
                ==> !contents0.contains_key(prep.root@) && crate::strutil::spec_has_prefix(
                prep.root@,
                subject + "/data/"@,
            ) && !crate::iri::spec_is_blank(prep.root@) && ((forall|a: int, b: int|
                0 <= a < b < untangledv.len() ==> (#[trigger] untangledv[a]).id != (
                #[trigger] untangledv[b]).id) ==> final(ctx).entity_store.contents().contains_key(prep.root@)))
        }),
{
    let target_item = match ctx.entity_store.get(target) {
        Some(item) => item,
        None => {
            return Err(IngestError::TargetNotFound);
        },
    };
    let box_type = match target_item.meta.single_ref(vocab::kroeg_box_str()) {
        Some(b) => b.clone(),
        None => {
            return Err(IngestError::PostToNonbox);
        },
    };
    let (chain, delivery_mode, trust_mode) = match get_handler(box_type.as_str()) {
        Some(t) => t,
        None => {
            return Err(IngestError::PostToNonbox);
        },
    };
    let ghost untangledv = untangled@.map_values(|it: StoreItem| it@);
    proof {
        assert forall|j: int|
            0 <= j < untangledv.len() implies (#[trigger] untangledv[j]).main.id
            == untangledv[j].id by {
            assert(untangled@[j].wf());
            assert(untangledv[j] == untangled@[j]@);
        }
    }
    let collection = target.to_owned();
    match trust_mode {
        TrustMode::TrustIds => {
            let root = match root {
                Some(r0) => r0,
                None => {
                    return Err(IngestError::MissingRoot);
                },
            };
            let filtered = match authority_of(ctx.user.subject.as_str()) {
                Some(auth) => origin_filter(untangled, auth.as_str()),
                None => Vec::new(),
            };
            proof {
                match crate::iri::spec_authority(old(ctx).user.subject@) {
                    Some(auth) => {
                        crate::retrieve::lemma_origin_filter_wf(untangledv, auth);
                        assert forall|j: int|
                            0 <= j < filtered@.len() implies (#[trigger] filtered@[j]).wf() by {
                            assert(filtered@[j]@ == crate::retrieve::spec_origin_filter(
                                untangledv,
                                auth,
                            )[j]);
                        }
                    },
                    None => {
                        assert(filtered@.map_values(|it: StoreItem| it@)
                            =~= Seq::<crate::entity::StoreItemV>::empty());
                    },
                }
            }
            let ghost contents0 = ctx.entity_store.contents();
            store_all(&mut ctx.entity_store, filtered);
            proof {
                match crate::iri::spec_authority(old(ctx).user.subject@) {
                    Some(auth) => {
                        assert forall|p: Seq<char>|
                            #[trigger] ctx.entity_store.contents().contains_key(p) && (
                            !contents0.contains_key(p) || ctx.entity_store.contents()[p]
                                != contents0[p]) implies crate::iri::spec_trust_authority(p)
                            == Some(auth) by {
                            crate::retrieve::lemma_origin_safety(contents0, untangledv, auth, p);
                        }
                    },
                    None => {
                        assert(ctx.entity_store.contents() == crate::store::spec_store_all(
                            contents0,
                            Seq::<crate::entity::StoreItemV>::empty(),
                        ));
                    },
                }
            }
            Ok(PreparedIngest { root, collection, chain, delivery_mode, trust_mode })
        },
        TrustMode::AssignIds => {
            proof {
                reveal_strlit("_:");
            }
            if ctx.user.subject.as_str().unicode_len() < 2 || starts_with(
                ctx.user.subject.as_str(),
                "_:",
            ) {
                return Err(IngestError::AssignFailed);
            }
            let news = match make_assignments(
                &ctx.entity_store,
                ctx.server_base.as_str(),
                ctx.user.subject.clone().as_str(),
                &untangled,
            ) {
                Ok(news) => news,
                Err(()) => {
                    return Err(IngestError::AssignFailed);
                },
            };
            let ghost rootg = root;
            let root = match root {
                Some(r0) => rewrite_id(&untangled, &news, r0.as_str()),
                None => {
                    return Err(IngestError::MissingRoot);
                },
            };
            let rewritten = apply_assignments(&untangled, &news);
            let ghost newsv = crate::assign::spec_news_view(news@);
            let ghost contents0 = ctx.entity_store.contents();
            proof {
                assert(rewritten@.map_values(|it: StoreItem| it@) =~= spec_rewritten_graph(
                    untangledv,
                    newsv,
                ));
            }
            store_all(&mut ctx.entity_store, rewritten);
            proof {
                let base = old(ctx).server_base@;
                let subject = old(ctx).user.subject@;
                assert(crate::assign::spec_assignments_ok(
                    newsv,
                    untangledv,
                    contents0,
                    base,
                    subject,
                ));
                let r0g = rootg->0@;
                if crate::assign::spec_needs_assign(r0g, base) && (exists|k: int|
                    0 <= k < untangledv.len() && (#[trigger] untangledv[k]).id == r0g) {
                    crate::assign::lemma_find_index(untangledv, r0g);
                    let idx = crate::assign::spec_find_index(untangledv, r0g)->0;
                    assert(untangledv[idx].id == r0g);
                    assert(newsv[idx] is Some);
                    assert(root@ == newsv[idx]->0);
                    assert(!contents0.contains_key(root@));
                    assert(crate::strutil::spec_has_prefix(root@, subject + "/data/"@));
                    assert(!crate::iri::spec_is_blank(root@));
                    if forall|a: int, b: int|
                        0 <= a < b < untangledv.len() ==> (#[trigger] untangledv[a]).id != (
                        #[trigger] untangledv[b]).id {
                        lemma_rewritten_distinct(untangledv, newsv, contents0, base, subject);
                        lemma_rewrite_own_id(untangledv, newsv, contents0, base, subject, idx);
                        assert(spec_rewritten_graph(untangledv, newsv)[idx].id == root@);
                        crate::store::lemma_store_all_fresh(
                            contents0,
                            spec_rewritten_graph(untangledv, newsv),
                            idx,
                        );
                    }
                }
            }
            Ok(PreparedIngest { root, collection, chain, delivery_mode, trust_mode })
        },
    }
}

/// With a good assignment over a graph of distinct ids, the rewritten ids
/// stay pairwise distinct.
proof fn lemma_rewritten_distinct(
    untangledv: Seq<crate::entity::StoreItemV>,
    news: Seq<Option<Seq<char>>>,
    contents0: Map<Seq<char>, crate::entity::StoreItemV>,
    base: Seq<char>,
    subject: Seq<char>,
)
    requires
        crate::assign::spec_assignments_ok(news, untangledv, contents0, base, subject),
        forall|a: int, b: int|
            0 <= a < b < untangledv.len() ==> (#[trigger] untangledv[a]).id != (
            #[trigger] untangledv[b]).id,
    ensures
        forall|a: int, b: int|
            0 <= a < b < untangledv.len() ==> (#[trigger] spec_rewritten_graph(
                untangledv,
                news,
            )[a]).id != (#[trigger] spec_rewritten_graph(untangledv, news)[b]).id,
{
    let rewritten = spec_rewritten_graph(untangledv, news);
    assert forall|a: int, b: int|
        0 <= a < b < untangledv.len() implies (#[trigger] rewritten[a]).id != (
    #[trigger] rewritten[b]).id by {
        lemma_rewrite_own_id(untangledv, news, contents0, base, subject, a);
        lemma_rewrite_own_id(untangledv, news, contents0, base, subject, b);
        if news[a] is Some && news[b] is Some {
            assert(news[a]->0 != news[b]->0);
        } else if news[a] is Some {
            assert(news[a]->0 != untangledv[b].id);
        } else if news[b] is Some {
            assert(news[b]->0 != untangledv[a].id);
        }
    }
}

/// With distinct graph ids, rewriting an item's own id takes its own
/// assignment when one was minted, and leaves the id otherwise.
proof fn lemma_rewrite_own_id(
    untangledv: Seq<crate::entity::StoreItemV>,
    news: Seq<Option<Seq<char>>>,
    contents0: Map<Seq<char>, crate::entity::StoreItemV>,
    base: Seq<char>,
    subject: Seq<char>,
    k: int,
)
    requires
        crate::assign::spec_assignments_ok(news, untangledv, contents0, base, subject),
        0 <= k < untangledv.len(),
        forall|a: int, b: int|
            0 <= a < b < untangledv.len() ==> (#[trigger] untangledv[a]).id != (
            #[trigger] untangledv[b]).id,
    ensures
        spec_rewritten_graph(untangledv, news)[k].id == (match news[k] {
            Some(n) => n,
            None => untangledv[k].id,
        }),
{
    crate::assign::lemma_find_index(untangledv, untangledv[k].id);
    let found = crate::assign::spec_find_index(untangledv, untangledv[k].id);
    assert(found is Some);
    let j = found->0;
    assert(untangledv[j].id == untangledv[k].id);
    assert(j == k) by {
        if j < k {
            assert(untangledv[j].id != untangledv[k].id);
        }
        if j > k {
            assert(untangledv[k].id != untangledv[j].id);
        }
    }
}

/// The pipeline after persisting: run the handler chain in order, register
/// deliveries per the box's mode, and append the root to the collection.
pub fn ingest_finish<H: MessageHandler>(
    ctx: &mut Context,
    prep: PreparedIngest,
    handler: &mut H,
) -> (r: Result<IngestOutcome, IngestError>)
    requires
        old(ctx).wf(),
    ensures
        final(ctx).wf(),
        r matches Err(e) ==> (e == IngestError::HandlerFailed || e == IngestError::DeliveryFailed),
        r matches Ok(outcome) ==> ({
            &&& final(ctx).entity_store.colls().contains_key(outcome.collection@)
            &&& final(ctx).entity_store.colls()[outcome.collection@].len() >= 1
            &&& final(ctx).entity_store.colls()[outcome.collection@].last() == outcome.root@
            &&& forall|a: int, b: int|
                0 <= a < b < outcome.delivered@.len() ==> (#[trigger] outcome.delivered@[a])@ != (
                #[trigger] outcome.delivered@[b])@
            &&& (prep.delivery_mode == DeliveryMode::NoDelivery ==> outcome.delivered@.len() == 0)
            &&& spec_delivery_orders_suffix(
                final(ctx).queue_store.elems(),
                outcome.root@,
                outcome.delivered@,
            )
        }),
{
    let mut root = prep.root;
    let mut inbox_id = prep.collection;
    let chain = prep.chain;
    let n = chain.len();
    let mut i: usize = 0;
    while i < n
        invariant
            ctx.wf(),
            n == chain@.len(),
            i <= n,
        decreases n - i,
    {
        match handler.handle(&chain[i], ctx, &mut inbox_id, &mut root) {
            Ok(()) => {},
            Err(()) => {
                return Err(IngestError::HandlerFailed);
            },
        }
        i = i + 1;
    }
    let delivered: Vec<String> = match prep.delivery_mode {
        DeliveryMode::NoDelivery => Vec::new(),
        DeliveryMode::LocalAndRemote => {
            match prepare_delivery(ctx, root.as_str(), false) {
                Ok(boxes) => boxes,
                Err(()) => {
                    return Err(IngestError::DeliveryFailed);
                },
            }
        },
        DeliveryMode::LocalOnly => {
            match prepare_delivery(ctx, root.as_str(), true) {
                Ok(boxes) => boxes,
                Err(()) => {
                    return Err(IngestError::DeliveryFailed);
                },
            }
        },
    };
    ctx.entity_store.insert_collection(inbox_id.as_str(), root.clone());
    proof {
        assert(spec_delivery_orders_suffix(
            ctx.queue_store.elems(),
            root@,
            delivered@,
        ));
    }
    Ok(IngestOutcome { root, collection: inbox_id, delivered })
}

/// Run the pipeline against the box at `target` for an untangled graph.
///
/// Trust mode keeps only the items on the principal's origin; assign mode
/// replaces blank and server-based ids with fresh ones and rewrites the
/// references and the root; `ingest_prepare`'s contract fixes exactly what
/// is persisted and handed to the chain. The chain then runs in order,
/// deliveries are queued per the box's mode, and the root is appended to the
/// box's collection.
pub fn ingest<H: MessageHandler>(
    ctx: &mut Context,
    target: &str,
    untangled: Vec<StoreItem>,
    root: Option<String>,
    handler: &mut H,
) -> (r: Result<IngestOutcome, IngestError>)
    requires
        old(ctx).wf(),
        forall|j: int| 0 <= j < untangled@.len() ==> (#[trigger] untangled@[j]).wf(),
    ensures
        final(ctx).wf(),
        (r matches Err(e) && e == IngestError::TargetNotFound) <==> !old(ctx).entity_store.contents().contains_key(target@),
        r matches Err(e) && e == IngestError::TargetNotFound ==> *final(ctx) == *old(ctx),
        (r matches Err(e) && e == IngestError::PostToNonbox) <==> (old(ctx).entity_store.contents().contains_key(target@) && match spec_box_role(
            old(ctx).entity_store.contents(),
            target@,
        ) {
            None => true,
            Some(role) => !spec_role_known(role),
        }),
        r matches Err(e) && e == IngestError::PostToNonbox ==> *final(ctx) == *old(ctx),
        r matches Err(e) && e == IngestError::MissingRoot ==> *final(ctx) == *old(ctx) && root
            is None,
        r matches Err(e) && e == IngestError::AssignFailed ==> *final(ctx) == *old(ctx)
            && spec_box_role(old(ctx).entity_store.contents(), target@) == Some(
            vocab::as_outbox(),
        ),
        r matches Ok(outcome) ==> ({
            let contents0 = old(ctx).entity_store.contents();
            let role = spec_box_role(contents0, target@)->0;
            &&& contents0.contains_key(target@)
            &&& spec_box_role(contents0, target@) is Some
            &&& spec_role_known(role)
            &&& final(ctx).entity_store.colls().contains_key(outcome.collection@)
            &&& final(ctx).entity_store.colls()[outcome.collection@].len() >= 1
            &&& final(ctx).entity_store.colls()[outcome.collection@].last() == outcome.root@
            &&& forall|a: int, b: int|
                0 <= a < b < outcome.delivered@.len() ==> (#[trigger] outcome.delivered@[a])@ != (
                #[trigger] outcome.delivered@[b])@
            &&& (role == vocab::ldp_inbox() ==> outcome.delivered@.len() == 0)
            &&& spec_delivery_orders_suffix(
                final(ctx).queue_store.elems(),
                outcome.root@,
                outcome.delivered@,
            )
        }),
{
    let prep = match ingest_prepare(ctx, target, untangled, root) {
        Ok(prep) => prep,
        Err(e) => {
            return Err(e);
        },
    };
    ingest_finish(ctx, prep, handler)
}

/// The handler answering POST requests: the pipeline against the box named
/// by the request path.
pub struct PostHandler;

impl PostHandler {
    /// Run the pipeline for one POST; the contract is `ingest`'s.
    pub fn run<H: MessageHandler>(
        &self,
        ctx: &mut Context,
        target: &str,
        untangled: Vec<StoreItem>,
        root: Option<String>,
        handler: &mut H,
    ) -> (r: Result<IngestOutcome, IngestError>)
        requires
            old(ctx).wf(),
            forall|j: int| 0 <= j < untangled@.len() ==> (#[trigger] untangled@[j]).wf(),
        ensures
            final(ctx).wf(),
            (r matches Err(e) && e == IngestError::TargetNotFound) <==> !old(ctx).entity_store.contents().contains_key(target@),
            r matches Err(e) && e == IngestError::TargetNotFound ==> *final(ctx) == *old(ctx),
            (r matches Err(e) && e == IngestError::PostToNonbox) <==> (old(ctx).entity_store.contents().contains_key(target@) && match spec_box_role(
                old(ctx).entity_store.contents(),
                target@,
            ) {
                None => true,
                Some(role) => !spec_role_known(role),
            }),
            r matches Err(e) && e == IngestError::PostToNonbox ==> *final(ctx) == *old(ctx),
            r matches Ok(outcome) ==> ({
                let contents0 = old(ctx).entity_store.contents();
                let role = spec_box_role(contents0, target@)->0;
                &&& spec_box_role(contents0, target@) is Some && spec_role_known(role)
                &&& final(ctx).entity_store.colls().contains_key(outcome.collection@)
                &&& final(ctx).entity_store.colls()[outcome.collection@].len() >= 1
                &&& final(ctx).entity_store.colls()[outcome.collection@].last() == outcome.root@
                &&& (role == vocab::ldp_inbox() ==> outcome.delivered@.len() == 0)
                &&& spec_delivery_orders_suffix(
                    final(ctx).queue_store.elems(),
                    outcome.root@,
                    outcome.delivered@,
                )
            }),
    {
        ingest(ctx, target, untangled, root, handler)
    }
}

} // verus!
