//! Webfinger: resolve `acct:user@host` to the local actor and its JRD.

use vstd::prelude::*;

use crate::entity::{spec_first_text, spec_lookup, StoreItemV};
use crate::iri::{extract_acct, spec_authority, spec_extract_acct, authority_of};
use crate::store::MemoryStore;
use crate::strutil::concat_str;
use crate::vocab;

verus! {

/// One link of a JSON resource descriptor.
pub struct JrdLink {
    pub rel: String,
    pub media_type: String,
    pub href: String,
}

/// The JSON resource descriptor webfinger answers with.
pub struct Jrd {
    pub subject: String,
    pub aliases: Vec<String>,
    pub links: Vec<JrdLink>,
}

/// Answer a webfinger query: find the local actor whose preferred username
/// is the `acct:` user, and describe it. The subject is rebuilt from the
/// stored actor's username and the authority of its IRI; the single alias is
/// the actor's IRI, and the single link points at it as ActivityPub content.
pub fn webfinger(store: &MemoryStore, instance_id: u32, query: &str) -> (r: Option<Jrd>)
    requires
        store.wf(),
    ensures
        match r {
            Some(jrd) => exists|c: Seq<char>|
                {
                    &&& #[trigger] store.contents().contains_key(c)
                    &&& spec_extract_acct(query@) matches Some(acct)
                    &&& spec_first_text(
                        spec_lookup(
                            store.contents()[c].main.props,
                            vocab::as_preferred_username(),
                        ),
                    ) == Some(acct.0)
                    &&& crate::auth::spec_instance_of(store.contents()[c]) == Some(
                        instance_id as i64,
                    )
                    &&& spec_authority(c) matches Some(host)
                    &&& jrd.subject@ == "acct:"@ + acct.0 + "@"@ + host
                    &&& jrd.aliases@.len() == 1 && jrd.aliases@[0]@ == c
                    &&& jrd.links@.len() == 1 && jrd.links@[0].href@ == c
                    &&& jrd.links@[0].rel@ == "self"@
                    &&& jrd.links@[0].media_type@ == "application/activity+json"@
                },
            None => {
                ||| spec_extract_acct(query@) is None
                ||| (spec_extract_acct(query@) matches Some(acct) && forall|c: Seq<char>|
                    #[trigger] store.contents().contains_key(c) ==> !(spec_first_text(
                        spec_lookup(
                            store.contents()[c].main.props,
                            vocab::as_preferred_username(),
                        ),
                    ) == Some(acct.0) && crate::auth::spec_instance_of(store.contents()[c])
                        == Some(instance_id as i64)))
                ||| (spec_extract_acct(query@) matches Some(acct) && exists|c: Seq<char>|
                    #[trigger] store.contents().contains_key(c) && spec_first_text(
                        spec_lookup(
                            store.contents()[c].main.props,
                            vocab::as_preferred_username(),
                        ),
                    ) == Some(acct.0) && crate::auth::spec_instance_of(store.contents()[c])
                        == Some(instance_id as i64) && spec_authority(c) is None)
            },
        },
{
    proof {
        reveal_strlit("acct:");
        reveal_strlit("@");
        reveal_strlit("self");
        reveal_strlit("application/activity+json");
    }
    let (user, _host) = match extract_acct(query) {
        Some(p) => p,
        None => {
            return None;
        },
    };
    let actor = match store.find_user_by_username(user.as_str(), instance_id) {
        Some(actor) => actor,
        None => {
            return None;
        },
    };
    let authority = match authority_of(actor.id.as_str()) {
        Some(a) => a,
        None => {
            proof {
                assert(store.contents().contains_key(actor@.id));
            }
            return None;
        },
    };
    let mut subject = String::from_str("acct:");
    subject.append(user.as_str());
    subject.append("@");
    subject.append(authority.as_str());
    let mut aliases: Vec<String> = Vec::new();
    aliases.push(actor.id.clone());
    let mut links: Vec<JrdLink> = Vec::new();
    links.push(
        JrdLink {
            rel: String::from_str("self"),
            media_type: String::from_str("application/activity+json"),
            href: actor.id.clone(),
        },
    );
    let jrd = Jrd { subject, aliases, links };
    proof {
        assert(store.contents().contains_key(actor@.id));
        assert(jrd.subject@ =~= "acct:"@ + user@ + "@"@ + spec_authority(actor@.id)->0);
    }
    Some(jrd)
}

} // verus!
