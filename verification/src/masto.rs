//! The client-API bridge data model: the records served to Mastodon-style
//! clients, opaque ids, and translation of stored actors and notes.

use vstd::prelude::*;

use crate::crypto::{b64_urlsafe, base64_urlsafe_decode, base64_urlsafe_encode, utf8_to_string};
use crate::entity::{spec_first_text, spec_lookup, StoreItem};
use crate::store::MemoryStore;
use crate::vocab;

verus! {

/// A name/value pair of an account's profile table.
pub struct MetadataItem {
    pub name: String,
    pub value: String,
}

/// An account as the client API presents it.
pub struct Account {
    pub id: String,
    pub username: String,
    pub acct: String,
    pub display_name: String,
    pub locked: bool,
    pub created_at: String,
    pub followers_count: u32,
    pub following_count: u32,
    pub statuses_count: u32,
    pub note: String,
    pub url: String,
    pub avatar: String,
    pub avatar_static: String,
    pub header: String,
    pub header_static: String,
    pub moved: Option<String>,
    pub fields: Vec<MetadataItem>,
    pub bot: Option<bool>,
}

/// A client application registration.
pub struct Application {
    pub name: String,
    pub website: Option<String>,
}

/// A media attachment of a status.
pub struct Attachment {
    pub id: String,
    pub typeval: String,
    pub url: String,
    pub remote_url: Option<String>,
    pub preview_url: String,
    pub text_url: String,
    pub meta: Vec<(String, String)>,
    pub description: Option<String>,
}

/// A link preview card.
pub struct Card {
    pub url: String,
    pub title: String,
    pub description: String,
    pub image: Option<String>,
    pub typeval: String,
    pub author_name: Option<String>,
    pub author_url: Option<String>,
    pub provider_name: Option<String>,
    pub provider_url: Option<String>,
    pub html: Option<String>,
    pub width: Option<u32>,
    pub height: Option<u32>,
}

/// The thread around a status.
pub struct StatusContext {
    pub ancestors: Vec<Status>,
    pub descendants: Vec<Status>,
}

/// A custom emoji.
pub struct Emoji {
    pub shortcode: String,
    pub static_url: String,
    pub url: String,
}

/// The instance self-description.
pub struct Instance {
    pub uri: String,
    pub title: String,
    pub description: String,
    pub email: String,
    pub version: String,
    pub urls: Vec<(String, String)>,
    pub languages: Vec<String>,
    pub contact_account: Option<Account>,
}

/// A mention inside a status.
pub struct Mention {
    pub url: String,
    pub username: String,
    pub acct: String,
    pub id: String,
}

/// A notification shown to a user.
pub struct Notification {
    pub id: String,
    pub typeval: String,
    pub created_at: String,
    pub account: Account,
    pub status: Option<Status>,
}

/// The relationship between the caller and another account.
pub struct Relationship {
    pub id: String,
    pub following: bool,
    pub followed_by: bool,
    pub blocking: bool,
    pub muting: bool,
    pub muting_notifications: bool,
    pub requested: bool,
    pub domain_blocking: bool,
    pub showing_reblogs: bool,
}

/// A search result set.
pub struct Results {
    pub accounts: Vec<Account>,
    pub statuses: Vec<Status>,
    pub hashtags: Vec<String>,
}

/// A status as the client API presents it.
pub struct Status {
    pub id: String,
    pub uri: String,
    pub url: Option<String>,
    pub account: Account,
    pub in_reply_to_id: Option<String>,
    pub in_reply_to_account_id: Option<String>,
    pub reblog: Option<Box<Status>>,
    pub content: String,
    pub created_at: String,
    pub emojis: Vec<Emoji>,
    pub reblogs_count: u32,
    pub favourites_count: u32,
    pub reblogged: Option<bool>,
    pub favourited: Option<bool>,
    pub muted: Option<bool>,
    pub sensitive: bool,
    pub spoiler_text: String,
    pub visibility: String,
    pub media_attachments: Vec<Attachment>,
    pub mentions: Vec<Mention>,
    pub tags: Vec<Tag>,
    pub application: Option<Application>,
    pub language: Option<String>,
    pub pinned: Option<bool>,
}

/// A hashtag.
pub struct Tag {
    pub name: String,
    pub url: String,
    pub history: Option<Vec<String>>,
}

/// Encode an IRI as an opaque, URL-safe client id.
pub fn encode_id(val: &str) -> (r: String)
    ensures
        r@ == b64_urlsafe(vstd::utf8::encode_utf8(val@)),
{
    base64_urlsafe_encode(val.as_bytes())
}

/// Decode an opaque client id back to an IRI; the empty string when the id
/// is not URL-safe base64 of UTF-8 text.
pub fn decode_id(val: &str) -> (r: String)
{
    match base64_urlsafe_decode(val) {
        Some(bytes) => match utf8_to_string(bytes) {
            Some(s) => s,
            None => String::new(),
        },
        None => String::new(),
    }
}

/// Translate a stored actor into a client account record.
///
/// The username falls back to the IRI, the display name to the username, the
/// creation time to a fixed epoch, and the note to the empty string; counts
/// are not tracked by this bridge.
pub fn account(store: &MemoryStore, id: &str) -> (r: Option<Account>)
    requires
        store.wf(),
    ensures
        match r {
            Some(acc) => {
                &&& store.contents().contains_key(id@)
                &&& acc.url@ == id@
                &&& match spec_first_text(
                    spec_lookup(
                        store.contents()[id@].main.props,
                        vocab::as_preferred_username(),
                    ),
                ) {
                    Some(u) => acc.username@ == u,
                    None => acc.username@ == id@,
                }
                &&& match spec_first_text(
                    spec_lookup(store.contents()[id@].main.props, vocab::as_summary()),
                ) {
                    Some(s) => acc.note@ == s,
                    None => acc.note@.len() == 0,
                }
            },
            None => !store.contents().contains_key(id@),
        },
{
    let elem = match store.get(id) {
        Some(elem) => elem,
        None => {
            return None;
        },
    };
    let username = match elem.main.first_text(vocab::as_preferred_username_str()) {
        Some(u) => u.clone(),
        None => id.to_owned(),
    };
    let display_name = match elem.main.first_text(vocab::as_name_str()) {
        Some(n) => n.clone(),
        None => username.clone(),
    };
    let created_at = match elem.main.first_text(vocab::as_published_str()) {
        Some(p) => p.clone(),
        None => String::from_str("2000-01-01T00:00:00"),
    };
    let note = match elem.main.first_text(vocab::as_summary_str()) {
        Some(s) => s.clone(),
        None => String::new(),
    };
    let placeholder = String::from_str("https://placehold.it/52");
    Some(
        Account {
            id: encode_id(id),
            username: username.clone(),
            acct: username,
            display_name,
            created_at,
            note,
            locked: false,
            followers_count: 0,
            following_count: 0,
            statuses_count: 0,
            url: id.to_owned(),
            avatar: placeholder.clone(),
            avatar_static: placeholder.clone(),
            header: placeholder.clone(),
            header_static: placeholder,
            moved: None,
            fields: Vec::new(),
            bot: Some(false),
        },
    )
}

/// Translate a stored note (or the note behind a create or announce) into a
/// client status record. Announces recurse through the announced object, so
/// the translation carries fuel.
pub fn status(store: &MemoryStore, id: &str, fuel: u32) -> (r: Option<Status>)
    requires
        store.wf(),
    ensures
        r is Some ==> store.contents().contains_key(id@),
    decreases fuel,
{
    if fuel == 0 {
        return None;
    }
    let mut elem = match store.get(id) {
        Some(elem) => elem,
        None => {
            return None;
        },
    };
    if elem.main.has_type(vocab::as_announce_str()) {
        let object = match elem.main.first_ref(vocab::as_object_str()) {
            Some(o) => o.clone(),
            None => {
                return None;
            },
        };
        let inner = match status(store, object.as_str(), fuel - 1) {
            Some(inner) => inner,
            None => {
                return None;
            },
        };
        let actor = match elem.main.first_ref(vocab::as_actor_str()) {
            Some(a) => a.clone(),
            None => {
                return None;
            },
        };
        let announcer = match account(store, actor.as_str()) {
            Some(a) => a,
            None => {
                return None;
            },
        };
        let mut outer = clone_status_shell(&inner);
        outer.account = announcer;
        outer.reblog = Some(Box::new(inner));
        return Some(outer);
    }
    if elem.main.has_type(vocab::as_create_str()) {
        let object = match elem.main.first_ref(vocab::as_object_str()) {
            Some(o) => o.clone(),
            None => {
                return None;
            },
        };
        elem = match store.get(object.as_str()) {
            Some(inner) => inner,
            None => {
                return None;
            },
        };
    }
    if !elem.main.has_type(vocab::as_note_str()) {
        return None;
    }
    let attributed = match elem.main.first_ref(vocab::as_attributed_to_str()) {
        Some(a) => a.clone(),
        None => {
            return None;
        },
    };
    let author = match account(store, attributed.as_str()) {
        Some(a) => a,
        None => {
            return None;
        },
    };
    let url = match elem.main.first_ref(vocab::as_url_str()) {
        Some(u) => Some(u.clone()),
        None => None,
    };
    let in_reply_to_id = match elem.main.first_ref(vocab::as_in_reply_to_str()) {
        Some(x) => Some(encode_id(x.as_str())),
        None => None,
    };
    let content = match elem.main.first_text(vocab::as_content_str()) {
        Some(c) => c.clone(),
        None => String::new(),
    };
    let created_at = match elem.main.first_text(vocab::as_published_str()) {
        Some(p) => p.clone(),
        None => String::from_str("2000-01-01T00:00:00"),
    };
    let sensitive = match elem.main.first_flag(vocab::as_sensitive_str()) {
        Some(b) => b,
        None => false,
    };
    let spoiler_text = match elem.main.first_text(vocab::as_summary_str()) {
        Some(s) => s.clone(),
        None => String::new(),
    };
    Some(
        Status {
            id: encode_id(elem.id.as_str()),
            uri: elem.id.clone(),
            url,
            account: author,
            in_reply_to_id,
            in_reply_to_account_id: None,
            reblog: None,
            content,
            created_at,
            emojis: Vec::new(),
            reblogs_count: 0,
            favourites_count: 0,
            reblogged: Some(false),
            favourited: Some(false),
            muted: Some(false),
            sensitive,
            spoiler_text,
            visibility: String::from_str("public"),
            media_attachments: Vec::new(),
            mentions: Vec::new(),
            tags: Vec::new(),
            application: None,
            language: None,
            pinned: Some(false),
        },
    )
}

/// Copy the flat fields of a status, leaving collections empty; used to wrap
/// an announced status.
fn clone_status_shell(st: &Status) -> (r: Status) {
    Status {
        id: st.id.clone(),
        uri: st.uri.clone(),
        url: match &st.url {
            Some(u) => Some(u.clone()),
            None => None,
        },
        account: Account {
            id: st.account.id.clone(),
            username: st.account.username.clone(),
            acct: st.account.acct.clone(),
            display_name: st.account.display_name.clone(),
            locked: st.account.locked,
            created_at: st.account.created_at.clone(),
            followers_count: st.account.followers_count,
            following_count: st.account.following_count,
            statuses_count: st.account.statuses_count,
            note: st.account.note.clone(),
            url: st.account.url.clone(),
            avatar: st.account.avatar.clone(),
            avatar_static: st.account.avatar_static.clone(),
            header: st.account.header.clone(),
            header_static: st.account.header_static.clone(),
            moved: None,
            fields: Vec::new(),
            bot: st.account.bot,
        },
        in_reply_to_id: match &st.in_reply_to_id {
            Some(x) => Some(x.clone()),
            None => None,
        },
        in_reply_to_account_id: None,
        reblog: None,
        content: st.content.clone(),
        created_at: st.created_at.clone(),
        emojis: Vec::new(),
        reblogs_count: st.reblogs_count,
        favourites_count: st.favourites_count,
        reblogged: st.reblogged,
        favourited: st.favourited,
        muted: st.muted,
        sensitive: st.sensitive,
        spoiler_text: st.spoiler_text.clone(),
        visibility: st.visibility.clone(),
        media_attachments: Vec::new(),
        mentions: Vec::new(),
        tags: Vec::new(),
        application: None,
        language: None,
        pinned: st.pinned,
    }
}

/// Translate one collection page of activities into status records, skipping
/// what does not translate.
pub fn timeline(store: &MemoryStore, collection: &str, cursor: Option<u64>) -> (r: (
    Vec<Status>,
    Option<u64>,
    Option<u64>,
))
    requires
        store.wf(),
{
    let page = crate::page::read_collection(store, collection, None, cursor);
    let n = page.items.len();
    let mut statuses: Vec<Status> = Vec::new();
    let mut i: usize = 0;
    while i < n
        invariant
            store.wf(),
            n == page.items@.len(),
            i <= n,
        decreases n - i,
    {
        match status(store, page.items[i].as_str(), 16) {
            Some(st) => {
                statuses.push(st);
            },
            None => {},
        }
        i = i + 1;
    }
    (statuses, page.before, page.after)
}

} // verus!
