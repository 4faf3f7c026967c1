//! The vocabulary IRIs the pipeline reads and writes: ActivityStreams 2.0,
//! LDP, the security vocabulary, and this server's own namespace.

use vstd::prelude::*;

verus! {

pub open spec fn as_to() -> Seq<char> {
    "https://www.w3.org/ns/activitystreams#to"@
}

pub fn as_to_str() -> (r: &'static str)
    ensures
        r@ == as_to(),
{
    "https://www.w3.org/ns/activitystreams#to"
}

pub open spec fn as_bto() -> Seq<char> {
    "https://www.w3.org/ns/activitystreams#bto"@
}

pub fn as_bto_str() -> (r: &'static str)
    ensures
        r@ == as_bto(),
{
    "https://www.w3.org/ns/activitystreams#bto"
}

pub open spec fn as_cc() -> Seq<char> {
    "https://www.w3.org/ns/activitystreams#cc"@
}

pub fn as_cc_str() -> (r: &'static str)
    ensures
        r@ == as_cc(),
{
    "https://www.w3.org/ns/activitystreams#cc"
}

pub open spec fn as_bcc() -> Seq<char> {
    "https://www.w3.org/ns/activitystreams#bcc"@
}

pub fn as_bcc_str() -> (r: &'static str)
    ensures
        r@ == as_bcc(),
{
    "https://www.w3.org/ns/activitystreams#bcc"
}

pub open spec fn as_audience() -> Seq<char> {
    "https://www.w3.org/ns/activitystreams#audience"@
}

pub fn as_audience_str() -> (r: &'static str)
    ensures
        r@ == as_audience(),
{
    "https://www.w3.org/ns/activitystreams#audience"
}

pub open spec fn as_actor() -> Seq<char> {
    "https://www.w3.org/ns/activitystreams#actor"@
}

pub fn as_actor_str() -> (r: &'static str)
    ensures
        r@ == as_actor(),
{
    "https://www.w3.org/ns/activitystreams#actor"
}

pub open spec fn as_followers() -> Seq<char> {
    "https://www.w3.org/ns/activitystreams#followers"@
}

pub fn as_followers_str() -> (r: &'static str)
    ensures
        r@ == as_followers(),
{
    "https://www.w3.org/ns/activitystreams#followers"
}

pub open spec fn as_following() -> Seq<char> {
    "https://www.w3.org/ns/activitystreams#following"@
}

pub fn as_following_str() -> (r: &'static str)
    ensures
        r@ == as_following(),
{
    "https://www.w3.org/ns/activitystreams#following"
}

pub open spec fn as_endpoints() -> Seq<char> {
    "https://www.w3.org/ns/activitystreams#endpoints"@
}

pub fn as_endpoints_str() -> (r: &'static str)
    ensures
        r@ == as_endpoints(),
{
    "https://www.w3.org/ns/activitystreams#endpoints"
}

pub open spec fn as_shared_inbox() -> Seq<char> {
    "https://www.w3.org/ns/activitystreams#sharedInbox"@
}

pub fn as_shared_inbox_str() -> (r: &'static str)
    ensures
        r@ == as_shared_inbox(),
{
    "https://www.w3.org/ns/activitystreams#sharedInbox"
}

pub open spec fn as_ordered_collection() -> Seq<char> {
    "https://www.w3.org/ns/activitystreams#OrderedCollection"@
}

pub fn as_ordered_collection_str() -> (r: &'static str)
    ensures
        r@ == as_ordered_collection(),
{
    "https://www.w3.org/ns/activitystreams#OrderedCollection"
}

pub open spec fn as_ordered_collection_page() -> Seq<char> {
    "https://www.w3.org/ns/activitystreams#OrderedCollectionPage"@
}

pub fn as_ordered_collection_page_str() -> (r: &'static str)
    ensures
        r@ == as_ordered_collection_page(),
{
    "https://www.w3.org/ns/activitystreams#OrderedCollectionPage"
}

pub open spec fn as_collection() -> Seq<char> {
    "https://www.w3.org/ns/activitystreams#Collection"@
}

pub fn as_collection_str() -> (r: &'static str)
    ensures
        r@ == as_collection(),
{
    "https://www.w3.org/ns/activitystreams#Collection"
}

pub open spec fn as_part_of() -> Seq<char> {
    "https://www.w3.org/ns/activitystreams#partOf"@
}

pub fn as_part_of_str() -> (r: &'static str)
    ensures
        r@ == as_part_of(),
{
    "https://www.w3.org/ns/activitystreams#partOf"
}

pub open spec fn as_items() -> Seq<char> {
    "https://www.w3.org/ns/activitystreams#items"@
}

pub fn as_items_str() -> (r: &'static str)
    ensures
        r@ == as_items(),
{
    "https://www.w3.org/ns/activitystreams#items"
}

pub open spec fn as_prev() -> Seq<char> {
    "https://www.w3.org/ns/activitystreams#prev"@
}

pub fn as_prev_str() -> (r: &'static str)
    ensures
        r@ == as_prev(),
{
    "https://www.w3.org/ns/activitystreams#prev"
}

pub open spec fn as_next() -> Seq<char> {
    "https://www.w3.org/ns/activitystreams#next"@
}

pub fn as_next_str() -> (r: &'static str)
    ensures
        r@ == as_next(),
{
    "https://www.w3.org/ns/activitystreams#next"
}

pub open spec fn as_first() -> Seq<char> {
    "https://www.w3.org/ns/activitystreams#first"@
}

pub fn as_first_str() -> (r: &'static str)
    ensures
        r@ == as_first(),
{
    "https://www.w3.org/ns/activitystreams#first"
}

pub open spec fn as_outbox() -> Seq<char> {
    "https://www.w3.org/ns/activitystreams#outbox"@
}

pub fn as_outbox_str() -> (r: &'static str)
    ensures
        r@ == as_outbox(),
{
    "https://www.w3.org/ns/activitystreams#outbox"
}

pub open spec fn as_public() -> Seq<char> {
    "https://www.w3.org/ns/activitystreams#Public"@
}

pub fn as_public_str() -> (r: &'static str)
    ensures
        r@ == as_public(),
{
    "https://www.w3.org/ns/activitystreams#Public"
}

pub open spec fn as_tag() -> Seq<char> {
    "https://www.w3.org/ns/activitystreams#tag"@
}

pub fn as_tag_str() -> (r: &'static str)
    ensures
        r@ == as_tag(),
{
    "https://www.w3.org/ns/activitystreams#tag"
}

pub open spec fn as_preferred_username() -> Seq<char> {
    "https://www.w3.org/ns/activitystreams#preferredUsername"@
}

pub fn as_preferred_username_str() -> (r: &'static str)
    ensures
        r@ == as_preferred_username(),
{
    "https://www.w3.org/ns/activitystreams#preferredUsername"
}

pub open spec fn as_name() -> Seq<char> {
    "https://www.w3.org/ns/activitystreams#name"@
}

pub fn as_name_str() -> (r: &'static str)
    ensures
        r@ == as_name(),
{
    "https://www.w3.org/ns/activitystreams#name"
}

pub open spec fn as_published() -> Seq<char> {
    "https://www.w3.org/ns/activitystreams#published"@
}

pub fn as_published_str() -> (r: &'static str)
    ensures
        r@ == as_published(),
{
    "https://www.w3.org/ns/activitystreams#published"
}

pub open spec fn as_summary() -> Seq<char> {
    "https://www.w3.org/ns/activitystreams#summary"@
}

pub fn as_summary_str() -> (r: &'static str)
    ensures
        r@ == as_summary(),
{
    "https://www.w3.org/ns/activitystreams#summary"
}

pub open spec fn as_content() -> Seq<char> {
    "https://www.w3.org/ns/activitystreams#content"@
}

pub fn as_content_str() -> (r: &'static str)
    ensures
        r@ == as_content(),
{
    "https://www.w3.org/ns/activitystreams#content"
}

pub open spec fn as_object() -> Seq<char> {
    "https://www.w3.org/ns/activitystreams#object"@
}

pub fn as_object_str() -> (r: &'static str)
    ensures
        r@ == as_object(),
{
    "https://www.w3.org/ns/activitystreams#object"
}

pub open spec fn as_attributed_to() -> Seq<char> {
    "https://www.w3.org/ns/activitystreams#attributedTo"@
}

pub fn as_attributed_to_str() -> (r: &'static str)
    ensures
        r@ == as_attributed_to(),
{
    "https://www.w3.org/ns/activitystreams#attributedTo"
}

pub open spec fn as_in_reply_to() -> Seq<char> {
    "https://www.w3.org/ns/activitystreams#inReplyTo"@
}

pub fn as_in_reply_to_str() -> (r: &'static str)
    ensures
        r@ == as_in_reply_to(),
{
    "https://www.w3.org/ns/activitystreams#inReplyTo"
}

pub open spec fn as_url() -> Seq<char> {
    "https://www.w3.org/ns/activitystreams#url"@
}

pub fn as_url_str() -> (r: &'static str)
    ensures
        r@ == as_url(),
{
    "https://www.w3.org/ns/activitystreams#url"
}

pub open spec fn as_sensitive() -> Seq<char> {
    "https://www.w3.org/ns/activitystreams#sensitive"@
}

pub fn as_sensitive_str() -> (r: &'static str)
    ensures
        r@ == as_sensitive(),
{
    "https://www.w3.org/ns/activitystreams#sensitive"
}

pub open spec fn as_announce() -> Seq<char> {
    "https://www.w3.org/ns/activitystreams#Announce"@
}

pub fn as_announce_str() -> (r: &'static str)
    ensures
        r@ == as_announce(),
{
    "https://www.w3.org/ns/activitystreams#Announce"
}

pub open spec fn as_create() -> Seq<char> {
    "https://www.w3.org/ns/activitystreams#Create"@
}

pub fn as_create_str() -> (r: &'static str)
    ensures
        r@ == as_create(),
{
    "https://www.w3.org/ns/activitystreams#Create"
}

pub open spec fn as_note() -> Seq<char> {
    "https://www.w3.org/ns/activitystreams#Note"@
}

pub fn as_note_str() -> (r: &'static str)
    ensures
        r@ == as_note(),
{
    "https://www.w3.org/ns/activitystreams#Note"
}

pub open spec fn ldp_inbox() -> Seq<char> {
    "http://www.w3.org/ns/ldp#inbox"@
}

pub fn ldp_inbox_str() -> (r: &'static str)
    ensures
        r@ == ldp_inbox(),
{
    "http://www.w3.org/ns/ldp#inbox"
}

pub open spec fn kroeg_box() -> Seq<char> {
    "https://puckipedia.com/kroeg/ns#box"@
}

pub fn kroeg_box_str() -> (r: &'static str)
    ensures
        r@ == kroeg_box(),
{
    "https://puckipedia.com/kroeg/ns#box"
}

pub open spec fn kroeg_instance() -> Seq<char> {
    "https://puckipedia.com/kroeg/ns#instance"@
}

pub fn kroeg_instance_str() -> (r: &'static str)
    ensures
        r@ == kroeg_instance(),
{
    "https://puckipedia.com/kroeg/ns#instance"
}

pub open spec fn kroeg_delivery_object() -> Seq<char> {
    "https://puckipedia.com/kroeg/ns#DeliveryObject"@
}

pub fn kroeg_delivery_object_str() -> (r: &'static str)
    ensures
        r@ == kroeg_delivery_object(),
{
    "https://puckipedia.com/kroeg/ns#DeliveryObject"
}

pub open spec fn sec_public_key_pem() -> Seq<char> {
    "https://w3id.org/security#publicKeyPem"@
}

pub fn sec_public_key_pem_str() -> (r: &'static str)
    ensures
        r@ == sec_public_key_pem(),
{
    "https://w3id.org/security#publicKeyPem"
}

pub open spec fn sec_private_key_pem() -> Seq<char> {
    "https://w3id.org/security#privateKeyPem"@
}

pub fn sec_private_key_pem_str() -> (r: &'static str)
    ensures
        r@ == sec_private_key_pem(),
{
    "https://w3id.org/security#privateKeyPem"
}

pub open spec fn sec_owner() -> Seq<char> {
    "https://w3id.org/security#owner"@
}

pub fn sec_owner_str() -> (r: &'static str)
    ensures
        r@ == sec_owner(),
{
    "https://w3id.org/security#owner"
}

pub open spec fn sec_public_key() -> Seq<char> {
    "https://w3id.org/security#publicKey"@
}

pub fn sec_public_key_str() -> (r: &'static str)
    ensures
        r@ == sec_public_key(),
{
    "https://w3id.org/security#publicKey"
}

pub open spec fn xsd_string() -> Seq<char> {
    "http://www.w3.org/2001/XMLSchema#string"@
}

pub fn xsd_string_str() -> (r: &'static str)
    ensures
        r@ == xsd_string(),
{
    "http://www.w3.org/2001/XMLSchema#string"
}

pub open spec fn xsd_integer() -> Seq<char> {
    "http://www.w3.org/2001/XMLSchema#integer"@
}

pub fn xsd_integer_str() -> (r: &'static str)
    ensures
        r@ == xsd_integer(),
{
    "http://www.w3.org/2001/XMLSchema#integer"
}

} // verus!
