//! The records exchanged with the delivery source and the addresses of its
//! endpoints.

use vstd::prelude::*;
use vstd::string::StringExecFns;
use crate::clock::Timestamp;
use vstd::utf8::{decode_utf8, valid_utf8};
use crate::text::{
    ascii_trimmed, contains_text, decimal, decimal_string, occurs_in, text_from_utf8,
    trim_ascii_text,
};

verus! {

/// The largest number of summaries asked for in one page.
pub const PAGE_SIZE: u64 = 100;

/// Makes `serde_json::Value` known to Verus, as a value whose inside
/// it does not see: a payload is carried through as it came.
#[verifier::external_type_specification]
#[verifier::external_body]
pub struct ExJsonValue(serde_json::Value);

/// What the source answers when a webhook was created.
#[derive(Debug)]
pub struct CreateWebhookResponse {
    pub id: u32,
    pub name: String,
    pub active: bool,
    pub events: Vec<String>,
}

/// One line of a page of delivery summaries.
#[derive(Debug)]
pub struct WebhookDelivery {
    pub id: u64,
    pub delivered_at: Timestamp,
    pub event: String,
    pub action: String,
}

/// The request that a delivery carried: its headers, in the order in which
/// they are held, and its body.
#[derive(Debug)]
pub struct WebhookDeliveryRequest {
    pub headers: Vec<(String, String)>,
    pub payload: serde_json::Value,
}

/// A delivery in full.
#[derive(Debug)]
pub struct WebhookDeliveryDetails {
    pub id: u64,
    pub delivered_at: Timestamp,
    pub event: String,
    pub action: String,
    pub request: WebhookDeliveryRequest,
}

/// The settings of a webhook that is to be created.
#[derive(Debug)]
pub struct WebhookConfig {
    pub content_type: String,
    pub secret: Option<String>,
}

/// The body of the request that creates a webhook.
#[derive(Debug)]
pub struct CreateWebhookPayload {
    pub name: String,
    pub active: bool,
    pub events: Vec<String>,
    pub config: WebhookConfig,
}

impl CreateWebhookPayload {
    /// The body for an active webhook named `cli` that delivers `events` as
    /// JSON, signed with `secret` where one is given.
    pub fn new(secret: Option<String>, events: Vec<String>) -> (p: CreateWebhookPayload)
        ensures
            p.name@ == "cli"@,
            p.active,
            p.events == events,
            p.config.content_type@ == "json"@,
            p.config.secret == secret,
    {
        CreateWebhookPayload {
            name: String::from_str("cli"),
            active: true,
            events,
            config: WebhookConfig { content_type: String::from_str("json"), secret },
        }
    }
}

/// The address of a repository's webhooks: plain HTTP on a host whose name
/// holds `localhost`, else HTTPS on the host's `api.` subdomain.
pub open spec fn hooks_url_text(host: Seq<char>, repo: Seq<char>) -> Seq<char> {
    if occurs_in("localhost"@, host) {
        "http://"@ + host + "/repos/"@ + repo + "/hooks"@
    } else {
        "https://api."@ + host + "/repos/"@ + repo + "/hooks"@
    }
}

/// The address of one webhook under `base`.
pub open spec fn webhook_url_text(base: Seq<char>, webhook_id: nat) -> Seq<char> {
    base + "/"@ + decimal(webhook_id)
}

/// The address of the newest page of a webhook's delivery summaries.
pub open spec fn deliveries_url_text(base: Seq<char>, webhook_id: nat) -> Seq<char> {
    webhook_url_text(base, webhook_id) + "/deliveries?per_page="@ + decimal(PAGE_SIZE as nat)
}

/// The address of one delivery in full.
pub open spec fn delivery_details_url_text(
    base: Seq<char>,
    webhook_id: nat,
    delivery_id: nat,
) -> Seq<char> {
    webhook_url_text(base, webhook_id) + "/deliveries/"@ + decimal(delivery_id)
}

/// The address of the webhooks of `repo` on `host`.
pub fn hooks_url(host: &str, repo: &str) -> (url: String)
    ensures
        url@ == hooks_url_text(host@, repo@),
{
    let mut url = if contains_text(host, "localhost") {
        String::from_str("http://")
    } else {
        String::from_str("https://api.")
    };
    url.append(host);
    url.append("/repos/");
    url.append(repo);
    url.append("/hooks");
    url
}

/// The address of the webhook `webhook_id` under `base`.
pub fn webhook_url(base: &str, webhook_id: u32) -> (url: String)
    ensures
        url@ == webhook_url_text(base@, webhook_id as nat),
{
    let mut url = String::from_str(base);
    url.append("/");
    let id = decimal_string(webhook_id as u64);
    url.append(id.as_str());
    url
}

/// The address that lists the newest deliveries of `webhook_id`, at most
/// [`PAGE_SIZE`] of them.
pub fn deliveries_url(base: &str, webhook_id: u32) -> (url: String)
    ensures
        url@ == deliveries_url_text(base@, webhook_id as nat),
{
    let mut url = webhook_url(base, webhook_id);
    url.append("/deliveries?per_page=");
    let size = decimal_string(PAGE_SIZE);
    url.append(size.as_str());
    url
}

/// The address of the delivery `delivery_id` of `webhook_id`.
pub fn delivery_details_url(base: &str, webhook_id: u32, delivery_id: u64) -> (url: String)
    ensures
        url@ == delivery_details_url_text(base@, webhook_id as nat, delivery_id as nat),
{
    let mut url = webhook_url(base, webhook_id);
    url.append("/deliveries/");
    let id = decimal_string(delivery_id);
    url.append(id.as_str());
    url
}

/// The access token in what the credential tool printed: its output as text,
/// without the white space around it. There is none where the output is not
/// valid UTF-8.
pub fn token_from_output(stdout: Vec<u8>) -> (token: Option<String>)
    ensures
        token is Some <==> valid_utf8(stdout@),
        token matches Some(t) ==> t@ == ascii_trimmed(decode_utf8(stdout@)),
{
    match text_from_utf8(stdout) {
        Some(text) => Some(String::from_str(trim_ascii_text(text.as_str()))),
        None => None,
    }
}

} // verus!
