use ghes_webhook::gh::{
    deliveries_url, delivery_details_url, hooks_url, webhook_url, CreateWebhookPayload,
    CreateWebhookResponse, PAGE_SIZE,
};
use ghes_webhook::gh::token_from_output;
use ghes_webhook::text::join2;

#[test]
fn hooks_address_depends_on_the_host() {
    assert_eq!(hooks_url("github.com", "org/repo"), "https://api.github.com/repos/org/repo/hooks");
    assert_eq!(hooks_url("localhost:8080", "org/repo"), "http://localhost:8080/repos/org/repo/hooks");
    assert_eq!(
        hooks_url("my.localhost.test", "o/r"),
        "http://my.localhost.test/repos/o/r/hooks"
    );
    assert_eq!(hooks_url("localhos", "o/r"), "https://api.localhos/repos/o/r/hooks");
    assert_eq!(hooks_url("", ""), "https://api./repos//hooks");
}

#[test]
fn webhook_addresses_hold_the_ids_in_decimal() {
    let base = "http://localhost:1/repos/org/repo/hooks";
    assert_eq!(webhook_url(base, 1), "http://localhost:1/repos/org/repo/hooks/1");
    assert_eq!(webhook_url(base, 0), "http://localhost:1/repos/org/repo/hooks/0");
    assert_eq!(webhook_url("b", u32::MAX), "b/4294967295");
    assert_eq!(PAGE_SIZE, 100);
    assert_eq!(
        deliveries_url(base, 1),
        "http://localhost:1/repos/org/repo/hooks/1/deliveries?per_page=100"
    );
    assert_eq!(
        delivery_details_url(base, 1, 1),
        "http://localhost:1/repos/org/repo/hooks/1/deliveries/1"
    );
    assert_eq!(
        delivery_details_url("b", 10, u64::MAX),
        "b/10/deliveries/18446744073709551615"
    );
    assert_eq!(delivery_details_url("b", 907, 1020), "b/907/deliveries/1020");
}

#[test]
fn webhook_payload_is_an_active_json_hook() {
    let payload = CreateWebhookPayload::new(
        Some(String::from("s3")),
        vec![String::from("issues"), String::from("push")],
    );
    assert_eq!(payload.name, "cli");
    assert!(payload.active);
    assert_eq!(payload.events, vec![String::from("issues"), String::from("push")]);
    assert_eq!(payload.config.content_type, "json");
    assert_eq!(payload.config.secret, Some(String::from("s3")));
    let bare = CreateWebhookPayload::new(None, Vec::new());
    assert_eq!(bare.config.secret, None);
    assert!(bare.events.is_empty());
}

#[test]
fn webhook_response_holds_its_fields() {
    let response = CreateWebhookResponse {
        id: 1,
        name: String::from("cli"),
        active: true,
        events: vec![String::from("issues")],
    };
    assert_eq!(response.id, 1);
    assert_eq!(response.name, "cli");
    assert!(response.active);
    assert_eq!(response.events.len(), 1);
}

#[test]
fn texts_are_joined_in_order() {
    assert_eq!(join2("ab", "cd"), "abcd");
    assert_eq!(join2("", "x"), "x");
    assert_eq!(join2("x", ""), "x");
}

#[test]
fn token_is_the_trimmed_output() {
    let printed = b"gh_aaaaaaaaaaaaaaaaaaaaaaaaaaaaaaaaaaaaaaaaa\n".to_vec();
    assert_eq!(
        token_from_output(printed),
        Some(String::from("gh_aaaaaaaaaaaaaaaaaaaaaaaaaaaaaaaaaaaaaaaaa"))
    );
    assert_eq!(token_from_output(b" \t\r\n a b \x0c".to_vec()), Some(String::from("a b")));
    assert_eq!(token_from_output(Vec::new()), Some(String::new()));
    assert_eq!(token_from_output(b"  ".to_vec()), Some(String::new()));
    // A no-break space is white space, but not in ASCII.
    assert_eq!(
        token_from_output("\u{a0}x\u{a0}".as_bytes().to_vec()),
        Some(String::from("\u{a0}x\u{a0}"))
    );
    assert_eq!(token_from_output(vec![0x67, 0x68, 0xff]), None);
    assert_eq!(token_from_output(vec![0xc0, 0x80]), None);
}
