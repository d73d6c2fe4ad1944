//! What the forwarding sinks compute before they send or print: the address
//! to post to, the outbound headers and the console rendering of a request.

use vstd::prelude::*;
use vstd::string::{StringExecFns, StringSliceAdditionalSpecFns};
use reqwest::header::{HeaderMap, HeaderName, HeaderValue, InvalidHeaderName, InvalidHeaderValue};
use crate::gh::WebhookDeliveryRequest;
use crate::text::{has_prefix, join2, starts_with};

verus! {

/// The longest header name that is accepted, in bytes.
pub const MAX_NAME_LENGTH: usize = 65_535;

/// The largest number of headers that one request may carry.
pub const MAX_HEADERS: usize = 6_553;

/// Makes `reqwest::header::HeaderMap` known to Verus, as a value
/// whose inside it does not see.
#[verifier::external_type_specification]
#[verifier::external_body]
#[verifier::reject_recursive_types(T)]
pub struct ExHeaderMap<T>(HeaderMap<T>);

/// Makes `reqwest::header::HeaderName` known to Verus, as a value
/// whose inside it does not see.
#[verifier::external_type_specification]
#[verifier::external_body]
pub struct ExHeaderName(HeaderName);

/// Makes `reqwest::header::HeaderValue` known to Verus, as a value
/// whose inside it does not see.
#[verifier::external_type_specification]
#[verifier::external_body]
pub struct ExHeaderValue(HeaderValue);

/// Makes `reqwest::header::InvalidHeaderName` known to Verus, as a value
/// whose inside it does not see.
#[verifier::external_type_specification]
#[verifier::external_body]
pub struct ExInvalidHeaderName(InvalidHeaderName);

/// Makes `reqwest::header::InvalidHeaderValue` known to Verus, as a value
/// whose inside it does not see.
#[verifier::external_type_specification]
#[verifier::external_body]
pub struct ExInvalidHeaderValue(InvalidHeaderValue);

/// What a header map holds: for each name, in lower case, its values in
/// order. Only [`new_header_map`] and [`insert_header`] say anything of it.
pub uninterp spec fn header_entries(headers: HeaderMap) -> Map<Seq<u8>, Seq<Seq<u8>>>;

/// The bytes of a header name. Only [`parse_header_name`] says what they
/// are.
pub uninterp spec fn name_bytes(name: HeaderName) -> Seq<u8>;

/// The bytes of a header value. Only [`parse_header_value`] says what they
/// are.
pub uninterp spec fn value_bytes(value: HeaderValue) -> Seq<u8>;

/// The text that a JSON value is written as. Nothing is said of it but that
/// [`json_string`] returns it.
pub uninterp spec fn json_text(value: serde_json::Value) -> Seq<char>;

/// A text without the white space at its two ends. Nothing is said of it
/// but that [`trim_text`] returns it.
pub uninterp spec fn trimmed(text: Seq<char>) -> Seq<char>;

/// Whether `b` may stand in a header name: a letter, a digit or one of
/// ``!#$%&'*+-.^_`|~``.
pub open spec fn is_name_byte(b: u8) -> bool {
    ||| 0x30 <= b <= 0x39
    ||| 0x41 <= b <= 0x5a
    ||| 0x61 <= b <= 0x7a
    ||| b == 0x21
    ||| 0x23 <= b <= 0x27
    ||| b == 0x2a
    ||| b == 0x2b
    ||| b == 0x2d
    ||| b == 0x2e
    ||| b == 0x5e
    ||| b == 0x5f
    ||| b == 0x60
    ||| b == 0x7c
    ||| b == 0x7e
}

/// `b` with an upper-case letter turned to lower case.
pub open spec fn lower_byte(b: u8) -> u8 {
    if 0x41 <= b <= 0x5a {
        (b + 0x20) as u8
    } else {
        b
    }
}

/// `src` with its upper-case letters turned to lower case.
pub open spec fn lower_bytes(src: Seq<u8>) -> Seq<u8> {
    Seq::new(src.len(), |i: int| lower_byte(src[i]))
}

/// Whether `src` is a legal header name: not empty, not too long, and made
/// of name bytes only.
pub open spec fn is_legal_name(src: Seq<u8>) -> bool {
    &&& 1 <= src.len() <= MAX_NAME_LENGTH
    &&& forall|i: int| 0 <= i < src.len() ==> is_name_byte(#[trigger] src[i])
}

/// Whether `b` may stand in a header value: a tab, or any byte from the
/// space on but the delete character.
pub open spec fn is_value_byte(b: u8) -> bool {
    (b >= 32 && b != 127) || b == 9
}

/// Whether `src` is a legal header value.
pub open spec fn is_legal_value(src: Seq<u8>) -> bool {
    forall|i: int| 0 <= i < src.len() ==> is_value_byte(#[trigger] src[i])
}

/// The contents of a header map that holds nothing.
pub open spec fn no_headers() -> Map<Seq<u8>, Seq<Seq<u8>>> {
    Map::empty()
}

/// An empty header map, from `HeaderMap::new`.
///
/// Trusted: the new map holds nothing.
#[verifier::external_body]
fn new_header_map() -> (headers: HeaderMap)
    ensures
        header_entries(headers) == no_headers(),
{
    HeaderMap::new()
}

/// Sets a header, with `HeaderMap::insert`.
///
/// Trusted: afterwards `name` has `value` as its only value and every other
/// name has the values it had. The map refuses to grow past a fixed size and
/// panics then; it grows only when a fifth or more of its slots are taken, so
/// with no more than [`MAX_HEADERS`] names in it the call returns.
#[verifier::external_body]
fn insert_header(headers: &mut HeaderMap, name: HeaderName, value: HeaderValue)
    requires
        header_entries(*old(headers)).dom().finite(),
        header_entries(*old(headers)).dom().len() <= MAX_HEADERS,
    ensures
        header_entries(*final(headers)) == header_entries(*old(headers)).insert(
            name_bytes(name),
            seq![value_bytes(value)],
        ),
{
    headers.insert(name, value);
}

/// Reads a header name, with `HeaderName::from_bytes`.
///
/// Trusted: a legal name is accepted and held in lower case; anything else
/// is refused.
#[verifier::external_body]
fn parse_header_name(src: &[u8]) -> (r: Result<HeaderName, InvalidHeaderName>)
    ensures
        r is Ok <==> is_legal_name(src@),
        r matches Ok(name) ==> name_bytes(name) == lower_bytes(src@),
{
    HeaderName::from_bytes(src)
}

/// Reads a header value, with `str::parse` into a `HeaderValue`.
///
/// Trusted: a text whose bytes are all legal is accepted and held byte for
/// byte; anything else is refused.
#[verifier::external_body]
fn parse_header_value(src: &str) -> (r: Result<HeaderValue, InvalidHeaderValue>)
    ensures
        r is Ok <==> is_legal_value(src.spec_bytes()),
        r matches Ok(value) ==> value_bytes(value) == src.spec_bytes(),
{
    src.parse::<HeaderValue>()
}

/// The text of a JSON value, from its `to_string`.
///
/// Trusted: the text depends on the value alone.
#[verifier::external_body]
fn json_string(value: &serde_json::Value) -> (s: String)
    ensures
        s@ == json_text(*value),
{
    value.to_string()
}

/// A text without the white space at its ends, from `str::trim`.
///
/// Trusted: the result depends on the text alone.
#[verifier::external_body]
fn trim_text(text: &str) -> (t: &str)
    ensures
        t@ == trimmed(text@),
{
    text.trim()
}

/// The bytes of a header's name as it was received.
pub open spec fn name_of(header: (String, String)) -> Seq<u8> {
    vstd::utf8::encode_utf8(header.0@)
}

/// The bytes of a header's value as it was received.
pub open spec fn value_of(header: (String, String)) -> Seq<u8> {
    vstd::utf8::encode_utf8(header.1@)
}

/// Whether a received header can be sent on.
pub open spec fn is_legal_header(header: (String, String)) -> bool {
    is_legal_name(name_of(header)) && is_legal_value(value_of(header))
}

/// Whether all of `raw` can be sent on.
pub open spec fn all_legal(raw: Seq<(String, String)>) -> bool {
    forall|i: int| 0 <= i < raw.len() ==> is_legal_header(#[trigger] raw[i])
}

/// The outbound headers made of `raw`: each header is set in turn under its
/// name in lower case, so of two headers whose names differ in case only the
/// later one stays.
pub open spec fn outbound(raw: Seq<(String, String)>) -> Map<Seq<u8>, Seq<Seq<u8>>>
    decreases raw.len(),
{
    if raw.len() == 0 {
        Map::empty()
    } else {
        outbound(raw.drop_last()).insert(
            lower_bytes(name_of(raw.last())),
            seq![value_of(raw.last())],
        )
    }
}

/// The outbound headers are finitely many, at most one for each header of
/// `raw`.
pub proof fn lemma_outbound_size(raw: Seq<(String, String)>)
    ensures
        outbound(raw).dom().finite(),
        outbound(raw).dom().len() <= raw.len(),
    decreases raw.len(),
{
    if raw.len() > 0 {
        lemma_outbound_size(raw.drop_last());
    }
}

/// Why a set of headers cannot be sent on.
#[derive(Clone, Copy, Debug, PartialEq, Eq, Structural)]
pub enum HeaderError {
    /// There are more than [`MAX_HEADERS`] headers.
    TooMany,
    /// The name of the header at this position is not legal.
    InvalidName(usize),
    /// The value of the header at this position is not legal.
    InvalidValue(usize),
}

/// The first reason for which `raw` cannot be sent on, if there is one: too
/// many headers, else the first header that is not legal, its name tested
/// before its value.
pub open spec fn first_fault(raw: Seq<(String, String)>) -> Option<HeaderError> {
    if raw.len() > MAX_HEADERS {
        Some(HeaderError::TooMany)
    } else if all_legal(raw) {
        None
    } else {
        let i = choose|i: int|
            0 <= i < raw.len() && !is_legal_header(raw[i]) && all_legal(raw.take(i));
        if is_legal_name(name_of(raw[i])) {
            Some(HeaderError::InvalidValue(i as usize))
        } else {
            Some(HeaderError::InvalidName(i as usize))
        }
    }
}

/// Tests whether `raw` can be sent on, and says why not.
pub fn check_headers(raw: &Vec<(String, String)>) -> (r: Result<(), HeaderError>)
    ensures
        r is Ok <==> raw.len() <= MAX_HEADERS && all_legal(raw@),
        r matches Err(e) ==> first_fault(raw@) == Some(e),
{
    if raw.len() > MAX_HEADERS {
        return Err(HeaderError::TooMany);
    }
    let mut i: usize = 0;
    while i < raw.len()
        invariant
            i <= raw.len() <= MAX_HEADERS,
            all_legal(raw@.take(i as int)),
        decreases raw.len() - i,
    {
        let name_ok = parse_header_name(raw[i].0.as_str().as_bytes()).is_ok();
        if !name_ok {
            proof {
                lemma_first_fault_is_unique(raw@, i as int);
            }
            return Err(HeaderError::InvalidName(i));
        }
        let value_ok = parse_header_value(raw[i].1.as_str()).is_ok();
        if !value_ok {
            proof {
                lemma_first_fault_is_unique(raw@, i as int);
            }
            return Err(HeaderError::InvalidValue(i));
        }
        proof {
            assert forall|k: int| 0 <= k < i + 1 implies is_legal_header(
                #[trigger] raw@.take(i + 1)[k],
            ) by {
                if k < i {
                    assert(raw@.take(i + 1)[k] == raw@.take(i as int)[k]);
                }
            }
        }
        i = i + 1;
    }
    proof {
        assert(raw@.take(i as int) == raw@);
    }
    Ok(())
}

/// Only one header is the first that is not legal.
pub proof fn lemma_first_fault_is_unique(raw: Seq<(String, String)>, i: int)
    requires
        0 <= i < raw.len(),
        !is_legal_header(raw[i]),
        all_legal(raw.take(i)),
    ensures
        !all_legal(raw),
        forall|k: int|
            0 <= k < raw.len() && !is_legal_header(raw[k]) && #[trigger] all_legal(raw.take(k))
                ==> k == i,
{
    assert forall|k: int|
        0 <= k < raw.len() && !is_legal_header(raw[k]) && #[trigger] all_legal(
            raw.take(k),
        ) implies k == i by {
        if k < i {
            assert(raw.take(i)[k] == raw[k]);
        } else if i < k {
            assert(raw.take(k)[i] == raw[i]);
        }
    }
}

/// Makes the outbound headers of a request from the headers that were
/// received with the delivery.
pub fn build_headers(raw_headers: &Vec<(String, String)>) -> (headers: HeaderMap)
    requires
        raw_headers.len() <= MAX_HEADERS,
        all_legal(raw_headers@),
    ensures
        header_entries(headers) == outbound(raw_headers@),
{
    let mut headers = new_header_map();
    let mut i: usize = 0;
    while i < raw_headers.len()
        invariant
            i <= raw_headers.len() <= MAX_HEADERS,
            all_legal(raw_headers@),
            header_entries(headers) == outbound(raw_headers@.take(i as int)),
        decreases raw_headers.len() - i,
    {
        proof {
            lemma_outbound_size(raw_headers@.take(i as int));
            assert(is_legal_header(raw_headers@[i as int]));
            assert(raw_headers@.take(i + 1).drop_last() == raw_headers@.take(i as int));
            assert(raw_headers@.take(i + 1).last() == raw_headers@[i as int]);
        }
        let name = parse_header_name(raw_headers[i].0.as_str().as_bytes());
        let value = parse_header_value(raw_headers[i].1.as_str());
        match (name, value) {
            (Ok(name), Ok(value)) => {
                insert_header(&mut headers, name, value);
            },
            _ => {
                assert(false);
            },
        }
        i = i + 1;
    }
    proof {
        assert(raw_headers@.take(i as int) == raw_headers@);
    }
    headers
}

/// Makes the outbound headers of a request where the received headers can be
/// sent on, and says why not where they cannot.
pub fn try_build_headers(raw_headers: &Vec<(String, String)>) -> (r: Result<
    HeaderMap,
    HeaderError,
>)
    ensures
        r is Ok <==> raw_headers.len() <= MAX_HEADERS && all_legal(raw_headers@),
        r matches Ok(headers) ==> header_entries(headers) == outbound(raw_headers@),
        r matches Err(e) ==> first_fault(raw_headers@) == Some(e),
{
    match check_headers(raw_headers) {
        Ok(()) => Ok(build_headers(raw_headers)),
        Err(e) => Err(e),
    }
}

/// Where of two headers whose names differ in case only the later one
/// stays, the header at position `i` is sent on under its name in lower case
/// and with its value byte for byte, unless a later header has that name.
pub proof fn lemma_outbound_keeps(raw: Seq<(String, String)>, i: int)
    requires
        0 <= i < raw.len(),
        forall|j: int|
            i < j < raw.len() ==> lower_bytes(name_of(#[trigger] raw[j])) != lower_bytes(
                name_of(raw[i]),
            ),
    ensures
        outbound(raw).contains_key(lower_bytes(name_of(raw[i]))),
        outbound(raw)[lower_bytes(name_of(raw[i]))] == seq![value_of(raw[i])],
    decreases raw.len(),
{
    if i < raw.len() - 1 {
        let front = raw.drop_last();
        assert(front[i] == raw[i]);
        assert forall|j: int| i < j < front.len() implies lower_bytes(
            name_of(#[trigger] front[j]),
        ) != lower_bytes(name_of(front[i])) by {
            assert(front[j] == raw[j]);
        }
        lemma_outbound_keeps(front, i);
        assert(raw.last() == raw[raw.len() - 1]);
    }
}

/// Two names that differ in the case of their letters only are the same
/// outbound name.
pub proof fn lemma_names_ignore_case(a: Seq<u8>, b: Seq<u8>)
    requires
        a.len() == b.len(),
        forall|i: int| 0 <= i < a.len() ==> lower_byte(a[i]) == lower_byte(b[i]),
    ensures
        lower_bytes(a) == lower_bytes(b),
        lower_bytes(lower_bytes(a)) == lower_bytes(a),
{
    assert(lower_bytes(a) =~= lower_bytes(b));
    assert(lower_bytes(lower_bytes(a)) =~= lower_bytes(a));
}

/// `text` with `http://` put before it, unless it begins with that.
pub open spec fn with_scheme(text: Seq<char>) -> Seq<char> {
    if starts_with("http://"@, text) {
        text
    } else {
        "http://"@ + text
    }
}

/// Puts `http://` before an address that does not begin with it.
pub fn with_http_scheme(address: &str) -> (url: String)
    ensures
        url@ == with_scheme(address@),
{
    if has_prefix(address, "http://") {
        String::from_str(address)
    } else {
        join2("http://", address)
    }
}

/// The address that the HTTP sink posts to: `url` without the white space at
/// its ends, as a plain HTTP address.
pub fn clean_url(url: &str) -> (clean: String)
    ensures
        clean@ == with_scheme(trimmed(url@)),
{
    with_http_scheme(trim_text(url))
}

/// One header as a line of text.
pub open spec fn header_line(header: (String, String)) -> Seq<char> {
    header.0@ + ": "@ + header.1@
}

/// The headers as lines of text, with a line feed between each two.
pub open spec fn header_lines(headers: Seq<(String, String)>) -> Seq<char>
    decreases headers.len(),
{
    if headers.len() == 0 {
        Seq::empty()
    } else if headers.len() == 1 {
        header_line(headers.last())
    } else {
        header_lines(headers.drop_last()) + "\n"@ + header_line(headers.last())
    }
}

/// A request as text: its headers, an empty line, and its body.
pub open spec fn request_text(headers: Seq<(String, String)>, body: Seq<char>) -> Seq<char> {
    header_lines(headers) + "\n\n"@ + body
}

/// Writes a request as text: one line for each header, an empty line, and
/// the body.
pub fn render_request(headers: &Vec<(String, String)>, body: &str) -> (text: String)
    ensures
        text@ == request_text(headers@, body@),
{
    let mut text = String::new();
    let mut i: usize = 0;
    while i < headers.len()
        invariant
            i <= headers.len(),
            text@ == header_lines(headers@.take(i as int)),
        decreases headers.len() - i,
    {
        proof {
            assert(headers@.take(i + 1).drop_last() == headers@.take(i as int));
            assert(headers@.take(i + 1).last() == headers@[i as int]);
        }
        if i > 0 {
            text.append("\n");
        }
        let ghost before = text@;
        text.append(headers[i].0.as_str());
        text.append(": ");
        text.append(headers[i].1.as_str());
        proof {
            let line = header_line(headers@[i as int]);
            assert(text@ == before + line);
            if i == 0 {
                assert(before + line == line);
            }
        }
        i = i + 1;
    }
    proof {
        assert(headers@.take(i as int) == headers@);
    }
    text.append("\n\n");
    text.append(body);
    text
}

impl WebhookDeliveryRequest {
    /// The request as text: its headers, an empty line, and its payload as
    /// JSON.
    pub fn to_text(&self) -> (text: String)
        ensures
            text@ == request_text(self.headers@, json_text(self.payload)),
    {
        let body = json_string(&self.payload);
        render_request(&self.headers, body.as_str())
    }
}

/// The sink that prints each delivery.
#[derive(Clone, Copy, Debug, PartialEq, Eq, Structural)]
pub struct StdOutForwarder;

impl StdOutForwarder {
    /// The printing sink.
    pub fn new() -> (forwarder: Self)
        ensures
            forwarder == StdOutForwarder,
    {
        StdOutForwarder
    }

    /// The text that the sink prints for `request`.
    pub fn render(&self, request: &WebhookDeliveryRequest) -> (text: String)
        ensures
            text@ == "Received webhook delivery:\n"@ + request_text(
                request.headers@,
                json_text(request.payload),
            ),
    {
        let body = request.to_text();
        join2("Received webhook delivery:\n", body.as_str())
    }
}

} // verus!
