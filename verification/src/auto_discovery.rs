//! Auto-discovery handlers: HTTP routes, the HTTP reply envelope and the
//! admin verbs the plugin answers.

use vstd::prelude::*;
use vstd::utf8::{encode_utf8, is_ascii_chars, is_ascii_chars_encode_utf8};
use crate::text::str_equal;

verus! {

/// The character with index `v` (below 64) in the standard base64 alphabet:
/// `A`-`Z`, then `a`-`z`, then `0`-`9`, then `+` and `/`.
pub open spec fn base64_char(v: int) -> char {
    if v < 26 {
        (65 + v) as char
    } else if v < 52 {
        (71 + v) as char
    } else if v < 62 {
        (v - 4) as char
    } else if v == 62 {
        '+'
    } else {
        '/'
    }
}

/// Standard base64 with `=` padding: every three bytes become four
/// characters, six bits each, most significant first; a last group of two
/// bytes becomes three characters and `=`, a last single byte two
/// characters and `==`.
pub open spec fn base64_standard(bytes: Seq<u8>) -> Seq<char>
    decreases bytes.len(),
{
    if bytes.len() == 0 {
        Seq::empty()
    } else if bytes.len() == 1 {
        let b0 = bytes[0] as int;
        seq![base64_char(b0 / 4), base64_char((b0 % 4) * 16), '=', '=']
    } else if bytes.len() == 2 {
        let b0 = bytes[0] as int;
        let b1 = bytes[1] as int;
        seq![base64_char(b0 / 4), base64_char((b0 % 4) * 16 + b1 / 16), base64_char((b1 % 16) * 4), '=']
    } else {
        let b0 = bytes[0] as int;
        let b1 = bytes[1] as int;
        let b2 = bytes[2] as int;
        seq![
            base64_char(b0 / 4),
            base64_char((b0 % 4) * 16 + b1 / 16),
            base64_char((b1 % 16) * 4 + b2 / 64),
            base64_char(b2 % 64),
        ] + base64_standard(bytes.skip(3))
    }
}

/// Length of the padded base64 text of `n` bytes.
pub open spec fn base64_padded_len(n: nat) -> nat {
    (n / 3) * 4 + if n % 3 == 0 {
        0nat
    } else {
        4nat
    }
}

/// The padded base64 text of `bytes` has `base64_padded_len` characters.
pub proof fn lemma_base64_standard_len(bytes: Seq<u8>)
    ensures
        base64_standard(bytes).len() == base64_padded_len(bytes.len()),
    decreases bytes.len(),
{
    if bytes.len() >= 3 {
        lemma_base64_standard_len(bytes.skip(3));
    }
}

/// The alphabet: indices 0 to 25 are `A` to `Z`, 26 to 51 are `a` to `z`,
/// 52 to 61 are `0` to `9`, then `+` and `/`.
pub proof fn lemma_base64_alphabet(v: int)
    requires
        0 <= v < 64,
    ensures
        v < 26 ==> base64_char(v) as u32 == 'A' as u32 + v,
        26 <= v < 52 ==> base64_char(v) as u32 == 'a' as u32 + (v - 26),
        52 <= v < 62 ==> base64_char(v) as u32 == '0' as u32 + (v - 52),
        v == 62 ==> base64_char(v) == '+',
        v == 63 ==> base64_char(v) == '/',
{
}

/// Each group of three bytes is written as four characters whose indices
/// are the four 6-bit parts of the group's 24 bits, most significant first;
/// a last pair of bytes is their 16 bits and two zero bits in three
/// characters, then `=`; a last single byte is its 8 bits and four zero bits
/// in two characters, then `==`. Groups are written one after another.
pub proof fn lemma_base64_groups(bytes: Seq<u8>)
    ensures
        bytes.len() >= 3 ==> exists|v0: int, v1: int, v2: int, v3: int|
            #![trigger base64_char(v0), base64_char(v1), base64_char(v2), base64_char(v3)]
            {
                &&& 0 <= v0 < 64 && 0 <= v1 < 64 && 0 <= v2 < 64 && 0 <= v3 < 64
                &&& v0 * 262144 + v1 * 4096 + v2 * 64 + v3 == bytes[0] * 65536 + bytes[1] * 256
                    + bytes[2]
                &&& base64_standard(bytes) == seq![
                    base64_char(v0),
                    base64_char(v1),
                    base64_char(v2),
                    base64_char(v3),
                ] + base64_standard(bytes.skip(3))
            },
        bytes.len() == 2 ==> exists|v0: int, v1: int, v2: int|
            #![trigger base64_char(v0), base64_char(v1), base64_char(v2)]
            {
                &&& 0 <= v0 < 64 && 0 <= v1 < 64 && 0 <= v2 < 64
                &&& v0 * 4096 + v1 * 64 + v2 == (bytes[0] * 256 + bytes[1]) * 4
                &&& base64_standard(bytes) == seq![
                    base64_char(v0),
                    base64_char(v1),
                    base64_char(v2),
                    '=',
                ]
            },
        bytes.len() == 1 ==> exists|v0: int, v1: int|
            #![trigger base64_char(v0), base64_char(v1)]
            {
                &&& 0 <= v0 < 64 && 0 <= v1 < 64
                &&& v0 * 64 + v1 == bytes[0] * 16
                &&& base64_standard(bytes) == seq![base64_char(v0), base64_char(v1), '=', '=']
            },
        bytes.len() == 0 ==> base64_standard(bytes).len() == 0,
{
    if bytes.len() >= 3 {
        let b0 = bytes[0];
        let b1 = bytes[1];
        let b2 = bytes[2];
        let v0 = b0 as int / 4;
        let v1 = (b0 as int % 4) * 16 + b1 as int / 16;
        let v2 = (b1 as int % 16) * 4 + b2 as int / 64;
        let v3 = b2 as int % 64;
        assert((b0 / 4) * 262144u32 + ((b0 % 4) * 16 + b1 / 16) * 4096u32 + ((b1 % 16) * 4 + b2
            / 64) * 64u32 + b2 % 64 == b0 * 65536u32 + b1 * 256u32 + b2) by (bit_vector);
        assert(0 <= v0 < 64 && 0 <= v1 < 64 && 0 <= v2 < 64 && 0 <= v3 < 64);
        assert(v0 * 262144 + v1 * 4096 + v2 * 64 + v3 == b0 * 65536 + b1 * 256 + b2);
        assert(base64_standard(bytes) == seq![
            base64_char(v0),
            base64_char(v1),
            base64_char(v2),
            base64_char(v3),
        ] + base64_standard(bytes.skip(3)));
    } else if bytes.len() == 2 {
        let b0 = bytes[0];
        let b1 = bytes[1];
        let v0 = b0 as int / 4;
        let v1 = (b0 as int % 4) * 16 + b1 as int / 16;
        let v2 = (b1 as int % 16) * 4;
        assert((b0 / 4) * 4096u32 + ((b0 % 4) * 16 + b1 / 16) * 64u32 + (b1 % 16) * 4 == (b0
            * 256u32 + b1) * 4) by (bit_vector);
        assert(0 <= v0 < 64 && 0 <= v1 < 64 && 0 <= v2 < 64);
        assert(v0 * 4096 + v1 * 64 + v2 == (b0 * 256 + b1) * 4);
        assert(base64_standard(bytes) == seq![
            base64_char(v0),
            base64_char(v1),
            base64_char(v2),
            '=',
        ]);
    } else if bytes.len() == 1 {
        let b0 = bytes[0];
        let v0 = b0 as int / 4;
        let v1 = (b0 as int % 4) * 16;
        assert((b0 / 4) * 64u32 + (b0 % 4) * 16 == b0 * 16u32) by (bit_vector);
        assert(0 <= v0 < 64 && 0 <= v1 < 64);
        assert(v0 * 64 + v1 == b0 * 16);
        assert(base64_standard(bytes) == seq![base64_char(v0), base64_char(v1), '=', '=']);
    }
}

/// `base64::engine::general_purpose::STANDARD.encode`: the standard
/// base64 alphabet with padding, as `base64_standard` spells it out. It
/// panics when the encoded length does not fit in a `usize`, which
/// `requires` rules out.
#[verifier::external_body]
fn encode_base64(bytes: &[u8]) -> (text: String)
    requires
        base64_padded_len(bytes@.len()) <= usize::MAX,
    ensures
        text@ == base64_standard(bytes@),
{
    base64::Engine::encode(&base64::engine::general_purpose::STANDARD, bytes)
}

/// The routes of the plugin's HTTP surface.
#[derive(Debug, Clone, Copy, PartialEq, Eq, Structural)]
pub enum HttpRoute {
    /// `GET /email/health`
    Health,
    /// `GET /email/status`
    Status,
    /// Anything else.
    NotFound,
}

/// The route a request with this method and path takes. A missing method
/// counts as `GET` and a missing path as `/`.
pub open spec fn http_route(method: Option<Seq<char>>, path: Option<Seq<char>>) -> HttpRoute {
    let m = match method {
        Some(m) => m,
        None => "GET"@,
    };
    let p = match path {
        Some(p) => p,
        None => "/"@,
    };
    if m == "GET"@ && p == "/email/health"@ {
        HttpRoute::Health
    } else if m == "GET"@ && p == "/email/status"@ {
        HttpRoute::Status
    } else {
        HttpRoute::NotFound
    }
}

pub open spec fn opt_view(s: Option<&str>) -> Option<Seq<char>> {
    match s {
        Some(s) => Some(s@),
        None => None,
    }
}

/// Route an HTTP request by its method and path.
pub fn route_http_request(method: Option<&str>, path: Option<&str>) -> (r: HttpRoute)
    ensures
        r == http_route(opt_view(method), opt_view(path)),
{
    let m = match method {
        Some(m) => m,
        None => "GET",
    };
    let p = match path {
        Some(p) => p,
        None => "/",
    };
    if str_equal(m, "GET") && str_equal(p, "/email/health") {
        HttpRoute::Health
    } else if str_equal(m, "GET") && str_equal(p, "/email/status") {
        HttpRoute::Status
    } else {
        HttpRoute::NotFound
    }
}

/// An HTTP reply as the broker carries it: the body travels base64-encoded.
#[derive(Debug)]
pub struct HttpResponse {
    pub status: u16,
    pub content_type: String,
    pub body_base64: String,
}

/// Wrap a status, a content type and a body into a reply.
pub fn respond(status: u16, content_type: &str, body: &[u8]) -> (r: HttpResponse)
    requires
        base64_padded_len(body@.len()) <= usize::MAX,
    ensures
        r.status == status,
        r.content_type@ == content_type@,
        r.body_base64@ == base64_standard(body@),
{
    HttpResponse {
        status,
        content_type: String::from_str(content_type),
        body_base64: encode_base64(body),
    }
}

pub open spec fn text_content_type() -> Seq<char> {
    "text/plain; charset=utf-8"@
}

pub open spec fn json_content_type() -> Seq<char> {
    "application/json; charset=utf-8"@
}

pub open spec fn health_body() -> Seq<u8> {
    encode_utf8("email plugin ok\n"@)
}

pub open spec fn not_found_body() -> Seq<u8> {
    encode_utf8("{\"error\":\"not found\"}"@)
}

/// The reply to a routed request: health answers 200 with a plain-text
/// line, status answers 200 with `status_body` (the JSON document the
/// caller renders), anything else answers 404 with a JSON error.
pub fn http_response(route: HttpRoute, status_body: &[u8]) -> (r: HttpResponse)
    requires
        route == HttpRoute::Status ==> base64_padded_len(status_body@.len()) <= usize::MAX,
    ensures
        route == HttpRoute::Health ==> {
            &&& r.status == 200
            &&& r.content_type@ == text_content_type()
            &&& r.body_base64@ == base64_standard(health_body())
        },
        route == HttpRoute::Status ==> {
            &&& r.status == 200
            &&& r.content_type@ == json_content_type()
            &&& r.body_base64@ == base64_standard(status_body@)
        },
        route == HttpRoute::NotFound ==> {
            &&& r.status == 404
            &&& r.content_type@ == json_content_type()
            &&& r.body_base64@ == base64_standard(not_found_body())
        },
{
    match route {
        HttpRoute::Health => {
            let body = "email plugin ok\n";
            proof {
                reveal_strlit("email plugin ok\n");
                assert(is_ascii_chars(body@));
                is_ascii_chars_encode_utf8(body@);
            }
            respond(200, "text/plain; charset=utf-8", body.as_bytes())
        },
        HttpRoute::Status => respond(200, "application/json; charset=utf-8", status_body),
        HttpRoute::NotFound => {
            let body = "{\"error\":\"not found\"}";
            proof {
                reveal_strlit("{\"error\":\"not found\"}");
                assert(is_ascii_chars(body@));
                is_ascii_chars_encode_utf8(body@);
            }
            respond(404, "application/json; charset=utf-8", body.as_bytes())
        },
    }
}

} // verus!

verus! {

/// The admin RPC verbs the plugin answers.
#[derive(Debug)]
pub enum AdminVerb {
    /// `nexo/admin/email/bot_info`: plugin metadata.
    BotInfo,
    /// `nexo/admin/email/list_instances`: account labels of every tenant.
    ListInstances,
    /// `nexo/admin/email/list_tenants`: one row per tenant.
    ListTenants,
    /// Any other method, with the error text the reply carries.
    Unknown(String),
}

pub open spec fn unknown_admin_message(method: Seq<char>) -> Seq<char> {
    "unknown admin method: "@ + method
}

/// Which verb an admin request names; a missing method counts as the empty
/// method, which no verb has.
pub fn admin_verb(method: Option<&str>) -> (v: AdminVerb)
    ensures
        ({
            let m = match opt_view(method) {
                Some(m) => m,
                None => Seq::<char>::empty(),
            };
            match v {
                AdminVerb::BotInfo => m == "nexo/admin/email/bot_info"@,
                AdminVerb::ListInstances => m == "nexo/admin/email/list_instances"@,
                AdminVerb::ListTenants => m == "nexo/admin/email/list_tenants"@,
                AdminVerb::Unknown(e) => {
                    &&& m != "nexo/admin/email/bot_info"@
                    &&& m != "nexo/admin/email/list_instances"@
                    &&& m != "nexo/admin/email/list_tenants"@
                    &&& e@ == unknown_admin_message(m)
                },
            }
        }),
{
    let m = match method {
        Some(m) => m,
        None => "",
    };
    proof {
        reveal_strlit("");
        assert(""@ =~= Seq::<char>::empty());
    }
    if str_equal(m, "nexo/admin/email/bot_info") {
        AdminVerb::BotInfo
    } else if str_equal(m, "nexo/admin/email/list_instances") {
        AdminVerb::ListInstances
    } else if str_equal(m, "nexo/admin/email/list_tenants") {
        AdminVerb::ListTenants
    } else {
        let mut e = String::from_str("unknown admin method: ");
        e.append(m);
        AdminVerb::Unknown(e)
    }
}

/// A missing method routes as `GET` and a missing path as `/`, on every
/// path and method; `GET /email/health` is the health route, `GET
/// /email/status` the status route, and any other method is not found.
pub proof fn lemma_http_route_table(method: Option<Seq<char>>, path: Option<Seq<char>>)
    ensures
        http_route(None, path) == http_route(Some("GET"@), path),
        http_route(method, None) == http_route(method, Some("/"@)),
        http_route(Some("GET"@), Some("/email/health"@)) == HttpRoute::Health,
        http_route(Some("GET"@), Some("/email/status"@)) == HttpRoute::Status,
        http_route(None, Some("/email/status"@)) == HttpRoute::Status,
        http_route(None, Some("/email/health"@)) == HttpRoute::Health,
        method matches Some(m) && m != "GET"@ ==> http_route(method, path) == HttpRoute::NotFound,
{
    reveal_strlit("/email/health");
    reveal_strlit("/email/status");
    assert("/email/status"@[7] != "/email/health"@[7]);
}

/// The content types and bodies of the fixed replies, and the text an
/// unknown admin method is answered with.
pub proof fn lemma_reply_texts(method: Seq<char>)
    ensures
        text_content_type() == "text/plain; charset=utf-8"@,
        json_content_type() == "application/json; charset=utf-8"@,
        health_body() == encode_utf8("email plugin ok\n"@),
        not_found_body() == encode_utf8("{\"error\":\"not found\"}"@),
        unknown_admin_message(method) == "unknown admin method: "@ + method,
{
}

} // verus!
