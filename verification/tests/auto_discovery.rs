use base64::Engine;
use nexo_plugin_email::auto_discovery::{
    admin_verb, http_response, respond, route_http_request, AdminVerb, HttpRoute,
};

fn decode(s: &str) -> String {
    String::from_utf8(base64::engine::general_purpose::STANDARD.decode(s).unwrap()).unwrap()
}

#[test]
fn http_get_health_serves_200() {
    let route = route_http_request(Some("GET"), Some("/email/health"));
    assert_eq!(route, HttpRoute::Health);
    let r = http_response(route, b"");
    assert_eq!(r.status, 200);
    assert_eq!(r.content_type, "text/plain; charset=utf-8");
    assert_eq!(decode(&r.body_base64), "email plugin ok\n");
}

#[test]
fn http_status_wraps_the_given_body() {
    let route = route_http_request(Some("GET"), Some("/email/status"));
    assert_eq!(route, HttpRoute::Status);
    let body = br#"{"plugin":"email","status":"ok"}"#;
    let r = http_response(route, body);
    assert_eq!(r.status, 200);
    assert_eq!(r.content_type, "application/json; charset=utf-8");
    assert_eq!(r.body_base64, "eyJwbHVnaW4iOiJlbWFpbCIsInN0YXR1cyI6Im9rIn0=");
}

#[test]
fn http_unknown_returns_404() {
    let route = route_http_request(Some("GET"), Some("/email/missing"));
    assert_eq!(route, HttpRoute::NotFound);
    let r = http_response(route, b"");
    assert_eq!(r.status, 404);
    assert_eq!(decode(&r.body_base64), r#"{"error":"not found"}"#);
    assert_eq!(route_http_request(Some("POST"), Some("/email/health")), HttpRoute::NotFound);
}

#[test]
fn http_missing_fields_default_to_get_root() {
    assert_eq!(route_http_request(None, Some("/email/health")), HttpRoute::Health);
    assert_eq!(route_http_request(Some("GET"), None), HttpRoute::NotFound);
}

#[test]
fn respond_encodes_body_base64() {
    let r = respond(201, "text/plain", b"hello world~");
    assert_eq!(r.status, 201);
    assert_eq!(r.content_type, "text/plain");
    assert_eq!(r.body_base64, "aGVsbG8gd29ybGR+");
    assert_eq!(respond(200, "x", b"").body_base64, "");
    assert_eq!(respond(200, "x", b"ab").body_base64, "YWI=");
}

#[test]
fn admin_verbs_are_recognised() {
    assert!(matches!(admin_verb(Some("nexo/admin/email/bot_info")), AdminVerb::BotInfo));
    assert!(matches!(admin_verb(Some("nexo/admin/email/list_instances")), AdminVerb::ListInstances));
    assert!(matches!(admin_verb(Some("nexo/admin/email/list_tenants")), AdminVerb::ListTenants));
}

#[test]
fn admin_unknown_method_reports_error() {
    match admin_verb(Some("nexo/admin/email/nonexistent")) {
        AdminVerb::Unknown(e) => assert_eq!(e, "unknown admin method: nexo/admin/email/nonexistent"),
        other => panic!("expected unknown, got {other:?}"),
    }
    match admin_verb(None) {
        AdminVerb::Unknown(e) => assert_eq!(e, "unknown admin method: "),
        other => panic!("expected unknown, got {other:?}"),
    }
}

#[test]
fn respond_encodes_one_byte_tail_and_full_alphabet() {
    assert_eq!(respond(200, "x", b"M").body_base64, "TQ==");
    assert_eq!(respond(200, "x", b"Man").body_base64, "TWFu");
    assert_eq!(respond(200, "x", &[0xfb, 0xff, 0xbf]).body_base64, "+/+/");
    assert_eq!(respond(200, "x", &[0x00, 0x10, 0x83]).body_base64, "ABCD");
}
