use wasmhaiku::multipart::{field_kind, FieldKind, MultipartBody, TextFields};
use wasmhaiku::respond::{dispatch, settle_resp, GuestReply, INVALID_HEADERS, INVALID_STATUS};
use wasmhaiku::route::{Config, ContentType, Method, Route};

fn route(func: &str, path: &str, method: Method) -> Route {
    Route {
        func_name: func.to_string(),
        path: path.to_string(),
        method,
        content_type: None,
        async_func_name: None,
    }
}

#[test]
fn echo_handler_response() {
    let reply = GuestReply { status: 200, headers: "{\"x\":\"1\"}".to_string(), body: b"hello".to_vec() };
    let d = dispatch(&None, Ok(reply));
    assert!(d.twin.is_none());
    let r = d.response.ok().unwrap();
    assert_eq!(r.status, 200);
    assert_eq!(r.headers, vec![("x".to_string(), "1".to_string())]);
    assert_eq!(r.body, b"hello".to_vec());
}

#[test]
fn async_twin_is_started_on_status_100() {
    let reply = GuestReply { status: 100, headers: "{}".to_string(), body: b"queued".to_vec() };
    let d = dispatch(&Some("echo_async".to_string()), Ok(reply));
    assert_eq!(d.twin, Some("echo_async".to_string()));
    let r = d.response.ok().unwrap();
    assert_eq!(r.status, 200);
    assert!(r.headers.is_empty());
    assert_eq!(r.body, b"queued".to_vec());
}

#[test]
fn no_twin_without_async_name_or_other_status() {
    let reply = GuestReply { status: 100, headers: "".to_string(), body: vec![] };
    let d = dispatch(&None, Ok(reply));
    assert!(d.twin.is_none());
    assert_eq!(d.response.ok().unwrap().status, 100);
    let reply = GuestReply { status: 201, headers: "".to_string(), body: b"ok".to_vec() };
    let d = dispatch(&Some("later".to_string()), Ok(reply));
    assert!(d.twin.is_none());
    let r = d.response.ok().unwrap();
    assert_eq!(r.status, 201);
    assert_eq!(r.body, b"ok".to_vec());
}

#[test]
fn guest_failure_is_internal_error() {
    let d = dispatch(&Some("t".to_string()), Err("Invalid return values".to_string()));
    assert!(d.twin.is_none());
    let e = d.response.err().unwrap();
    assert_eq!(e.status, 500);
    assert_eq!(e.message, "Invalid return values");
}

#[test]
fn bad_headers_from_guest() {
    let e = settle_resp(200, &"not json".to_string(), vec![]).err().unwrap();
    assert_eq!(e.status, 500);
    assert!(e.message.contains("Invalid response headers"));
    assert_eq!(e.message, INVALID_HEADERS);
    let e = settle_resp(200, &"{\"a\":1}".to_string(), vec![]).err().unwrap();
    assert_eq!(e.message, INVALID_HEADERS);
}

#[test]
fn invalid_header_entries_are_dropped() {
    let r = settle_resp(202, &"{\"ok\":\"v\",\"bad name\":\"v\",\"ctl\":\"a\u{7f}\"}".to_string(), vec![])
        .ok()
        .unwrap();
    assert_eq!(r.status, 202);
    assert_eq!(r.headers, vec![("ok".to_string(), "v".to_string())]);
}

#[test]
fn status_outside_http_range_is_refused() {
    let e = settle_resp(42, &"".to_string(), vec![]).err().unwrap();
    assert_eq!(e.status, 500);
    assert_eq!(e.message, INVALID_STATUS);
    assert!(settle_resp(999, &"".to_string(), vec![]).is_ok());
    assert!(settle_resp(1000, &"".to_string(), vec![]).is_err());
}

#[test]
fn first_matching_route_wins() {
    let config = Config {
        route: vec![
            route("a", "/x", Method::Post),
            route("b", "/e", Method::Get),
            route("c", "/e", Method::Get),
        ],
    };
    assert_eq!(config.find_route(&"/e".to_string(), Method::Get), Some(1));
    assert_eq!(config.find_route(&"/x".to_string(), Method::Post), Some(0));
    assert_eq!(config.find_route(&"/x".to_string(), Method::Get), None);
    assert_eq!(config.find_route(&"/nope".to_string(), Method::Get), None);
}

#[test]
fn method_bits_and_content_type() {
    assert_eq!(Method::Delete.bits(), 2);
    assert_eq!(Method::Get.bits(), 4);
    assert_eq!(Method::Trace.bits(), 256);
    let mut r = route("f", "/m", Method::Post);
    assert!(!r.is_multipart());
    r.content_type = Some(ContentType::Multipart);
    assert!(r.is_multipart());
    r.content_type = Some(ContentType::Json);
    assert!(!r.is_multipart());
}

#[test]
fn multipart_upload_marshals_body_and_fileparts() {
    let mut m = MultipartBody::new();
    m.add_text("a".to_string(), "1".to_string());
    m.add_text("b".to_string(), "2".to_string());
    m.add_file("x.txt".to_string(), "text/plain".to_string(), b"hi".to_vec());
    let (body, fileparts) = m.finish().unwrap();
    assert_eq!(body, br#"{"a":"1","b":"2"}"#.to_vec());
    let mut expected: Vec<u8> = vec![1, 0, 0, 0, 5, 0, 0, 0, 10, 0, 0, 0, 2, 0, 0, 0];
    expected.extend_from_slice(b"x.txttext/plainhi");
    assert_eq!(fileparts, expected);
    let d = dispatch(&None, Ok(GuestReply { status: 201, headers: "{}".to_string(), body: b"ok".to_vec() }));
    let r = d.response.ok().unwrap();
    assert_eq!(r.status, 201);
    assert_eq!(r.body, b"ok".to_vec());
}

#[test]
fn later_text_value_replaces_earlier() {
    let mut f = TextFields::new();
    f.insert("k".to_string(), "1".to_string());
    f.insert("j".to_string(), "2".to_string());
    f.insert("k".to_string(), "3".to_string());
    assert_eq!(f.entries, vec![("k".to_string(), "3".to_string()), ("j".to_string(), "2".to_string())]);
    assert_eq!(f.to_json(), r#"{"j":"2","k":"3"}"#);
}

#[test]
fn field_kinds() {
    let s = |x: &str| Some(x.to_string());
    assert_eq!(field_kind(&None, &s("f"), &s("t/p")), FieldKind::Nameless);
    assert_eq!(field_kind(&s("n"), &s("f"), &s("t/p")), FieldKind::File);
    assert_eq!(field_kind(&s("n"), &s("f"), &None), FieldKind::Text);
    assert_eq!(field_kind(&s("n"), &None, &None), FieldKind::Text);
}
