use wasmhaiku::hostcall::{decode_call, plan_call, plan_form, Region};
use wasmhaiku::fileparts::{FilePart, FileParts};
use wasmhaiku::wire::{
    MAX_LEN, parse_fileparts_params, parse_params, parse_reply_trailer, reply_trailer, GuestBuffer,
    RequestMethod, FAIL, TERMINATE,
};

#[test]
fn method_bytes_map_to_methods() {
    assert_eq!(RequestMethod::from_byte(0), RequestMethod::GET);
    assert_eq!(RequestMethod::from_byte(1), RequestMethod::POST);
    assert_eq!(RequestMethod::from_byte(2), RequestMethod::PUT);
    assert_eq!(RequestMethod::from_byte(3), RequestMethod::DELETE);
    assert_eq!(RequestMethod::from_byte(4), RequestMethod::UNKNOWN);
    assert_eq!(RequestMethod::from_byte(200), RequestMethod::UNKNOWN);
    let m: RequestMethod = 1u8.into();
    assert_eq!(m.as_str(), "POST");
    assert_eq!(RequestMethod::DELETE.to_string(), "DELETE");
    assert_eq!(RequestMethod::PUT.to_byte(), 2);
}

#[test]
fn error_codes() {
    assert_eq!(TERMINATE, 1);
    assert_eq!(FAIL, 2);
}

#[test]
fn reply_trailer_layout() {
    let body = b"hello".to_vec();
    let t = reply_trailer(0x1234, &body, 200);
    assert_eq!(t, vec![0x34, 0x12, 0, 0, 5, 0, 0, 0, 200, 0, 0, 0]);
    assert_eq!(parse_reply_trailer(&t), Some((0x1234, 5, 200)));
}

#[test]
fn reply_trailer_round_trips_negative_pointer() {
    let t = reply_trailer(-8, &vec![], 404);
    assert_eq!(parse_reply_trailer(&t), Some((-8, 0, 404)));
    assert_eq!(parse_reply_trailer(&vec![0; 11]), None);
}

#[test]
fn long_buffers_pass_their_32_bit_length() {
    let big = GuestBuffer { ptr: 8, len: 1 << 31 };
    let p = parse_params(big, RequestMethod::GET, big, big);
    assert_eq!(p, Ok((8, i32::MIN, 0, 8, i32::MIN, 8, i32::MIN)));
    assert_eq!(MAX_LEN as u64, u32::MAX as u64);
}

#[test]
fn params_leave_out_empty_body() {
    let url = GuestBuffer { ptr: 100, len: 20 };
    let headers = GuestBuffer { ptr: 200, len: 2 };
    let p = parse_params(url, RequestMethod::POST, headers, GuestBuffer { ptr: 300, len: 0 });
    assert_eq!(p, Ok((100, 20, 1, 200, 2, 0, 0)));
    let p = parse_params(url, RequestMethod::GET, headers, GuestBuffer { ptr: 300, len: 7 });
    assert_eq!(p, Ok((100, 20, 0, 200, 2, 300, 7)));
}

#[test]
fn fileparts_params_append_fileparts() {
    let b = |ptr: i32, len: usize| GuestBuffer { ptr, len };
    let p = parse_fileparts_params(b(1, 2), RequestMethod::PUT, b(3, 4), b(5, 6), b(7, 0));
    assert_eq!(p, Ok((1, 2, 2, 3, 4, 5, 6, 0, 0)));
    let p = parse_fileparts_params(b(1, 2), RequestMethod::PUT, b(3, 4), b(5, 0), b(7, 8));
    assert_eq!(p, Ok((1, 2, 2, 3, 4, 0, 0, 7, 8)));
    let p = parse_fileparts_params(b(1, 2), RequestMethod::PUT, b(3, 4), b(5, 0), b(7, 1 << 31));
    assert_eq!(p, Ok((1, 2, 2, 3, 4, 0, 0, 7, i32::MIN)));
    let p = parse_fileparts_params(b(1, 2), RequestMethod::PUT, b(3, 4), b(5, 0), b(7, 0xffff_ffff));
    assert_eq!(p, Ok((1, 2, 2, 3, 4, 0, 0, 7, -1)));
    if usize::BITS > 32 {
        let p = parse_fileparts_params(b(1, 2), RequestMethod::PUT, b(3, 4), b(5, 0), b(7, 0xffff_ffff + 1));
        assert!(p.is_err());
    }
}

#[test]
fn plan_reads_the_seven_arguments() {
    let plan = plan_call(&vec![16, 5, 0, 0, 0, 0, 0], false).unwrap();
    assert_eq!(plan.url, Region { offset: 16, len: 5 });
    assert_eq!(plan.method, RequestMethod::GET);
    assert_eq!(plan.headers, None);
    assert_eq!(plan.body, None);
    assert_eq!(plan.fileparts, None);
    let plan = plan_call(&vec![16, 5, 1, 40, 2, 60, 3, 80, 4], true).unwrap();
    assert_eq!(plan.headers, Some(Region { offset: 40, len: 2 }));
    assert_eq!(plan.body, Some(Region { offset: 60, len: 3 }));
    assert_eq!(plan.fileparts, Some(Region { offset: 80, len: 4 }));
}

#[test]
fn plan_refuses_unknown_method_and_wrong_arity() {
    assert_eq!(plan_call(&vec![16, 5, 4, 0, 0, 0, 0], false).err(), Some(TERMINATE));
    assert_eq!(plan_call(&vec![16, 5, 0, 0, 0, 0], false).err(), Some(TERMINATE));
    assert_eq!(plan_call(&vec![16, 5, 0, 0, 0, 0, 0], true).err(), Some(TERMINATE));
}

#[test]
fn guest_initiated_request_decodes() {
    let plan = plan_call(&vec![16, 24, 0, 0, 0, 0, 0], false).unwrap();
    let url = b"http://127.0.0.1:9000/e".to_vec();
    let q = decode_call(&plan, Some(url), None, None, None).ok().unwrap();
    assert_eq!(q.url, "http://127.0.0.1:9000/e");
    assert_eq!(q.method, RequestMethod::GET);
    assert!(q.headers.is_empty());
    assert!(q.body.is_empty());
    // the host then answers with the trailer of the echo response
    let t = reply_trailer(512, &b"hello".to_vec(), 200);
    assert_eq!(parse_reply_trailer(&t), Some((512, 5, 200)));
}

#[test]
fn guest_headers_are_lenient() {
    let plan = plan_call(&vec![16, 1, 1, 40, 2, 60, 3], false).unwrap();
    let headers = br#"{"a":"1","b":2,"bad name":"x","c":"ok"}"#.to_vec();
    let q = decode_call(&plan, Some(b"u".to_vec()), Some(headers), Some(b"abc".to_vec()), None)
        .ok()
        .unwrap();
    assert_eq!(
        q.headers,
        vec![
            ("a".to_string(), "1".to_string()),
            ("b".to_string(), "".to_string()),
            ("c".to_string(), "ok".to_string())
        ]
    );
    assert_eq!(q.body, b"abc".to_vec());
    assert_eq!(q.method, RequestMethod::POST);
}

#[test]
fn undecodable_calls_terminate() {
    let plan = plan_call(&vec![16, 1, 1, 40, 2, 60, 3], false).unwrap();
    let ok_url = || Some(b"u".to_vec());
    // failed reads
    assert_eq!(decode_call(&plan, None, Some(b"{}".to_vec()), Some(vec![]), None).err(), Some(TERMINATE));
    assert_eq!(decode_call(&plan, ok_url(), None, Some(vec![]), None).err(), Some(TERMINATE));
    assert_eq!(decode_call(&plan, ok_url(), Some(b"{}".to_vec()), None, None).err(), Some(TERMINATE));
    // bad UTF-8, bad JSON, not an object
    assert_eq!(decode_call(&plan, Some(vec![0xff]), Some(b"{}".to_vec()), Some(vec![]), None).err(), Some(TERMINATE));
    assert_eq!(decode_call(&plan, ok_url(), Some(b"{".to_vec()), Some(vec![]), None).err(), Some(TERMINATE));
    assert_eq!(decode_call(&plan, ok_url(), Some(b"[1]".to_vec()), Some(vec![]), None).err(), Some(TERMINATE));
    assert_eq!(decode_call(&plan, ok_url(), Some(vec![0xff]), Some(vec![]), None).err(), Some(TERMINATE));
}

#[test]
fn form_keeps_string_fields_and_typed_parts() {
    let body = br#"{"a":"1","n":3,"b":"2"}"#.to_vec();
    let files = FileParts {
        inner: vec![
            FilePart { file_name: "x.txt".to_string(), mime_str: "text/plain".to_string(), bytes: b"hi".to_vec() },
            FilePart { file_name: "y".to_string(), mime_str: "not a mime".to_string(), bytes: b"no".to_vec() },
        ],
    }
    .to_vec();
    let form = plan_form(&body, &files);
    assert_eq!(form.texts, vec![("a".to_string(), "1".to_string()), ("b".to_string(), "2".to_string())]);
    assert_eq!(form.files.len(), 1);
    assert_eq!(form.files[0].file_name, "x.txt");
    assert_eq!(form.files[0].bytes, b"hi".to_vec());
    let form = plan_form(&b"not json".to_vec(), &vec![]);
    assert!(form.texts.is_empty());
    assert!(form.files.is_empty());
}
