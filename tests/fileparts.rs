use wasmhaiku::fileparts::{FilePart, FileParts};

fn part(name: &str, mime: &str, bytes: &[u8]) -> FilePart {
    FilePart { file_name: String::from(name), mime_str: String::from(mime), bytes: bytes.to_vec() }
}

#[test]
fn from_into() {
    let fp = FileParts {
        inner: vec![
            FilePart {
                file_name: String::from("a.txt"),
                mime_str: String::from("text/plain"),
                bytes: b"123".to_vec(),
            },
            FilePart {
                file_name: String::from("g.jpg"),
                mime_str: String::from("image/jpeg"),
                bytes: b"!@#$%^&*()".to_vec(),
            },
        ],
    };

    let v = fp.to_vec();
    println!("{:?}", v);

    let fp2: FileParts = v.into();
    println!("{:?}", fp2);

    assert_eq!(fp.inner[0].file_name, fp2.inner[0].file_name);
    assert_eq!(fp.inner[1].bytes, fp2.inner[1].bytes);
}

#[test]
fn encoding_of_one_part_is_bit_exact() {
    let fp = FileParts { inner: vec![part("a", "t/p", b"hi")] };
    let expected: Vec<u8> = vec![
        0x01, 0x00, 0x00, 0x00, 0x01, 0x00, 0x00, 0x00, 0x03, 0x00, 0x00, 0x00, 0x02, 0x00, 0x00,
        0x00, 0x61, 0x74, 0x2F, 0x70, 0x68, 0x69,
    ];
    assert_eq!(fp.to_vec(), expected);
}

#[test]
fn empty_parts_encode_to_four_bytes_and_decode_to_none() {
    let fp = FileParts { inner: vec![] };
    let v = fp.to_vec();
    assert_eq!(v, vec![0, 0, 0, 0]);
    assert_eq!(FileParts::decode(&v).inner.len(), 0);
}

#[test]
fn round_trip_keeps_every_field() {
    let fp = FileParts {
        inner: vec![part("", "", b""), part("x.txt", "text/plain", b"hello"), part("é", "a/b", &[0, 255])],
    };
    let back = FileParts::decode(&fp.to_vec());
    assert_eq!(back.inner.len(), 3);
    for i in 0..3 {
        assert_eq!(back.inner[i].file_name, fp.inner[i].file_name);
        assert_eq!(back.inner[i].mime_str, fp.inner[i].mime_str);
        assert_eq!(back.inner[i].bytes, fp.inner[i].bytes);
    }
}

#[test]
fn encoding_is_deterministic() {
    let a = FileParts { inner: vec![part("n", "m/x", b"123")] };
    let b = FileParts { inner: vec![part("n", "m/x", b"123")] };
    assert_eq!(a.to_vec(), b.to_vec());
}

#[test]
fn short_input_decodes_to_nothing() {
    for len in 0..16usize {
        let raw = vec![1u8; len];
        assert_eq!(FileParts::decode(&raw).inner.len(), 0);
    }
}

#[test]
fn malformed_input_decodes_to_nothing() {
    // one entry whose file name claims more bytes than there are
    let mut raw = vec![1, 0, 0, 0, 100, 0, 0, 0, 0, 0, 0, 0, 0, 0, 0, 0];
    raw.extend_from_slice(b"abc");
    assert_eq!(FileParts::decode(&raw).inner.len(), 0);
    // a negative count
    let raw = vec![0xff, 0xff, 0xff, 0xff, 0, 0, 0, 0, 0, 0, 0, 0, 0, 0, 0, 0];
    assert_eq!(FileParts::decode(&raw).inner.len(), 0);
    // a negative length
    let raw = vec![1, 0, 0, 0, 0, 0, 0, 0, 0, 0, 0, 0x80, 0, 0, 0, 0];
    assert_eq!(FileParts::decode(&raw).inner.len(), 0);
}

#[test]
fn invalid_utf8_name_decodes_to_empty_text() {
    let raw = vec![1, 0, 0, 0, 1, 0, 0, 0, 1, 0, 0, 0, 1, 0, 0, 0, 0xff, 0x61, 0x7a];
    let fp = FileParts::decode(&raw);
    assert_eq!(fp.inner.len(), 1);
    assert_eq!(fp.inner[0].file_name, "");
    assert_eq!(fp.inner[0].mime_str, "a");
    assert_eq!(fp.inner[0].bytes, b"z".to_vec());
}

#[test]
fn fits_checks_the_length_fields() {
    let fp = FileParts { inner: vec![part("a", "b", b"c")] };
    assert!(fp.fits());
}
