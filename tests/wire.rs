use weesels::wire::{from_bytes, peek_str, DeMessage, Error, Frame, Tag, WireValue};

fn text(s: &str) -> Option<String> {
    Some(String::from(s))
}

fn row(cols: Vec<(&str, WireValue)>) -> Vec<(String, WireValue)> {
    cols.into_iter().map(|(k, v)| (String::from(k), v)).collect()
}

#[test]
fn test_deserialize_version() {
    let encoded = b"\x00\x00\x00\rversion_checkinf\x00\x00\x00\x07version\x00\x00\x00\x032.9";
    assert_eq!(Some(String::from("version_check")), peek_str(encoded).unwrap());
    let expected = Frame {
        id: text("version_check"),
        values: vec![WireValue::Inf(text("version"), text("2.9"))],
    };
    assert_eq!(expected, from_bytes(encoded, 1).unwrap());
}

#[test]
fn test_deserialize_test() {
    let encoded = b"\x00\x00\x00\x08test_msgchrAint\x00\x01\xe2@int\xff\xfe\x1d\xc0\
        lon\n1234567890lon\x0b-1234567890str\x00\x00\x00\x08a stringstr\x00\x00\x00\
        \x00str\xff\xff\xff\xffbuf\x00\x00\x00\x06bufferbuf\xff\xff\xff\xffptr\x081\
        234abcdptr\x010tim\n1321993456arrstr\x00\x00\x00\x02\x00\x00\x00\x03abc\x00\
        \x00\x00\x02dearrint\x00\x00\x00\x03\x00\x00\x00{\x00\x00\x01\xc8\x00\x00\
        \x03\x15";
    let expected = Frame {
        id: text("test_msg"),
        values: vec![
            WireValue::Chr('A' as i8),
            WireValue::Int(123456),
            WireValue::Int(-123456),
            WireValue::Lon(String::from("1234567890")),
            WireValue::Lon(String::from("-1234567890")),
            WireValue::Str(text("a string")),
            WireValue::Str(text("")),
            WireValue::Str(None),
            WireValue::Buf(Some(b"buffer".to_vec())),
            WireValue::Buf(None),
            WireValue::Ptr(text("1234abcd")),
            WireValue::Ptr(None),
            WireValue::Tim(String::from("1321993456")),
            WireValue::Arr(vec![WireValue::Str(text("abc")), WireValue::Str(text("de"))]),
            WireValue::Arr(vec![WireValue::Int(123), WireValue::Int(456), WireValue::Int(789)]),
        ],
    };
    assert_eq!(expected, from_bytes(encoded, 15).unwrap());
}

#[test]
fn test_deserialize_handshake() {
    let encoded = b"\x00\x00\x00\thandshakehtbstrstr\x00\x00\x00\x05\x00\
        \x00\x00\x04totp\x00\x00\x00\x03off\x00\x00\x00\x12password_hash\
        _algo\x00\x00\x00\x05plain\x00\x00\x00\x05nonce\x00\x00\x00 6357\
        5E447831AC0055D72561270EBE54\x00\x00\x00\x18password_hash_iterat\
        ions\x00\x00\x00\x06100000\x00\x00\x00\x0bcompression\x00\x00\x00\
        \x03off";
    let res = weesels::messages::decode_handshake(encoded).unwrap();
    assert_eq!("handshake", res.id);
    assert_eq!("100000", res.htb.password_hash_iterations);
    assert_eq!("off", res.htb.totp);
    assert_eq!("63575E447831AC0055D72561270EBE54", res.htb.nonce);
    assert_eq!("off", res.htb.compression);
    assert_eq!("plain", res.htb.password_hash_algo);
}

const HDA: &[u8] = b"\0\0\0\x07buffershda\0\0\0\x04bufs\0\0\0\x18number:int\
    ,full_name:str\0\0\0\x02\x040123\0\0\0\x01\0\0\0\x0ccore.weechat\
    \x03567\0\0\0\x02\0\0\0\x06potato";

#[test]
fn test_deserialize_hda() {
    let expected = Frame {
        id: text("buffers"),
        values: vec![WireValue::Hda(vec![
            row(vec![
                ("ptr_bufs", WireValue::Ptr(text("0123"))),
                ("number", WireValue::Int(1)),
                ("full_name", WireValue::Str(text("core.weechat"))),
            ]),
            row(vec![
                ("ptr_bufs", WireValue::Ptr(text("567"))),
                ("number", WireValue::Int(2)),
                ("full_name", WireValue::Str(text("potato"))),
            ]),
        ])],
    };
    assert_eq!(expected, from_bytes(HDA, 1).unwrap());
}

#[test]
fn test_deserialize_hda_to_map() {
    let encoded = b"\0\0\0\x07buffershda\0\0\0\x04bufs\0\0\0\x18number:lon\
        ,full_name:str\0\0\0\x02\x040123\x011\0\0\0\x0ccore.weechat\
        \x03567\x012\0\0\0\x06potato";
    let expected = Frame {
        id: text("buffers"),
        values: vec![WireValue::Hda(vec![
            row(vec![
                ("ptr_bufs", WireValue::Ptr(text("0123"))),
                ("number", WireValue::Lon(String::from("1"))),
                ("full_name", WireValue::Str(text("core.weechat"))),
            ]),
            row(vec![
                ("ptr_bufs", WireValue::Ptr(text("567"))),
                ("number", WireValue::Lon(String::from("2"))),
                ("full_name", WireValue::Str(text("potato"))),
            ]),
        ])],
    };
    assert_eq!(expected, from_bytes(encoded, 1).unwrap());
}

#[test]
fn test_deserialize_empty_hda() {
    let encoded = b"\0\0\0\x07buffershda\xFF\xFF\xFF\xFF\xFF\xFF\xFF\xFF\
        \0\0\0\0";
    let expected = Frame { id: text("buffers"), values: vec![WireValue::Hda(vec![])] };
    assert_eq!(expected, from_bytes(encoded, 1).unwrap());
}

#[test]
fn test_deserialize_skipped() {
    let frame = from_bytes(HDA, 1).unwrap();
    let numbers: Vec<WireValue> = match &frame.values[0] {
        WireValue::Hda(rows) => rows
            .iter()
            .map(|r| match r.iter().find(|(k, _)| k == "number") {
                Some((_, WireValue::Int(n))) => WireValue::Int(*n),
                _ => panic!("missing number"),
            })
            .collect(),
        _ => panic!("not an hdata"),
    };
    assert_eq!(vec![WireValue::Int(1), WireValue::Int(2)], numbers);
}

#[test]
fn primitives_decode_to_documented_values() {
    let cases: Vec<(Tag, &[u8], WireValue)> = vec![
        (Tag::Str, b"\x00\x00\x00\x08a string", WireValue::Str(text("a string"))),
        (Tag::Str, b"\xff\xff\xff\xff", WireValue::Str(None)),
        (Tag::Ptr, b"\x081234abcd", WireValue::Ptr(text("1234abcd"))),
        (Tag::Ptr, b"\x010", WireValue::Ptr(None)),
        (Tag::Int, b"\x00\x01\xe2\x40", WireValue::Int(123456)),
        (Tag::Int, b"\xff\xfe\x1d\xc0", WireValue::Int(-123456)),
        (Tag::Chr, b"\xff", WireValue::Chr(-1)),
    ];
    for (tag, bytes, expected) in cases {
        let mut de = DeMessage::from_bytes(bytes);
        assert_eq!(expected, de.read_value(tag).unwrap());
        assert_eq!(0, de.remaining());
    }
}

#[test]
fn hdata_rows_carry_pointer_and_declared_columns() {
    let frame = from_bytes(HDA, 1).unwrap();
    match &frame.values[0] {
        WireValue::Hda(rows) => {
            assert_eq!(2, rows.len());
            for r in rows {
                let keys: Vec<&str> = r.iter().map(|(k, _)| k.as_str()).collect();
                assert_eq!(vec!["ptr_bufs", "number", "full_name"], keys);
            }
        }
        _ => panic!("not an hdata"),
    }
}

#[test]
fn empty_hdata_with_zero_length_headers() {
    let encoded = b"\0\0\0\x07buffershda\0\0\0\0\0\0\0\0\0\0\0\0";
    let expected = Frame { id: text("buffers"), values: vec![WireValue::Hda(vec![])] };
    assert_eq!(expected, from_bytes(encoded, 1).unwrap());
}

#[test]
fn multi_component_hpath_names_each_pointer() {
    let encoded = b"\0\0\0\x01xhda\0\0\0\x03a/b\0\0\0\x05n:chr\0\0\0\x01\x011\x012\x07";
    let frame = from_bytes(encoded, 1).unwrap();
    let expected = WireValue::Hda(vec![row(vec![
        ("ptr_a", WireValue::Ptr(text("1"))),
        ("ptr_b", WireValue::Ptr(text("2"))),
        ("n", WireValue::Chr(7)),
    ])]);
    assert_eq!(expected, frame.values[0]);
}

#[test]
fn trailing_bytes_are_refused() {
    let mut encoded = HDA.to_vec();
    encoded.push(0);
    assert_eq!(Err(Error::Trailing), from_bytes(&encoded, 1));
    let version = b"\x00\x00\x00\rversion_checkinf\x00\x00\x00\x07version\x00\x00\x00\x032.9xyz";
    assert_eq!(Err(Error::Trailing), from_bytes(version, 1));
}

#[test]
fn each_decode_error_has_an_input() {
    // a string shorter than its length
    assert_eq!(Err(Error::BadLength), from_bytes(b"\x00\x00\x00\x09abc", 0));
    // a length field cut short
    assert_eq!(Err(Error::UnexpectedEof), from_bytes(b"\x00\x00", 0));
    // an int cut short
    assert_eq!(Err(Error::UnexpectedEof), from_bytes(b"\x00\x00\x00\x01xint\x00\x01", 1));
    // an unknown tag
    assert_eq!(Err(Error::BadTag), from_bytes(b"\x00\x00\x00\x01xzzz\x00", 1));
    // malformed UTF-8
    assert_eq!(Err(Error::BadUtf8), from_bytes(b"\x00\x00\x00\x02\xff\xfe", 0));
    // infolists are not read
    assert_eq!(Err(Error::NotImplemented), from_bytes(b"\x00\x00\x00\x01xinl", 1));
    // a schema entry without a type
    assert_eq!(
        Err(Error::BadTag),
        from_bytes(b"\x00\x00\x00\x01xhda\xff\xff\xff\xff\x00\x00\x00\x03abc\x00\x00\x00\x00", 1)
    );
}

#[test]
fn peek_reads_only_the_id() {
    assert_eq!(Some(String::from("buffers")), peek_str(HDA).unwrap());
    assert_eq!(None, peek_str(b"\xff\xff\xff\xffjunk").unwrap());
    assert_eq!(Err(Error::UnexpectedEof), peek_str(b"\x00"));
}

#[test]
fn reader_methods_advance_through_input() {
    let bytes = b"str\x00\x00\x00\x02hi\x03abcbuf\xff\xff\xff\xff";
    let mut de = DeMessage::from_bytes(bytes);
    assert_eq!(Tag::Str, de.read_typ().unwrap());
    assert_eq!(Some(String::from("hi")), de.read_str().unwrap());
    assert_eq!(Some(String::from("abc")), de.read_ptr().unwrap());
    assert_eq!(Tag::Buf, de.read_typ().unwrap());
    assert_eq!(None, de.read_buf().unwrap());
    assert_eq!(0, de.remaining());
}
