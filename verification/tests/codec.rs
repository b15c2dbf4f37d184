use bytes::BytesMut;
use simple_redis::resp::{
    extract_fixed_data, extract_simple_frame_data, find_crlf, parse_length,
};
use simple_redis::text::{parse_i64, parse_usize, push_decimal, push_signed_decimal};
use simple_redis::{
    BulkString, RespArray, RespDecode, RespDouble, RespEncode, RespError, RespFrame, RespMap,
    RespNull, RespSet, SimpleError, SimpleString,
};

fn decode(bytes: &[u8]) -> (Result<RespFrame, RespError>, Vec<u8>) {
    let mut buf = BytesMut::new();
    buf.extend_from_slice(bytes);
    let r = RespFrame::decode(&mut buf);
    (r, buf.to_vec())
}

fn double(text: &str) -> RespFrame {
    RespFrame::Double(RespDouble::from_text(text.as_bytes().to_vec()).unwrap())
}

fn sample_frames() -> Vec<RespFrame> {
    let mut map = RespMap::new();
    map.insert("b".to_string(), RespFrame::Integer(2));
    map.insert("a".to_string(), RespFrame::BulkString(b"x\r\ny".into()));
    map.insert(
        "c".to_string(),
        RespFrame::Array(RespArray::new(vec![RespFrame::Null(RespNull)])),
    );
    vec![
        RespFrame::SimpleString(SimpleString::new("OK")),
        RespFrame::SimpleString(SimpleString::new("")),
        RespFrame::Error(SimpleError::new("ERR wrong")),
        RespFrame::Integer(0),
        RespFrame::Integer(-1),
        RespFrame::Integer(i64::MAX),
        RespFrame::Integer(i64::MIN),
        RespFrame::BulkString(BulkString::new(b"hello".to_vec())),
        RespFrame::BulkString(BulkString::new(Vec::new())),
        RespFrame::BulkString(BulkString::new(b"a\r\nb".to_vec())),
        RespFrame::BulkString(BulkString::null()),
        RespFrame::Array(RespArray::null()),
        RespFrame::Array(RespArray::new(Vec::new())),
        RespFrame::Array(RespArray::new(vec![
            RespFrame::Integer(1),
            RespFrame::Array(RespArray::new(vec![
                RespFrame::Boolean(false),
                RespFrame::Array(RespArray::null()),
                RespFrame::BulkString(BulkString::null()),
            ])),
            RespFrame::BulkString(b"tail".into()),
        ])),
        RespFrame::Null(RespNull),
        RespFrame::Boolean(true),
        RespFrame::Boolean(false),
        double("+3.14"),
        double("-1.5e-9"),
        double("inf"),
        RespFrame::RespMap(map),
        RespFrame::RespMap(RespMap::new()),
        RespFrame::RespSet(RespSet::new(vec![
            RespFrame::Integer(3),
            RespFrame::Integer(3),
            RespFrame::SimpleString(SimpleString::new("x")),
        ])),
    ]
}

#[test]
fn every_frame_is_read_back() {
    for frame in sample_frames() {
        let bytes = frame.clone().encode();
        let (decoded, left) = decode(&bytes);
        assert_eq!(decoded, Ok(frame.clone()));
        assert!(left.is_empty());

        let mut with_more = bytes.clone();
        with_more.extend_from_slice(b"+next\r\n");
        let (decoded, left) = decode(&with_more);
        assert_eq!(decoded, Ok(frame));
        assert_eq!(left, b"+next\r\n");
    }
}

#[test]
fn every_cut_of_a_frame_is_not_complete() {
    for frame in sample_frames() {
        let bytes = frame.clone().encode();
        for cut in 0..bytes.len() {
            let (decoded, left) = decode(&bytes[..cut]);
            assert_eq!(decoded, Err(RespError::NotComplete));
            assert_eq!(left, &bytes[..cut]);
            assert!(match RespFrame::expect_length(&bytes[..cut]) {
                Err(RespError::NotComplete) => true,
                Ok(n) => n > cut,
                Err(_) => false,
            });
        }
        assert_eq!(RespFrame::expect_length(&bytes), Ok(bytes.len()));
    }
}

#[test]
fn frames_fed_in_two_parts_come_out_in_order() {
    let frames = sample_frames();
    let mut stream = Vec::new();
    for frame in &frames {
        stream.extend_from_slice(&frame.clone().encode());
    }
    for cut in 0..=stream.len() {
        let mut buf = BytesMut::new();
        let mut seen = Vec::new();
        buf.extend_from_slice(&stream[..cut]);
        loop {
            match RespFrame::decode(&mut buf) {
                Ok(frame) => seen.push(frame),
                Err(e) => {
                    assert_eq!(e, RespError::NotComplete);
                    break;
                }
            }
        }
        buf.extend_from_slice(&stream[cut..]);
        loop {
            match RespFrame::decode(&mut buf) {
                Ok(frame) => seen.push(frame),
                Err(e) => {
                    assert_eq!(e, RespError::NotComplete);
                    break;
                }
            }
        }
        assert!(buf.is_empty());
        assert_eq!(seen, frames);
    }
}

#[test]
fn integer_sign_rule() {
    assert_eq!(RespFrame::Integer(0).encode(), b":+0\r\n");
    assert_eq!(RespFrame::Integer(-1).encode(), b":-1\r\n");
    assert_eq!(0i64.encode(), b":+0\r\n");
    assert_eq!(
        RespFrame::Integer(i64::MIN).encode(),
        b":-9223372036854775808\r\n"
    );
    assert_eq!(
        RespFrame::Integer(i64::MAX).encode(),
        b":+9223372036854775807\r\n"
    );
}

#[test]
fn integers_as_rust_reads_them() {
    assert_eq!(decode(b":123\r\n").0, Ok(RespFrame::Integer(123)));
    assert_eq!(decode(b":-0\r\n").0, Ok(RespFrame::Integer(0)));
    assert_eq!(decode(b":+007\r\n").0, Ok(RespFrame::Integer(7)));
    assert_eq!(
        decode(b":-9223372036854775808\r\n").0,
        Ok(RespFrame::Integer(i64::MIN))
    );
    for bad in [
        &b":\r\n"[..],
        b":+\r\n",
        b":-\r\n",
        b":+-1\r\n",
        b":1a\r\n",
        b": 1\r\n",
        b":9223372036854775808\r\n",
        b":-9223372036854775809\r\n",
    ] {
        assert_eq!(decode(bad).0, Err(RespError::ParseIntError));
    }
}

#[test]
fn null_variants_are_told_apart() {
    assert_eq!(
        decode(b"$-1\r\n").0,
        Ok(RespFrame::BulkString(BulkString::null()))
    );
    assert_eq!(decode(b"*-1\r\n").0, Ok(RespFrame::Array(RespArray::null())));
    assert_eq!(decode(b"_\r\n").0, Ok(RespFrame::Null(RespNull)));
    assert_ne!(decode(b"$-1\r\n").0, Ok(RespFrame::Null(RespNull)));
    assert_ne!(decode(b"*-1\r\n").0, Ok(RespFrame::Null(RespNull)));
    assert_eq!(BulkString::expect_length(b"$-1\r\n"), Ok(5));
    assert_eq!(RespArray::expect_length(b"*-1\r\n"), Ok(5));
    assert_eq!(RespFrame::expect_length(b"*1\r\n$-1\r\n"), Ok(9));
    assert_eq!(RespFrame::expect_length(b"*1\r\n*-1\r\n"), Ok(9));
}

#[test]
fn map_encoding_does_not_depend_on_insertion_order() {
    let entries = [
        ("delta", RespFrame::Integer(4)),
        ("alpha", RespFrame::Integer(1)),
        ("charlie", RespFrame::Integer(3)),
        ("bravo", RespFrame::Integer(2)),
    ];
    let mut forward = RespMap::new();
    for (k, v) in entries.iter() {
        forward.insert(k.to_string(), v.clone());
    }
    let mut backward = RespMap::new();
    for (k, v) in entries.iter().rev() {
        backward.insert(k.to_string(), v.clone());
    }
    assert_eq!(forward, backward);
    assert_eq!(forward.len(), 4);
    let expected: &[u8] =
        b"%4\r\n+alpha\r\n:+1\r\n+bravo\r\n:+2\r\n+charlie\r\n:+3\r\n+delta\r\n:+4\r\n";
    assert_eq!(forward.encode(), expected);
    assert_eq!(backward.encode(), expected);
}

#[test]
fn map_insert_replaces_and_orders_by_bytes() {
    let mut map = RespMap::new();
    map.insert("b".to_string(), RespFrame::Integer(1));
    map.insert("B".to_string(), RespFrame::Integer(2));
    map.insert("ab".to_string(), RespFrame::Integer(3));
    map.insert("a".to_string(), RespFrame::Integer(4));
    map.insert("b".to_string(), RespFrame::Integer(5));
    assert_eq!(map.len(), 4);
    assert_eq!(map.get("b"), Some(&RespFrame::Integer(5)));
    assert_eq!(map.get("zzz"), None);
    assert_eq!(
        map.encode(),
        b"%4\r\n+B\r\n:+2\r\n+a\r\n:+4\r\n+ab\r\n:+3\r\n+b\r\n:+5\r\n"
    );
}

#[test]
fn map_decode_keeps_the_last_value_of_a_key() {
    let (frame, _) = decode(b"%2\r\n+k\r\n:+1\r\n+k\r\n:+2\r\n");
    let mut map = RespMap::new();
    map.insert("k".to_string(), RespFrame::Integer(2));
    assert_eq!(frame, Ok(RespFrame::RespMap(map)));
}

#[test]
fn map_key_has_to_be_a_simple_string() {
    let (frame, _) = decode(b"%1\r\n$1\r\nk\r\n:+1\r\n");
    assert_eq!(
        frame,
        Err(RespError::InvalidFrame(format!(
            "expect: SimpleString(+), got: {:?}",
            b"$1\r\nk\r\n:+1\r\n".to_vec()
        )))
    );
}

#[test]
fn set_keeps_insertion_order() {
    let frame = RespFrame::RespSet(RespSet::new(vec![
        RespFrame::Integer(2),
        RespFrame::Integer(1),
    ]));
    assert_eq!(frame.encode(), b"~2\r\n:+2\r\n:+1\r\n");
}

#[test]
fn booleans() {
    assert_eq!(RespFrame::Boolean(true).encode(), b"#t\r\n");
    assert_eq!(false.encode(), b"#f\r\n");
    assert_eq!(decode(b"#t\r\n").0, Ok(RespFrame::Boolean(true)));
    assert_eq!(decode(b"#f\r\n").0, Ok(RespFrame::Boolean(false)));
    assert_eq!(decode(b"#t\r").0, Err(RespError::NotComplete));
    assert_eq!(
        decode(b"#x\r\n").0,
        Err(RespError::InvalidFrameType(format!(
            "expect: Bool, got: {:?}",
            BytesMut::from(&b"#x\r\n"[..])
        )))
    );
    let mut buf = BytesMut::from(&b"#f\r\n#t\r\n"[..]);
    assert_eq!(bool::decode(&mut buf), Ok(false));
    assert_eq!(bool::decode(&mut buf), Ok(true));
    assert_eq!(bool::expect_length(b""), Ok(4));
}

#[test]
fn null_frame_is_exactly_three_bytes() {
    assert_eq!(decode(b"_\r").0, Err(RespError::NotComplete));
    assert_eq!(
        decode(b"_x\r\n").0,
        Err(RespError::InvalidFrameType(format!(
            "expect: Null, got: {:?}",
            BytesMut::from(&b"_x\r\n"[..])
        )))
    );
    assert_eq!(RespNull::expect_length(b"whatever"), Ok(3));
}

#[test]
fn doubles_are_kept_as_their_text() {
    for good in [
        "3.14", "+3.14", "-3.14", "1", "1.", ".5", "1e5", "1E-5", "+1.5e+10", "inf", "-Infinity",
        "NaN", "+nan", "123456789",
    ] {
        let mut bytes = vec![b','];
        bytes.extend_from_slice(good.as_bytes());
        bytes.extend_from_slice(b"\r\n");
        assert_eq!(decode(&bytes).0, Ok(double(good)), "{}", good);
        assert_eq!(double(good).encode(), bytes);
    }
    for bad in ["", ".", "e5", "1e", "1e+", "+", "1.2.3", "1 ", "0x10", "infinit", "--1"] {
        let mut bytes = vec![b','];
        bytes.extend_from_slice(bad.as_bytes());
        bytes.extend_from_slice(b"\r\n");
        assert_eq!(decode(&bytes).0, Err(RespError::ParseFloatError), "{}", bad);
        assert!(RespDouble::from_text(bad.as_bytes().to_vec()).is_none());
    }
}

#[test]
fn double_texts_are_those_that_rust_reads_as_a_float() {
    let mut texts = texts_over(b"07.eE+-inNaf ", 5);
    for word in ["infinity", "INFINITY", "-Infinity", "+infinity", "infinit", "infinityy"] {
        texts.push(word.as_bytes().to_vec());
    }
    for text in texts {
        let read = String::from_utf8(text.clone()).unwrap().parse::<f64>().is_ok();
        assert_eq!(RespDouble::from_text(text.clone()).is_some(), read, "{:?}", text);
    }
}

fn texts_over(alphabet: &[u8], longest: usize) -> Vec<Vec<u8>> {
    let mut texts: Vec<Vec<u8>> = vec![Vec::new()];
    let mut from = 0;
    for _ in 0..longest {
        let upto = texts.len();
        for i in from..upto {
            for &b in alphabet.iter() {
                let mut longer = texts[i].clone();
                longer.push(b);
                texts.push(longer);
            }
        }
        from = upto;
    }
    texts
}

#[test]
fn integer_texts_are_those_that_rust_reads_as_an_integer() {
    let mut texts = texts_over(b"019+-. ", 6);
    for edge in [
        "9223372036854775807",
        "9223372036854775808",
        "+9223372036854775807",
        "+9223372036854775808",
        "-9223372036854775808",
        "-9223372036854775809",
        "18446744073709551615",
        "18446744073709551616",
        "+18446744073709551615",
        "000000000000000000000000000017",
        "-000000000000000000000000000017",
        "99999999999999999999999999999",
    ] {
        texts.push(edge.as_bytes().to_vec());
    }
    for text in texts {
        let string = String::from_utf8(text.clone()).unwrap();
        assert_eq!(parse_i64(&text), string.parse::<i64>().ok(), "{:?}", string);
        assert_eq!(parse_usize(&text), string.parse::<usize>().ok(), "{:?}", string);
    }
}

#[test]
fn integers_are_written_as_rust_writes_them_with_a_sign() {
    for n in [0, 1, -1, 9, 10, -10, 99, 100, 1234567890, i64::MAX, i64::MIN, i64::MIN + 1] {
        let mut out = Vec::new();
        push_signed_decimal(&mut out, n);
        assert_eq!(out, format!("{:+}", n).into_bytes());
    }
    for n in [0u64, 7, 10, 11, 1000, u64::MAX] {
        let mut out = b"x".to_vec();
        push_decimal(&mut out, n);
        assert_eq!(out, format!("x{}", n).into_bytes());
    }
}

#[test]
fn bulk_string_lengths() {
    assert_eq!(decode(b"$0\r\n\r\n").0, Ok(RespFrame::BulkString(b"".into())));
    assert_eq!(decode(b"$+2\r\nab\r\n").0, Ok(RespFrame::BulkString(b"ab".into())));
    assert_eq!(decode(b"$x\r\nab\r\n").0, Err(RespError::ParseIntError));
    assert_eq!(decode(b"$-2\r\nab\r\n").0, Err(RespError::ParseIntError));
    assert_eq!(
        decode(b"$99999999999999999999999\r\nab\r\n").0,
        Err(RespError::ParseIntError)
    );
    assert_eq!(
        decode(b"$18446744073709551615\r\nab\r\n").0,
        Err(RespError::NotComplete)
    );
    assert_eq!(
        decode(b"$2\r\nabcd\r\n").0,
        Err(RespError::InvalidFrameLength(
            "bulk string payload is not followed by CRLF".to_string()
        ))
    );
    assert_eq!(BulkString::expect_length(b"$5\r\nhe"), Ok(11));
    assert_eq!(BulkString::new(b"abc").as_bytes(), b"abc");
    assert_eq!(BulkString::null().as_bytes(), b"");
}

#[test]
fn malformed_leaves_the_buffer_as_it_was() {
    for bad in [&b"!x\r\n"[..], b":x\r\n", b"*1\r\n:x\r\n", b"*2\r\n:+1\r\n!\r\n"] {
        let (r, left) = decode(bad);
        assert!(r.is_err());
        assert_ne!(r, Err(RespError::NotComplete));
        assert_eq!(left, bad);
    }
}

#[test]
fn aggregate_is_sized_before_it_is_read() {
    // The first item is malformed, the second is not there yet: not complete.
    assert_eq!(decode(b"*2\r\n:x\r\n").0, Err(RespError::NotComplete));
    assert_eq!(decode(b"*2\r\n:x\r\n:+1\r\n").0, Err(RespError::ParseIntError));
    assert_eq!(decode(b"*2\r\n$5\r\nhel").0, Err(RespError::NotComplete));
    assert_eq!(
        decode(b"*1\r\n!\r\n").0,
        Err(RespError::InvalidFrameType(format!(
            "decode unknown frame type: {:?}",
            BytesMut::from(&b"!\r\n"[..])
        )))
    );
    assert_eq!(decode(b"*0\r\n").0, Ok(RespFrame::Array(RespArray::new(Vec::new()))));
}

#[test]
fn simple_strings_are_read_lossily() {
    assert_eq!(
        decode(b"+a\xffb\r\n").0,
        Ok(RespFrame::SimpleString(SimpleString::new("a\u{fffd}b")))
    );
    assert_eq!(
        decode(b"-bad \xc3\r\n").0,
        Ok(RespFrame::Error(SimpleError::new("bad \u{fffd}")))
    );
    assert_eq!(
        decode("+h\u{e9}llo\r\n".as_bytes()).0,
        Ok(RespFrame::SimpleString(SimpleString::new("h\u{e9}llo")))
    );
}

#[test]
fn typed_decoders_check_the_tag() {
    let mut buf = BytesMut::from(&b"+OK\r\n"[..]);
    assert_eq!(
        BulkString::decode(&mut buf),
        Err(RespError::InvalidFrame(format!(
            "expect: SimpleString(+), got: {:?}",
            b"+OK\r\n".to_vec()
        )))
    );
    assert_eq!(&buf[..], b"+OK\r\n");
    assert_eq!(SimpleError::decode(&mut buf).is_err(), true);
    assert_eq!(SimpleString::decode(&mut buf), Ok(SimpleString::new("OK")));
    assert!(buf.is_empty());
    let mut buf = BytesMut::from(&b"-oops\r\n"[..]);
    assert_eq!(SimpleError::decode(&mut buf), Ok(SimpleError::new("oops")));
    assert_eq!(SimpleError::from("oops"), SimpleError::new("oops"));
}

#[test]
fn line_helpers() {
    assert_eq!(find_crlf(b"+a\r\nb\r\nc\r\n", 1), Some(2));
    assert_eq!(find_crlf(b"+a\r\nb\r\nc\r\n", 2), Some(5));
    assert_eq!(find_crlf(b"+a\r\nb\r\nc\r\n", 3), Some(8));
    assert_eq!(find_crlf(b"+a\r\nb\r\nc\r\n", 4), None);
    assert_eq!(find_crlf(b"+a\r\nb\r\nc\r\n", 0), None);
    assert_eq!(find_crlf(b"\r\n+a", 1), None);
    assert_eq!(find_crlf(b"", 1), None);
    assert_eq!(extract_simple_frame_data(b"+OK\r\n", "+"), Ok(Some(3)));
    assert_eq!(
        extract_simple_frame_data(b"+O", "+"),
        Err(RespError::NotComplete)
    );
    assert_eq!(
        extract_simple_frame_data(b"+OK\r", "+"),
        Err(RespError::NotComplete)
    );
    assert_eq!(
        extract_simple_frame_data(b"-OK\r\n", "+"),
        Err(RespError::InvalidFrame(format!(
            "expect: SimpleString(+), got: {:?}",
            b"-OK\r\n".to_vec()
        )))
    );
    assert_eq!(parse_length(b"$12\r\n", "$"), Ok((3, 12)));
    assert_eq!(parse_length(b"$12\r", "$"), Err(RespError::NotComplete));
    assert_eq!(parse_length(b"$1x\r\n", "$"), Err(RespError::ParseIntError));
    let mut buf = BytesMut::from(&b"_\r\nrest"[..]);
    assert_eq!(extract_fixed_data(&mut buf, "_\r\n", "Null"), Ok(()));
    assert_eq!(&buf[..], b"rest");
    assert_eq!(
        extract_fixed_data(&mut buf, "_\r\n", "Null"),
        Err(RespError::InvalidFrameType(format!(
            "expect: Null, got: {:?}",
            BytesMut::from(&b"rest"[..])
        )))
    );
    assert_eq!(&buf[..], b"rest");
    let mut buf = BytesMut::from(&b"_\r"[..]);
    assert_eq!(
        extract_fixed_data(&mut buf, "_\r\n", "Null"),
        Err(RespError::NotComplete)
    );
}

#[test]
fn conversions_into_frames() {
    let frame: RespFrame = "hello".into();
    assert_eq!(frame, RespFrame::SimpleString(SimpleString::new("hello")));
    let frame: RespFrame = (&b"hello"[..]).into();
    assert_eq!(frame, RespFrame::BulkString(BulkString::new(b"hello")));
    let bulk: BulkString = "hello".into();
    assert_eq!(bulk, BulkString::new("hello"));
    let bulk: BulkString = (&b"hello"[..]).into();
    assert_eq!(bulk, BulkString::new(b"hello".to_vec()));
    let frame: RespFrame = true.into();
    assert_eq!(frame, RespFrame::Boolean(true));
}

#[test]
fn rejected_bytes_are_shown_as_the_buffer_prints_them() {
    assert_eq!(
        decode(b"_\0\xff\"\\\t~ \r\n").0,
        Err(RespError::InvalidFrameType(
            "expect: Null, got: b\"_\\0\\xff\\\"\\\\\\t~ \\r\\n\"".to_string()
        ))
    );
    assert_eq!(
        decode(b"?a\r\n").0,
        Err(RespError::InvalidFrameType(
            "decode unknown frame type: b\"?a\\r\\n\"".to_string()
        ))
    );
    assert_eq!(
        RespError::InvalidFrameType("expect: Bool, got: b\"#x\"".to_string()).message(),
        "Invalid frame type: expect: Bool, got: b\"#x\""
    );
}
