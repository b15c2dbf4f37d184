use bytes::{BufMut, BytesMut};
use simple_redis::resp::{calc_total_length, parse_length};
use simple_redis::{
    BulkString, RespArray, RespDecode, RespDouble, RespEncode, RespError, RespFrame, RespMap,
    RespNull, RespSet, SimpleError, SimpleString,
};

fn double(text: &str) -> RespFrame {
    RespFrame::Double(RespDouble::from_text(text.as_bytes().to_vec()).unwrap())
}

#[test]
fn test_calc_array_length() -> anyhow::Result<()> {
    let buf = b"*2\r\n$3\r\nset\r\n$5\r\nhello\r\n";
    let (end, len) = parse_length(buf, "*").unwrap();
    let total_len = calc_total_length(buf, end, len, "*").unwrap();
    assert_eq!(total_len, buf.len());

    let buf = b"*2\r\n$3\r\nset\r\n";
    let (end, len) = parse_length(buf, "*").unwrap();
    let ret = calc_total_length(buf, end, len, "*");
    assert_eq!(ret.unwrap_err(), RespError::NotComplete);
    Ok(())
}

#[test]
fn test_array_encode() {
    let frame: RespFrame = RespArray::new(vec![
        BulkString::new("set".to_string()).into(),
        BulkString::new("hello".to_string()).into(),
        BulkString::new("world".to_string()).into(),
    ])
    .into();
    assert_eq!(
        frame.encode(),
        b"*3\r\n$3\r\nset\r\n$5\r\nhello\r\n$5\r\nworld\r\n"
    );
}

#[test]
fn test_array_decode() {
    let mut buf = BytesMut::new();
    buf.extend_from_slice(b"*2\r\n$3\r\nset\r\n$5\r\nhello\r\n");

    let frame = RespArray::decode(&mut buf).unwrap();
    assert_eq!(frame, RespArray::new([b"set".into(), b"hello".into()]));

    buf.extend_from_slice(b"*2\r\n$3\r\nset\r\n");
    let ret = RespArray::decode(&mut buf);
    assert_eq!(ret.unwrap_err(), RespError::NotComplete);

    buf.extend_from_slice(b"$5\r\nhello\r\n");
    let frame = RespArray::decode(&mut buf).unwrap();
    assert_eq!(frame, RespArray::new([b"set".into(), b"hello".into()]));
}

#[test]
fn test_resp_null_array_encode() {
    let frame: RespFrame = RespArray::null().into();
    assert_eq!(frame.encode(), b"*-1\r\n");
}

#[test]
fn test_null_array_decode() {
    let mut buf = BytesMut::new();
    buf.extend_from_slice(b"*-1\r\n");

    let frame = RespArray::decode(&mut buf).unwrap();
    assert_eq!(frame, RespArray::null());
}

#[test]
fn test_bulkstring_encode() {
    let frame: RespFrame = BulkString::new(b"hello".to_vec()).into();
    assert_eq!(frame.encode(), b"$5\r\nhello\r\n");
}

#[test]
fn test_bulk_string_decode() {
    let mut buf = BytesMut::new();
    buf.extend_from_slice(b"$5\r\nhello\r\n");

    let frame = BulkString::decode(&mut buf).unwrap();
    assert_eq!(frame, BulkString::new(b"hello"));

    buf.extend_from_slice(b"$5\r\nhello");
    let ret = BulkString::decode(&mut buf);
    assert_eq!(ret.unwrap_err(), RespError::NotComplete);

    buf.extend_from_slice(b"\r\n");
    let frame = BulkString::decode(&mut buf).unwrap();
    assert_eq!(frame, BulkString::new(b"hello"));
}

#[test]
fn test_null_bulkstring_encode() {
    let frame: RespFrame = BulkString::null().into();
    assert_eq!(frame.encode(), b"$-1\r\n");
}

#[test]
fn test_null_bulk_string_decode() {
    let mut buf = BytesMut::new();
    buf.extend_from_slice(b"$-1\r\n");

    let frame = BulkString::decode(&mut buf).unwrap();
    assert_eq!(frame, BulkString::null());
}

fn number(d: &RespDouble) -> f64 {
    String::from_utf8(d.text().to_vec()).unwrap().parse().unwrap()
}

#[test]
fn test_double_decode() {
    let mut buf = BytesMut::new();
    buf.extend_from_slice(b",1234.45\r\n");
    let ret = RespDouble::decode(&mut buf).unwrap();
    assert_eq!(ret.text(), b"1234.45");
    assert_eq!(number(&ret), 1234.45);

    buf.extend_from_slice(b",1.23456e-9\r\n");
    let ret = RespDouble::decode(&mut buf).unwrap();
    assert_eq!(ret.text(), b"1.23456e-9");
    assert_eq!(number(&ret), 1.23456e-9);

    buf.extend_from_slice(b"1.23456e-9\r\n");
    let ret = RespDouble::decode(&mut buf);
    assert_eq!(
        ret,
        Err(RespError::InvalidFrame(format!(
            "expect: SimpleString(+), got: {:?}",
            buf.to_vec()
        )))
    );
}

#[test]
fn test_double_encode() {
    let frame: RespFrame = double("+123.456");
    assert_eq!(frame.encode(), b",+123.456\r\n");
    let frame: RespFrame = double("-123.456");
    assert_eq!(frame.encode(), b",-123.456\r\n");
    let frame: RespFrame = double("+1.23456e8");
    assert_eq!(frame.encode(), b",+1.23456e8\r\n");
    let frame: RespFrame = double("-1.23456e-9");
    assert_eq!(frame.encode(), b",-1.23456e-9\r\n");
}

#[test]
fn test_integer_encode() {
    let frame: RespFrame = 123.into();
    assert_eq!(frame.encode(), b":+123\r\n");
    let frame: RespFrame = (-123).into();
    assert_eq!(frame.encode(), b":-123\r\n");
}

#[test]
fn test_integer_decode() {
    let mut buf = BytesMut::new();
    buf.extend_from_slice(b":+123\r\n");

    let frame = i64::decode(&mut buf).unwrap();
    assert_eq!(frame, 123);

    buf.extend_from_slice(b":-123\r\n");

    let frame = i64::decode(&mut buf).unwrap();
    assert_eq!(frame, -123);
}

#[test]
fn test_resp_map_encode() {
    let mut map = RespMap::new();
    map.insert("hello".to_string(), BulkString::new("world").into());
    map.insert("foo".to_string(), double("-123456.789"));
    let frame: RespFrame = map.into();
    assert_eq!(
        frame.encode(),
        b"%2\r\n+foo\r\n,-123456.789\r\n+hello\r\n$5\r\nworld\r\n"
    );
}

#[test]
fn test_map_decode() {
    let mut buf = BytesMut::new();
    buf.extend_from_slice(b"%2\r\n+hello\r\n$5\r\nworld\r\n+foo\r\n$3\r\nbar\r\n");
    let frame = RespMap::decode(&mut buf).unwrap();
    let mut map = RespMap::new();
    map.insert(
        "hello".to_string(),
        BulkString::new(b"world".to_vec()).into(),
    );
    map.insert("foo".to_string(), b"bar".into());
    assert_eq!(frame, map);
}

#[test]
fn test_resp_null_encode() {
    let frame: RespFrame = RespNull.into();
    assert_eq!(frame.encode(), b"_\r\n");
}

#[test]
fn test_null_decode() {
    let mut buf = BytesMut::new();
    buf.extend_from_slice(b"_\r\n");

    let frame = RespNull::decode(&mut buf).unwrap();
    assert_eq!(frame, RespNull);
}

#[test]
fn test_resp_set_encode() {
    let frame: RespFrame = RespSet::new([
        RespArray::new([1234.into(), true.into()]).into(),
        BulkString::new("world".to_string()).into(),
    ])
    .into();
    assert_eq!(
        frame.encode(),
        b"~2\r\n*2\r\n:+1234\r\n#t\r\n$5\r\nworld\r\n"
    );
}

#[test]
fn test_set_decode() {
    let mut buf = BytesMut::new();
    buf.extend_from_slice(b"~2\r\n+hello\r\n,1234.45\r\n");
    let ret = RespSet::decode(&mut buf);
    assert_eq!(
        ret.unwrap(),
        RespSet::new(vec![
            RespFrame::SimpleString(SimpleString::new("hello".to_string())),
            double("1234.45")
        ])
    );

    buf.extend_from_slice(b"~2\r\n$3\r\nset\r\n$5\r\nhello\r\n");

    let frame = RespSet::decode(&mut buf).unwrap();
    assert_eq!(
        frame,
        RespSet::new(vec![
            BulkString::new(b"set".to_vec()).into(),
            BulkString::new(b"hello".to_vec()).into()
        ])
    );
}

#[test]
fn test_error_encode() {
    let frame: RespFrame = SimpleError::new("Error message".to_string()).into();
    assert_eq!(frame.encode(), b"-Error message\r\n");
}

#[test]
fn test_simple_error_decode() {
    let mut buf = BytesMut::new();
    buf.extend_from_slice(b"+hello\r");
    let ret = SimpleString::decode(&mut buf);
    assert_eq!(ret.unwrap_err(), RespError::NotComplete);

    buf.put_u8(b'\n');
    let frame = SimpleString::decode(&mut buf);
    assert_eq!(frame.unwrap(), SimpleString::new("hello".to_string()));
}
