//! Wire-level tests of the frame codec: every variant round-trips, partial
//! frames never consume bytes, and malformed bytes are rejected.

use bytes::BytesMut;
use resp_codec::protocol::{
    BulkString, RespArray, RespDecode, RespDouble, RespEncode, RespError, RespFrame, RespMap,
    RespNull, RespSet, SimpleError, SimpleString,
};

#[test]
fn test_bulk_string_decode() {
    let mut buf = BytesMut::from("$6\r\nfoobar\r\n");
    let result = BulkString::decode(&mut buf).unwrap();
    assert_eq!(result, BulkString::new(b"foobar".to_vec()));
}

#[test]
fn test_bulk_string_encode() {
    let bulk_string = BulkString::new(b"foobar".to_vec());
    let result = bulk_string.encode();
    assert_eq!(result, b"$6\r\nfoobar\r\n");
}

#[test]
fn test_bulk_string_expect_length() {
    let buf = b"$6\r\nfoobar\r\n";
    let result = BulkString::expect_length(buf).unwrap();
    assert_eq!(result, buf.len());
}

#[test]
fn test_null_bulk_string_encode() {
    let frame: RespFrame = None.into();
    assert_eq!(frame.encode(), b"$-1\r\n");
}

#[test]
fn test_array_encode() {
    let frame: RespFrame = RespFrame::Array(RespArray::new(vec![
        RespFrame::BulkString(BulkString::new(b"set".to_vec())),
        RespFrame::BulkString(BulkString::new(b"hello".to_vec())),
        RespFrame::BulkString(BulkString::new(b"world".to_vec())),
    ]));
    assert_eq!(
        &frame.encode(),
        b"*3\r\n$3\r\nset\r\n$5\r\nhello\r\n$5\r\nworld\r\n"
    );
}

#[test]
fn test_null_array_encode() {
    let frame: RespArray = None.into();
    assert_eq!(frame.encode(), b"*-1\r\n");
}

#[test]
fn test_null_array_decode() {
    let mut buf = BytesMut::new();
    buf.extend_from_slice(b"*-1\r\n");
    let frame = RespArray::decode(&mut buf).unwrap();
    assert_eq!(frame, RespArray::new_null());
}

#[test]
fn test_array_decode() {
    let mut buf = BytesMut::new();
    buf.extend_from_slice(b"*2\r\n$3\r\nset\r\n$5\r\nhello\r\n");

    let frame = RespArray::decode(&mut buf).unwrap();
    assert_eq!(
        frame,
        RespArray::new(vec![b"set".as_slice().into(), b"hello".as_slice().into()])
    );

    buf.extend_from_slice(b"*2\r\n$3\r\nset\r\n");
    let ret = RespArray::decode(&mut buf);
    assert_eq!(ret.unwrap_err(), RespError::NotComplete);

    buf.extend_from_slice(b"$5\r\nhello\r\n");
    let frame = RespArray::decode(&mut buf).unwrap();
    assert_eq!(
        frame,
        RespArray::new(vec![b"set".as_slice().into(), b"hello".as_slice().into()])
    );
}

#[test]
fn test_bool() {
    let mut buf = BytesMut::new();
    let value = true;
    let frame: RespFrame = value.into();
    assert_eq!(frame.encode(), b"#t\r\n");
    let encoded = value.encode();
    buf.extend_from_slice(&encoded);
    let decoded = bool::decode(&mut buf).unwrap();
    assert_eq!(value, decoded);
}

#[test]
fn test_f64() {
    let s = RespDouble::new(b"+3.15".to_vec());
    let encoded = s.clone().encode();
    assert_eq!(encoded, b",+3.15\r\n");
    let mut data = BytesMut::new();
    data.extend_from_slice(b",+3.15\r\n");
    let decoded = RespDouble::decode(&mut data).unwrap();
    assert_eq!(decoded, s);
}

#[test]
fn test_f64_negative() {
    let s = RespDouble::new(b"-3.15".to_vec());
    let encoded = s.clone().encode();
    assert_eq!(encoded, b",-3.15\r\n");
    let mut data = BytesMut::new();
    data.extend_from_slice(b",-3.15\r\n");
    let decoded = RespDouble::decode(&mut data).unwrap();
    assert_eq!(decoded, s);
}

#[test]
fn test_f64_large() {
    let frame: RespFrame = RespFrame::Double(RespDouble::new(b"+1.23456e8".to_vec()));
    assert_eq!(frame.encode(), b",+1.23456e8\r\n");
}

#[test]
fn test_f64_small() {
    let s = RespDouble::new(b"+0.00000001".to_vec());
    let encoded = s.clone().encode();
    let result = String::from_utf8(encoded).unwrap();
    assert_eq!(result.as_bytes(), b",+0.00000001\r\n");
    let mut data = BytesMut::new();
    data.extend_from_slice(b",+0.00000001\r\n");
    let decoded = RespDouble::decode(&mut data).unwrap();
    assert_eq!(decoded, s);
}

#[test]
fn test_integer_decode() {
    let mut buf = BytesMut::new();
    buf.extend_from_slice(b":+123\r\n");
    let frame = i64::decode(&mut buf).unwrap();
    assert_eq!(frame, 123);

    buf.extend_from_slice(b":-123\r\n");
    let frame = i64::decode(&mut buf).unwrap();
    assert_eq!(frame, -123);
}

#[test]
fn test_integer_encode() {
    let i: i64 = 123;
    let data = i.encode();
    assert_eq!(data, b":+123\r\n");
}

#[test]
fn test_simple_string_round_trip() {
    let frame = RespFrame::SimpleString(SimpleString::new(b"OK".to_vec()));
    let wire = frame.clone().encode();
    assert_eq!(wire, b"+OK\r\n");
    let mut buf = BytesMut::new();
    buf.extend_from_slice(&wire);
    let decoded = RespFrame::decode(&mut buf).unwrap();
    assert_eq!(decoded, frame);
    assert_eq!(buf.len(), 0);
}

#[test]
fn test_simple_error_round_trip() {
    let frame = RespFrame::Error(SimpleError::new(b"ERR unknown".to_vec()));
    let wire = frame.clone().encode();
    assert_eq!(wire, b"-ERR unknown\r\n");
    let mut buf = BytesMut::new();
    buf.extend_from_slice(&wire);
    let decoded = RespFrame::decode(&mut buf).unwrap();
    assert_eq!(decoded, frame);
}

#[test]
fn test_map_round_trip() {
    let frame = RespFrame::Pairs(RespMap::new(vec![
        (
            RespFrame::BulkString(BulkString::new(b"hello".to_vec())),
            RespFrame::BulkString(BulkString::new(b"world".to_vec())),
        ),
        (
            RespFrame::SimpleString(SimpleString::new(b"k".to_vec())),
            RespFrame::Integer(7),
        ),
    ]));
    let wire = frame.clone().encode();
    assert_eq!(&wire, b"%2\r\n$5\r\nhello\r\n$5\r\nworld\r\n+k\r\n:+7\r\n");
    let mut buf = BytesMut::new();
    buf.extend_from_slice(&wire);
    let decoded = RespFrame::decode(&mut buf).unwrap();
    assert_eq!(decoded, frame);
    assert_eq!(buf.len(), 0);
}

#[test]
fn test_set_round_trip() {
    let frame = RespFrame::Members(RespSet::new(vec![
        RespFrame::Integer(1),
        RespFrame::Integer(2),
    ]));
    let wire = frame.clone().encode();
    assert_eq!(&wire, b"~2\r\n:+1\r\n:+2\r\n");
    let mut buf = BytesMut::new();
    buf.extend_from_slice(&wire);
    let decoded = RespFrame::decode(&mut buf).unwrap();
    assert_eq!(decoded, frame);
}

#[test]
fn test_nested_array_round_trip() {
    let frame = RespFrame::Array(RespArray::new(vec![
        RespFrame::Array(RespArray::new(vec![RespFrame::Integer(-5)])),
        RespFrame::Boolean(false),
        RespFrame::Null(RespNull),
    ]));
    let wire = frame.clone().encode();
    assert_eq!(&wire, b"*3\r\n*1\r\n:-5\r\n#f\r\n_\r\n");
    let mut buf = BytesMut::new();
    buf.extend_from_slice(&wire);
    let decoded = RespFrame::decode(&mut buf).unwrap();
    assert_eq!(decoded, frame);
}

#[test]
fn test_null_forms_distinct() {
    let generic = RespFrame::Null(RespNull).encode();
    let bulk_null = RespFrame::BulkString(BulkString::new_null()).encode();
    let array_null = RespFrame::Array(RespArray::new_null()).encode();
    let bulk_empty = RespFrame::BulkString(BulkString::new(Vec::new())).encode();
    let array_empty = RespFrame::Array(RespArray::new(Vec::new())).encode();
    assert_eq!(generic, b"_\r\n");
    assert_eq!(bulk_null, b"$-1\r\n");
    assert_eq!(array_null, b"*-1\r\n");
    assert_eq!(bulk_empty, b"$0\r\n\r\n");
    assert_eq!(array_empty, b"*0\r\n");
    assert_ne!(generic, bulk_null);
    assert_ne!(generic, array_null);
    assert_ne!(bulk_null, array_null);
    assert_ne!(bulk_null, bulk_empty);
    assert_ne!(array_null, array_empty);
}

#[test]
fn test_incremental_delivery() {
    let wire = b"*2\r\n$3\r\nget\r\n$5\r\nhello\r\n";
    for cut in 0..wire.len() {
        let mut buf = BytesMut::new();
        buf.extend_from_slice(&wire[..cut]);
        let before = buf.clone();
        let ret = RespFrame::decode(&mut buf);
        assert_eq!(ret.unwrap_err(), RespError::NotComplete);
        assert_eq!(buf, before);
    }
    let mut buf = BytesMut::new();
    buf.extend_from_slice(wire);
    let frame = RespFrame::decode(&mut buf).unwrap();
    assert_eq!(
        frame,
        RespFrame::Array(RespArray::new(vec![
            b"get".as_slice().into(),
            b"hello".as_slice().into(),
        ]))
    );
    assert_eq!(buf.len(), 0);
}

#[test]
fn test_array_with_trailing_bytes() {
    let mut buf = BytesMut::new();
    buf.extend_from_slice(b"*2\r\n$3\r\nset\r\n$5\r\nhello\r\n+OK\r\n");
    let first = RespFrame::decode(&mut buf).unwrap();
    assert_eq!(
        first,
        RespFrame::Array(RespArray::new(vec![
            b"set".as_slice().into(),
            b"hello".as_slice().into(),
        ]))
    );
    assert_eq!(&buf[..], b"+OK\r\n");
    let second = RespFrame::decode(&mut buf).unwrap();
    assert_eq!(
        second,
        RespFrame::SimpleString(SimpleString::new(b"OK".to_vec()))
    );
    assert_eq!(buf.len(), 0);
}

#[test]
fn test_unknown_tag_rejected() {
    let mut buf = BytesMut::new();
    buf.extend_from_slice(b"@abc\r\n");
    let ret = RespFrame::decode(&mut buf);
    assert_eq!(ret.unwrap_err(), RespError::InvalidFrameType);
    assert_eq!(&buf[..], b"@abc\r\n");
}

#[test]
fn test_malformed_frames_rejected() {
    let mut buf = BytesMut::new();
    buf.extend_from_slice(b":abc\r\n");
    assert_eq!(RespFrame::decode(&mut buf).unwrap_err(), RespError::InvalidFrame);

    let mut buf = BytesMut::new();
    buf.extend_from_slice(b"#x\r\n");
    assert_eq!(RespFrame::decode(&mut buf).unwrap_err(), RespError::InvalidFrame);

    let mut buf = BytesMut::new();
    buf.extend_from_slice(b",abc\r\n");
    assert_eq!(RespFrame::decode(&mut buf).unwrap_err(), RespError::InvalidFrame);

    let mut buf = BytesMut::new();
    buf.extend_from_slice(b"$-2\r\n");
    assert_eq!(RespFrame::decode(&mut buf).unwrap_err(), RespError::InvalidFrame);

    let mut buf = BytesMut::new();
    buf.extend_from_slice(b"$3\r\nabcXY");
    assert_eq!(RespFrame::decode(&mut buf).unwrap_err(), RespError::InvalidFrame);
}

#[test]
fn test_integer_limits() {
    let mut buf = BytesMut::new();
    buf.extend_from_slice(b":-9223372036854775808\r\n");
    assert_eq!(i64::decode(&mut buf).unwrap(), i64::MIN);

    buf.extend_from_slice(b":+9223372036854775807\r\n");
    assert_eq!(i64::decode(&mut buf).unwrap(), i64::MAX);

    buf.extend_from_slice(b":9223372036854775808\r\n");
    assert_eq!(i64::decode(&mut buf).unwrap_err(), RespError::InvalidFrame);

    assert_eq!(i64::MIN.encode(), b":-9223372036854775808\r\n");
    assert_eq!(0i64.encode(), b":+0\r\n");
}

#[test]
fn test_expect_length_matches_decode() {
    let frames: Vec<&[u8]> = vec![
        b"+OK\r\n",
        b"-err\r\n",
        b":+42\r\n",
        b"$5\r\nhello\r\n",
        b"$-1\r\n",
        b"*2\r\n$3\r\nget\r\n$5\r\nhello\r\n",
        b"*-1\r\n",
        b"_\r\n",
        b"#f\r\n",
        b",-3.15\r\n",
        b"%1\r\n+k\r\n:+1\r\n",
        b"~2\r\n:+1\r\n:+2\r\n",
    ];
    for wire in frames {
        assert_eq!(RespFrame::expect_length(wire).unwrap(), wire.len());
        let mut buf = BytesMut::new();
        buf.extend_from_slice(wire);
        RespFrame::decode(&mut buf).unwrap();
        assert_eq!(buf.len(), 0);
    }
}

#[test]
fn test_expect_length_on_partial_bulk() {
    // The span is known from the header before the payload has arrived.
    let wire = b"$6\r\nfoo";
    assert_eq!(BulkString::expect_length(wire).unwrap(), 12);
    let mut buf = BytesMut::new();
    buf.extend_from_slice(wire);
    assert_eq!(BulkString::decode(&mut buf).unwrap_err(), RespError::NotComplete);
}

#[test]
fn test_length_larger_than_buffer_is_incomplete() {
    // The declared payload is astronomically large but well-formed: the
    // codec must keep answering "not complete" and must not touch the
    // buffer.
    let wire = b"$18446744073709551615\r\nabc";
    assert_eq!(
        BulkString::expect_length(wire).unwrap_err(),
        RespError::NotComplete
    );
    let mut buf = BytesMut::new();
    buf.extend_from_slice(wire);
    assert_eq!(
        BulkString::decode(&mut buf).unwrap_err(),
        RespError::NotComplete
    );
    assert_eq!(&buf[..], wire);
}

#[test]
fn test_length_beyond_machine_word_is_malformed() {
    let wire = b"$99999999999999999999\r\n";
    let mut buf = BytesMut::new();
    buf.extend_from_slice(wire);
    assert_eq!(
        BulkString::decode(&mut buf).unwrap_err(),
        RespError::InvalidFrame
    );
    assert_eq!(
        BulkString::expect_length(wire).unwrap_err(),
        RespError::InvalidFrame
    );
}
