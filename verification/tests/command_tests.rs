//! Tests of the command layer and the backend store.

use bytes::BytesMut;
use resp_codec::backend::Backend;
use resp_codec::cmd::{resp_ok, Command, CommandError, CommandExecutor};
use resp_codec::protocol::{
    BulkString, RespArray, RespDecode, RespEncode, RespFrame, RespNull,
};

#[test]
fn test_command() {
    let mut buf = BytesMut::new();
    buf.extend_from_slice(b"*2\r\n$3\r\nget\r\n$5\r\nhello\r\n");

    let frame = RespArray::decode(&mut buf).unwrap();
    let cmd: Command = frame.try_into().unwrap();

    let mut backend = Backend::new();
    let ret = cmd.execute(&mut backend);
    assert_eq!(ret, RespFrame::Null(RespNull));
}

#[test]
fn test_get_routed_to_null_encodes_as_generic_null() {
    let mut buf = BytesMut::new();
    buf.extend_from_slice(b"*2\r\n$3\r\nget\r\n$5\r\nhello\r\n");
    let frame = RespFrame::decode(&mut buf).unwrap();
    let cmd: Command = frame.try_into().unwrap();
    let mut backend = Backend::new();
    let ret = cmd.execute(&mut backend);
    assert_eq!(ret.encode(), b"_\r\n");
}

#[test]
fn test_unrecognized_command_executes() {
    let mut buf = BytesMut::new();
    buf.extend_from_slice(b"*2\r\n$5\r\nbogus\r\n$5\r\nhello\r\n");
    let frame = RespFrame::decode(&mut buf).unwrap();
    let cmd: Command = frame.try_into().unwrap();
    let mut backend = Backend::new();
    let ret = cmd.execute(&mut backend);
    assert_eq!(ret, resp_ok());
    assert_eq!(ret.encode(), b"+OK\r\n");
}

#[test]
fn test_set_then_get() {
    let mut backend = Backend::new();

    let mut buf = BytesMut::new();
    buf.extend_from_slice(b"*3\r\n$3\r\nset\r\n$5\r\nhello\r\n$5\r\nworld\r\n");
    let cmd: Command = RespFrame::decode(&mut buf).unwrap().try_into().unwrap();
    let ret = cmd.execute(&mut backend);
    assert_eq!(ret, resp_ok());

    let mut buf = BytesMut::new();
    buf.extend_from_slice(b"*2\r\n$3\r\nget\r\n$5\r\nhello\r\n");
    let cmd: Command = RespFrame::decode(&mut buf).unwrap().try_into().unwrap();
    let ret = cmd.execute(&mut backend);
    assert_eq!(ret, RespFrame::BulkString(BulkString::new(b"world".to_vec())));
}

#[test]
fn test_command_name_is_case_insensitive() {
    let mut backend = Backend::new();
    let mut buf = BytesMut::new();
    buf.extend_from_slice(b"*3\r\n$3\r\nSeT\r\n$1\r\nk\r\n$1\r\nv\r\n");
    let cmd: Command = RespFrame::decode(&mut buf).unwrap().try_into().unwrap();
    assert_eq!(cmd.execute(&mut backend), resp_ok());

    let mut buf = BytesMut::new();
    buf.extend_from_slice(b"*2\r\n$3\r\nGET\r\n$1\r\nk\r\n");
    let cmd: Command = RespFrame::decode(&mut buf).unwrap().try_into().unwrap();
    assert_eq!(
        cmd.execute(&mut backend),
        RespFrame::BulkString(BulkString::new(b"v".to_vec()))
    );
}

#[test]
fn test_echo() {
    let mut backend = Backend::new();
    let mut buf = BytesMut::new();
    buf.extend_from_slice(b"*2\r\n$4\r\necho\r\n$5\r\nhello\r\n");
    let cmd: Command = RespFrame::decode(&mut buf).unwrap().try_into().unwrap();
    let ret = cmd.execute(&mut backend);
    assert_eq!(ret, RespFrame::BulkString(BulkString::new(b"hello".to_vec())));
}

#[test]
fn test_hset_hget_hgetall() {
    let mut backend = Backend::new();

    let mut buf = BytesMut::new();
    buf.extend_from_slice(b"*4\r\n$4\r\nhset\r\n$3\r\nmap\r\n$5\r\nhello\r\n$5\r\nworld\r\n");
    let cmd: Command = RespFrame::decode(&mut buf).unwrap().try_into().unwrap();
    assert_eq!(cmd.execute(&mut backend), resp_ok());

    let mut buf = BytesMut::new();
    buf.extend_from_slice(b"*3\r\n$4\r\nhget\r\n$3\r\nmap\r\n$5\r\nhello\r\n");
    let cmd: Command = RespFrame::decode(&mut buf).unwrap().try_into().unwrap();
    assert_eq!(
        cmd.execute(&mut backend),
        RespFrame::BulkString(BulkString::new(b"world".to_vec()))
    );

    let mut buf = BytesMut::new();
    buf.extend_from_slice(b"*2\r\n$7\r\nhgetall\r\n$3\r\nmap\r\n");
    let cmd: Command = RespFrame::decode(&mut buf).unwrap().try_into().unwrap();
    let ret = cmd.execute(&mut backend);
    assert_eq!(ret.encode(), b"%1\r\n$5\r\nhello\r\n$5\r\nworld\r\n");
}

#[test]
fn test_command_shape_errors() {
    // Not an array at all.
    let err = resp_codec::cmd::parse_command(RespFrame::Integer(5)).unwrap_err();
    assert_eq!(err, CommandError::InvalidCommand);

    // First element is not a bulk string.
    let mut buf = BytesMut::new();
    buf.extend_from_slice(b"*1\r\n:+1\r\n");
    let frame = RespFrame::decode(&mut buf).unwrap();
    let err = resp_codec::cmd::parse_command(frame).unwrap_err();
    assert_eq!(err, CommandError::InvalidCommand);

    // Recognized name with the wrong arity.
    let mut buf = BytesMut::new();
    buf.extend_from_slice(b"*1\r\n$3\r\nget\r\n");
    let frame = RespFrame::decode(&mut buf).unwrap();
    let err = resp_codec::cmd::parse_command(frame).unwrap_err();
    assert_eq!(err, CommandError::InvalidArgument);
}
