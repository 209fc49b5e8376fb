use redis_cli::reply::{render, Reply};
use redis_cli::wire::{decode_reply, DecodeError};

fn bulk(s: &str) -> Reply {
    Reply::BulkString(s.as_bytes().to_vec())
}

#[test]
fn decode_array_with_nil() {
    let stream = b"*2\r\n$1\r\nc\r\n$-1\r\n";
    let (r, end) = decode_reply(stream, 0).unwrap();
    assert_eq!(r, Reply::Array(vec![bulk("c"), Reply::Nil]));
    assert_eq!(end, stream.len());
    assert_eq!(render(&r), "1) \"c\"\n2) (nil)\n");
}

#[test]
fn decode_scalars() {
    assert_eq!(decode_reply(b":42\r\n", 0), Ok((Reply::Integer(42), 5)));
    assert_eq!(decode_reply(b":-7\r\n", 0), Ok((Reply::Integer(-7), 5)));
    assert_eq!(
        decode_reply(b":-9223372036854775808\r\n", 0),
        Ok((Reply::Integer(i64::MIN), 23))
    );
    assert_eq!(decode_reply(b"+OK\r\n", 0), Ok((Reply::Status(String::from("OK")), 5)));
    assert_eq!(
        decode_reply(b"-ERR bad\r\n", 0),
        Ok((Reply::Status(String::from("ERR bad")), 10))
    );
    assert_eq!(decode_reply(b"*-1\r\n", 0), Ok((Reply::Nil, 5)));
    assert_eq!(decode_reply(b"*0\r\n", 0), Ok((Reply::Array(vec![]), 4)));
    assert_eq!(decode_reply(b"$0\r\n\r\n", 0), Ok((bulk(""), 6)));
}

#[test]
fn decode_binary_and_nested() {
    assert_eq!(
        decode_reply(b"$4\r\na\r\nb\r\n", 0),
        Ok((Reply::BulkString(b"a\r\nb".to_vec()), 10))
    );
    let stream = b"*2\r\n*1\r\n:1\r\n$2\r\n\xff\x00\r\n";
    assert_eq!(
        decode_reply(stream, 0),
        Ok((
            Reply::Array(vec![
                Reply::Array(vec![Reply::Integer(1)]),
                Reply::BulkString(vec![0xff, 0x00]),
            ]),
            stream.len()
        ))
    );
}

#[test]
fn decode_reads_one_reply_only() {
    let stream = b":1\r\n:2\r\n";
    let (first, end) = decode_reply(stream, 0).unwrap();
    assert_eq!((first, end), (Reply::Integer(1), 4));
    assert_eq!(decode_reply(stream, end), Ok((Reply::Integer(2), 8)));
    assert_eq!(decode_reply(stream, 8), Err(DecodeError::Desync));
}

#[test]
fn decode_errors() {
    // short payload, missing terminator, no line end
    assert_eq!(decode_reply(b"$5\r\nab\r\n", 0), Err(DecodeError::Desync));
    assert_eq!(decode_reply(b"$2\r\nabcd", 0), Err(DecodeError::Desync));
    assert_eq!(decode_reply(b":12", 0), Err(DecodeError::Desync));
    // malformed numbers
    assert_eq!(decode_reply(b":1x\r\n", 0), Err(DecodeError::Desync));
    assert_eq!(decode_reply(b":\r\n", 0), Err(DecodeError::Desync));
    assert_eq!(decode_reply(b":-\r\n", 0), Err(DecodeError::Desync));
    assert_eq!(decode_reply(b":9223372036854775808\r\n", 0), Err(DecodeError::Desync));
    // a line without a tag, and an array cut short
    assert_eq!(decode_reply(b"\r\n", 0), Err(DecodeError::Desync));
    assert_eq!(decode_reply(b"*2\r\n:1\r\n", 0), Err(DecodeError::Desync));
    assert_eq!(decode_reply(b"*1\r\n\r\n", 0), Err(DecodeError::Desync));
    // a status that is not UTF-8
    assert_eq!(decode_reply(b"+\xff\r\n", 0), Err(DecodeError::Desync));
}
