use redis_client::codec::{decode_next, encode, find_line_end, scan_frame, Scan};
use redis_client::command::Command;
use redis_client::error::ClientError;
use redis_client::reply::Reply;

fn bulk(text: &str) -> Reply {
    Reply::BulkString(text.as_bytes().to_vec())
}

fn printable(len: usize, seed: usize) -> Vec<u8> {
    (0..len).map(|i| (0x20 + ((seed * 7 + i * 13) % 95)) as u8).collect()
}

#[test]
fn encode_get_frames_each_argument() {
    let command = Command::get(b"key".to_vec());
    assert_eq!(encode(&command), b"*2\r\n$3\r\nGET\r\n$3\r\nkey\r\n".to_vec());
}

#[test]
fn encode_command_without_arguments() {
    assert_eq!(encode(&Command::new(vec![])), b"*0\r\n".to_vec());
}

#[test]
fn encode_empty_argument_keeps_its_frame() {
    let command = Command::set(b"k".to_vec(), Vec::new());
    assert_eq!(encode(&command), b"*3\r\n$3\r\nSET\r\n$1\r\nk\r\n$0\r\n\r\n".to_vec());
}

#[test]
fn encode_is_binary_safe() {
    let command = Command::new(vec![b"a\r\nb".to_vec(), vec![0u8, 255u8]]);
    assert_eq!(encode(&command), b"*2\r\n$4\r\na\r\nb\r\n$2\r\n\x00\xff\r\n".to_vec());
}

#[test]
fn encode_writes_lengths_of_several_digits() {
    let command = Command::new(vec![b"abcdefghijkl".to_vec()]);
    assert_eq!(encode(&command), b"*1\r\n$12\r\nabcdefghijkl\r\n".to_vec());
    let many: Vec<Vec<u8>> = (0..11).map(|_| b"x".to_vec()).collect();
    let bytes = encode(&Command::new(many));
    assert_eq!(&bytes[..5], b"*11\r\n");
    assert_eq!(bytes.len(), 5 + 11 * 7);
}

#[test]
fn decode_simple_string_is_a_string() {
    assert_eq!(decode_next(b"+OK\r\n"), Ok((bulk("OK"), 5)));
}

#[test]
fn decode_bulk_string() {
    assert_eq!(decode_next(b"$5\r\nhello\r\n"), Ok((bulk("hello"), 11)));
}

#[test]
fn decode_bulk_string_with_terminator_inside() {
    assert_eq!(
        decode_next(b"$4\r\na\r\nb\r\n"),
        Ok((Reply::BulkString(b"a\r\nb".to_vec()), 10))
    );
}

#[test]
fn decode_empty_string_is_not_nil() {
    assert_eq!(decode_next(b"$0\r\n\r\n"), Ok((Reply::BulkString(Vec::new()), 6)));
    assert_eq!(decode_next(b"$-1\r\n"), Ok((Reply::Nil, 5)));
    assert_eq!(decode_next(b"+\r\n"), Ok((Reply::BulkString(Vec::new()), 3)));
}

#[test]
fn decode_empty_array_is_not_nil() {
    assert_eq!(decode_next(b"*0\r\n"), Ok((Reply::Array(Vec::new()), 4)));
    assert_eq!(decode_next(b"*-1\r\n"), Ok((Reply::Nil, 5)));
}

#[test]
fn decode_integers() {
    assert_eq!(decode_next(b":0\r\n"), Ok((Reply::Integer(0), 4)));
    assert_eq!(decode_next(b":42\r\n"), Ok((Reply::Integer(42), 5)));
    assert_eq!(decode_next(b":-7\r\n"), Ok((Reply::Integer(-7), 5)));
    assert_eq!(decode_next(b":+7\r\n"), Ok((Reply::Integer(7), 5)));
    assert_eq!(decode_next(b":007\r\n"), Ok((Reply::Integer(7), 6)));
}

#[test]
fn decode_integer_at_the_ends_of_the_range() {
    assert_eq!(
        decode_next(b":9223372036854775807\r\n"),
        Ok((Reply::Integer(i64::MAX), 22))
    );
    assert_eq!(
        decode_next(b":-9223372036854775808\r\n"),
        Ok((Reply::Integer(i64::MIN), 23))
    );
}

#[test]
fn decode_integer_out_of_range_is_decode_error() {
    assert_eq!(decode_next(b":9223372036854775808\r\n"), Err(ClientError::DecodeError));
    assert_eq!(decode_next(b":-9223372036854775809\r\n"), Err(ClientError::DecodeError));
    assert_eq!(
        decode_next(b":123456789012345678901234567890\r\n"),
        Err(ClientError::DecodeError)
    );
    assert_eq!(
        decode_next(b"*1\r\n:9223372036854775808\r\n"),
        Err(ClientError::DecodeError)
    );
}

#[test]
fn decode_integer_that_is_no_numeral_is_framing_error() {
    assert_eq!(decode_next(b":\r\n"), Err(ClientError::FramingError));
    assert_eq!(decode_next(b":-\r\n"), Err(ClientError::FramingError));
    assert_eq!(decode_next(b":12a\r\n"), Err(ClientError::FramingError));
    assert_eq!(decode_next(b": 12\r\n"), Err(ClientError::FramingError));
    assert_eq!(decode_next(b":--1\r\n"), Err(ClientError::FramingError));
}

#[test]
fn decode_error_reply_splits_code_and_message() {
    assert_eq!(
        decode_next(b"-ERR unknown command\r\n"),
        Ok((
            Reply::Error { code: b"ERR".to_vec(), message: b"unknown command".to_vec() },
            22
        ))
    );
    assert_eq!(
        decode_next(b"-WRONGTYPE\r\n"),
        Ok((Reply::Error { code: b"WRONGTYPE".to_vec(), message: Vec::new() }, 12))
    );
    assert_eq!(
        decode_next(b"- lead\r\n"),
        Ok((Reply::Error { code: Vec::new(), message: b"lead".to_vec() }, 8))
    );
}

#[test]
fn decode_array_of_strings() {
    assert_eq!(
        decode_next(b"*2\r\n$1\r\na\r\n$2\r\nbc\r\n"),
        Ok((Reply::Array(vec![bulk("a"), bulk("bc")]), 19))
    );
}

#[test]
fn decode_nested_arrays() {
    let frame = b"*3\r\n*2\r\n:1\r\n*1\r\n$-1\r\n+x\r\n*0\r\n";
    let expected = Reply::Array(vec![
        Reply::Array(vec![Reply::Integer(1), Reply::Array(vec![Reply::Nil])]),
        bulk("x"),
        Reply::Array(Vec::new()),
    ]);
    assert_eq!(decode_next(frame), Ok((expected, frame.len())));
}

#[test]
fn decode_deeply_nested_array() {
    let depth = 200;
    let mut frame: Vec<u8> = Vec::new();
    for _ in 0..depth {
        frame.extend_from_slice(b"*1\r\n");
    }
    frame.extend_from_slice(b":5\r\n");
    let mut expected = Reply::Integer(5);
    for _ in 0..depth {
        expected = Reply::Array(vec![expected]);
    }
    assert_eq!(decode_next(&frame), Ok((expected, frame.len())));
}

#[test]
fn decode_takes_one_frame_and_leaves_the_rest() {
    assert_eq!(decode_next(b"+OK\r\n:1\r\n"), Ok((bulk("OK"), 5)));
    assert_eq!(decode_next(b"$1\r\na\r\ngarbage"), Ok((bulk("a"), 7)));
}

#[test]
fn decode_empty_stream_is_framing_error() {
    assert_eq!(decode_next(b""), Err(ClientError::FramingError));
}

#[test]
fn decode_truncated_bulk_is_framing_error() {
    assert_eq!(decode_next(b"$5\r\nhel"), Err(ClientError::FramingError));
    assert_eq!(decode_next(b"$5\r\nhello"), Err(ClientError::FramingError));
    assert_eq!(decode_next(b"$5\r\nhello\r"), Err(ClientError::FramingError));
    assert_eq!(decode_next(b"$5"), Err(ClientError::FramingError));
}

#[test]
fn decode_every_truncation_is_framing_error() {
    let frames: Vec<&[u8]> = vec![
        b"+OK\r\n",
        b"-ERR no\r\n",
        b":-12\r\n",
        b"$-1\r\n",
        b"$0\r\n\r\n",
        b"$4\r\na\r\nb\r\n",
        b"*0\r\n",
        b"*2\r\n$1\r\na\r\n*1\r\n:3\r\n",
    ];
    for frame in frames {
        assert!(matches!(decode_next(frame), Ok((_, used)) if used == frame.len()));
        for cut in 0..frame.len() {
            assert_eq!(decode_next(&frame[..cut]), Err(ClientError::FramingError));
            assert_eq!(scan_frame(&frame[..cut], 0), Scan::Incomplete);
        }
    }
}

#[test]
fn decode_negative_length_is_framing_error() {
    assert_eq!(decode_next(b"$-2\r\n"), Err(ClientError::FramingError));
    assert_eq!(decode_next(b"*-5\r\n"), Err(ClientError::FramingError));
}

#[test]
fn decode_unparseable_length_is_framing_error() {
    assert_eq!(decode_next(b"$abc\r\n"), Err(ClientError::FramingError));
    assert_eq!(decode_next(b"$\r\n\r\n"), Err(ClientError::FramingError));
    assert_eq!(decode_next(b"*x\r\n"), Err(ClientError::FramingError));
    assert_eq!(decode_next(b"$99999999999999999999\r\n"), Err(ClientError::FramingError));
    assert_eq!(decode_next(b"*99999999999999999999\r\n"), Err(ClientError::FramingError));
}

#[test]
fn decode_unknown_sigil_is_framing_error() {
    assert_eq!(decode_next(b"hello\r\n"), Err(ClientError::FramingError));
    assert_eq!(decode_next(b"\r\n"), Err(ClientError::FramingError));
    assert_eq!(decode_next(b"*1\r\n?\r\n"), Err(ClientError::FramingError));
}

#[test]
fn decode_bulk_without_terminator_is_framing_error() {
    assert_eq!(decode_next(b"$3\r\nabcde\r\n"), Err(ClientError::FramingError));
    assert_eq!(decode_next(b"$3\r\nabc\n\r"), Err(ClientError::FramingError));
}

#[test]
fn decode_length_larger_than_the_bytes_is_framing_error() {
    assert_eq!(decode_next(b"$9223372036854775807\r\nabc\r\n"), Err(ClientError::FramingError));
    assert_eq!(decode_next(b"*3\r\n:1\r\n:2\r\n"), Err(ClientError::FramingError));
}

#[test]
fn scan_tells_unfinished_from_malformed() {
    assert_eq!(scan_frame(b"$5\r\nhel", 0), Scan::Incomplete);
    assert_eq!(scan_frame(b"", 0), Scan::Incomplete);
    assert_eq!(scan_frame(b"+OK", 0), Scan::Incomplete);
    assert_eq!(scan_frame(b"?", 0), Scan::Malformed);
    assert_eq!(scan_frame(b"$-2\r\n", 0), Scan::Malformed);
    assert_eq!(scan_frame(b":9223372036854775808\r\n", 0), Scan::OutOfRange);
    assert_eq!(scan_frame(b"+OK\r\n", 9), Scan::Incomplete);
}

#[test]
fn scan_starts_at_the_given_index() {
    assert_eq!(
        scan_frame(b"+OK\r\n:12\r\n", 5),
        Scan::Complete { reply: Reply::Integer(12), next: 10 }
    );
}

#[test]
fn line_end_is_the_first_terminator() {
    assert_eq!(find_line_end(b"ab\r\ncd\r\n", 0), Some(2));
    assert_eq!(find_line_end(b"ab\r\ncd\r\n", 3), Some(6));
    assert_eq!(find_line_end(b"ab\rcd\n", 0), None);
    assert_eq!(find_line_end(b"ab\r", 0), None);
    assert_eq!(find_line_end(b"", 0), None);
    assert_eq!(find_line_end(b"\r\n", 5), None);
}

#[test]
fn round_trip_of_printable_commands() {
    for count in 0..6usize {
        for len in [0usize, 1, 2, 9, 10, 11, 99, 100, 1000] {
            let args: Vec<Vec<u8>> = (0..count).map(|i| printable(len + i, count + i)).collect();
            let bytes = encode(&Command::new(args.clone()));
            let expected = Reply::Array(args.into_iter().map(Reply::BulkString).collect());
            assert_eq!(decode_next(&bytes), Ok((expected, bytes.len())));
        }
    }
}

#[test]
fn round_trip_of_binary_commands() {
    let all: Vec<u8> = (0..=255u8).collect();
    let args = vec![all.clone(), b"\r\n".to_vec(), Vec::new(), b"$-1\r\n".to_vec(), all];
    let bytes = encode(&Command::new(args.clone()));
    let expected = Reply::Array(args.into_iter().map(Reply::BulkString).collect());
    assert_eq!(decode_next(&bytes), Ok((expected, bytes.len())));
}

#[test]
fn round_trip_of_every_catalog_command() {
    let commands = vec![
        Command::get(b"k".to_vec()),
        Command::set(b"k".to_vec(), b"v".to_vec()),
        Command::lpush(b"k".to_vec(), vec![b"a".to_vec(), b"b".to_vec()]),
        Command::lpop(b"k".to_vec(), 3),
        Command::hset(b"k".to_vec(), b"f".to_vec(), b"v".to_vec()),
        Command::hget(b"k".to_vec(), b"f".to_vec()),
        Command::hgetall(b"k".to_vec()),
        Command::expire(b"k".to_vec(), 60),
        Command::del(vec![b"a".to_vec(), b"b".to_vec()]),
        Command::keys(b"user:*".to_vec()),
        Command::type_of(b"k".to_vec()),
    ];
    for command in commands {
        let bytes = encode(&command);
        let expected =
            Reply::Array(command.args.iter().cloned().map(Reply::BulkString).collect());
        assert_eq!(decode_next(&bytes), Ok((expected, bytes.len())));
    }
}
