use redis_client::codec::{decode_next, encode};
use redis_client::command::Command;
use redis_client::error::{Category, ClientError};
use redis_client::reply::Reply;

fn packed(args: &[&[u8]]) -> Vec<u8> {
    let mut cmd = redis::Cmd::new();
    for arg in args {
        cmd.arg(*arg);
    }
    cmd.get_packed_command()
}

fn reply_of(value: &redis::Value) -> Reply {
    match value {
        redis::Value::Nil => Reply::Nil,
        redis::Value::Int(i) => Reply::Integer(*i),
        redis::Value::Data(bytes) => Reply::BulkString(bytes.clone()),
        redis::Value::Bulk(items) => Reply::Array(items.iter().map(reply_of).collect()),
        redis::Value::Status(text) => Reply::BulkString(text.clone().into_bytes()),
        redis::Value::Okay => Reply::BulkString(b"OK".to_vec()),
    }
}

#[test]
fn requests_are_packed_as_redis_packs_them() {
    let cases: Vec<Vec<&[u8]>> = vec![
        vec![],
        vec![b"PING"],
        vec![b"GET", b"key"],
        vec![b"SET", b"key", b""],
        vec![b"SET", b"a\r\nb", b"\x00\xff"],
        vec![b"LPUSH", b"k", b"a", b"b", b"c", b"d", b"e", b"f", b"g", b"h", b"i", b"j"],
        vec![b"ECHO", b"0123456789012345678901234567890123456789"],
    ];
    for case in cases {
        let args: Vec<Vec<u8>> = case.iter().map(|arg| arg.to_vec()).collect();
        assert_eq!(encode(&Command::new(args)), packed(&case));
    }
}

#[test]
fn catalog_commands_are_packed_as_redis_packs_them() {
    assert_eq!(encode(&Command::get(b"k".to_vec())), redis::cmd("GET").arg("k").get_packed_command());
    assert_eq!(
        encode(&Command::set(b"k".to_vec(), b"v".to_vec())),
        redis::cmd("SET").arg("k").arg("v").get_packed_command()
    );
    assert_eq!(
        encode(&Command::lpush(b"k".to_vec(), vec![b"a".to_vec(), b"b".to_vec()])),
        redis::cmd("LPUSH").arg("k").arg(vec!["a", "b"]).get_packed_command()
    );
    assert_eq!(
        encode(&Command::lpop(b"k".to_vec(), 25)),
        redis::cmd("LPOP").arg("k").arg(std::num::NonZeroUsize::new(25)).get_packed_command()
    );
    assert_eq!(
        encode(&Command::hset(b"k".to_vec(), b"f".to_vec(), b"v".to_vec())),
        redis::cmd("HSET").arg("k").arg("f").arg("v").get_packed_command()
    );
    assert_eq!(
        encode(&Command::hget(b"k".to_vec(), b"f".to_vec())),
        redis::cmd("HGET").arg("k").arg("f").get_packed_command()
    );
    assert_eq!(
        encode(&Command::hgetall(b"k".to_vec())),
        redis::cmd("HGETALL").arg("k").get_packed_command()
    );
    for seconds in [0u32, 9, 10, 3600, u32::MAX] {
        assert_eq!(
            encode(&Command::expire(b"k".to_vec(), seconds)),
            redis::cmd("EXPIRE").arg("k").arg(seconds as usize).get_packed_command()
        );
    }
    assert_eq!(
        encode(&Command::del(vec![b"a".to_vec(), b"b".to_vec()])),
        redis::cmd("DEL").arg(vec!["a", "b"]).get_packed_command()
    );
    assert_eq!(
        encode(&Command::del(vec![b"a".to_vec()])),
        redis::cmd("DEL").arg("a").get_packed_command()
    );
    assert_eq!(
        encode(&Command::keys(b"user:*".to_vec())),
        redis::cmd("KEYS").arg("user:*").get_packed_command()
    );
    assert_eq!(
        encode(&Command::type_of(b"k".to_vec())),
        redis::cmd("TYPE").arg("k").get_packed_command()
    );
}

#[test]
fn replies_decode_as_redis_parses_them() {
    let frames: Vec<&[u8]> = vec![
        b"+OK\r\n",
        b"+PONG\r\n",
        b"+string\r\n",
        b":0\r\n",
        b":-1\r\n",
        b":9223372036854775807\r\n",
        b":-9223372036854775808\r\n",
        b"$-1\r\n",
        b"*-1\r\n",
        b"$0\r\n\r\n",
        b"$5\r\nhello\r\n",
        b"$4\r\na\r\nb\r\n",
        b"*0\r\n",
        b"*2\r\n$1\r\nf\r\n$1\r\nv\r\n",
        b"*3\r\n:1\r\n*2\r\n+a\r\n$-1\r\n$2\r\nxy\r\n",
    ];
    for frame in frames {
        let value = redis::parse_redis_value(frame).expect("redis parses the frame");
        assert_eq!(decode_next(frame), Ok((reply_of(&value), frame.len())));
    }
}

#[test]
fn unfinished_and_malformed_frames_fail_in_redis_too() {
    let frames: Vec<&[u8]> = vec![
        b"",
        b"$5\r\nhel",
        b"*2\r\n:1\r\n",
        b"+OK",
        b"?what\r\n",
        b":12a\r\n",
        b"$abc\r\n",
        b"$3\r\nabcde\r\n",
    ];
    for frame in frames {
        assert!(redis::parse_redis_value(frame).is_err());
        assert_eq!(decode_next(frame), Err(ClientError::FramingError));
    }
}

#[test]
fn error_replies_split_as_redis_splits_them() {
    let lines = [
        "ERR unknown command 'FOO'",
        "ERR",
        "WRONGTYPE Operation against a key holding the wrong kind of value",
        "MOVED 3999 127.0.0.1:6381",
        "NOSCRIPT No matching script. Please use EVAL.",
        "CUSTOM",
    ];
    for line in lines {
        let frame = format!("-{}\r\n", line).into_bytes();
        let theirs = redis::parse_redis_value(&frame).expect_err("an error reply");
        let ours = match decode_next(&frame) {
            Ok((Reply::Error { code, message }, used)) => {
                assert_eq!(used, frame.len());
                assert_eq!(Some(code.as_slice()), theirs.code().map(str::as_bytes));
                ClientError::classify(code, message)
            }
            other => panic!("expected an error reply, got {:?}", other),
        };
        assert_eq!(ours.category(), theirs.category().as_bytes().to_vec());
        assert_eq!(ours.code(), theirs.code().unwrap_or("unknown").as_bytes().to_vec());
        if theirs.kind() != redis::ErrorKind::ExtensionError || line.contains(' ') {
            assert_eq!(
                ours.detail(),
                theirs.detail().unwrap_or("not specified").as_bytes().to_vec()
            );
        }
    }
}

#[test]
fn known_categories_are_named_as_redis_names_them() {
    let table = [
        ("ERR", Category::Response, redis::ErrorKind::ResponseError),
        ("EXECABORT", Category::ExecAbort, redis::ErrorKind::ExecAbortError),
        ("LOADING", Category::BusyLoading, redis::ErrorKind::BusyLoadingError),
        ("NOSCRIPT", Category::NoScript, redis::ErrorKind::NoScriptError),
        ("MOVED", Category::Moved, redis::ErrorKind::Moved),
        ("ASK", Category::Ask, redis::ErrorKind::Ask),
        ("TRYAGAIN", Category::TryAgain, redis::ErrorKind::TryAgain),
        ("CLUSTERDOWN", Category::ClusterDown, redis::ErrorKind::ClusterDown),
        ("CROSSSLOT", Category::CrossSlot, redis::ErrorKind::CrossSlot),
        ("MASTERDOWN", Category::MasterDown, redis::ErrorKind::MasterDown),
        ("READONLY", Category::ReadOnly, redis::ErrorKind::ReadOnly),
        ("NOTBUSY", Category::NotBusy, redis::ErrorKind::NotBusy),
    ];
    for (token, category, kind) in table {
        let frame = format!("-{} detail\r\n", token).into_bytes();
        let theirs = redis::parse_redis_value(&frame).expect_err("an error reply");
        assert_eq!(theirs.kind(), kind);
        assert_eq!(Category::of_code(token.as_bytes()), Some(category));
        assert_eq!(category.name(), theirs.category());
    }
}

#[test]
fn type_mismatch_categories_are_named_as_redis_names_them() {
    let shape = redis::RedisError::from((redis::ErrorKind::TypeError, "mismatch"));
    assert_eq!(
        ClientError::TypeMismatch { detail: Vec::new(), code: Vec::new() }.category(),
        shape.category().as_bytes().to_vec()
    );
    let frame = b"-WRONGTYPE wrong kind\r\n";
    let extension = redis::parse_redis_value(frame).expect_err("an error reply");
    assert_eq!(extension.kind(), redis::ErrorKind::ExtensionError);
    assert_eq!(
        ClientError::classify(b"WRONGTYPE".to_vec(), b"wrong kind".to_vec()).category(),
        extension.category().as_bytes().to_vec()
    );
    let io = redis::RedisError::from(std::io::Error::from(std::io::ErrorKind::BrokenPipe));
    assert_eq!(ClientError::TransportError.category(), io.category().as_bytes().to_vec());
}
