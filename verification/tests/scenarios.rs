use std::collections::{BTreeMap, VecDeque};

use redis_client::client::{Action, Event, RedisClient};
use redis_client::codec::decode_next;
use redis_client::error::ClientError;
use redis_client::mapping::Mapping;
use redis_client::outcome::Outcome;
use redis_client::reply::Reply;

enum Stored {
    Text(Vec<u8>),
    List(VecDeque<Vec<u8>>),
    Hash(Vec<(Vec<u8>, Vec<u8>)>),
}

struct Loopback {
    store: BTreeMap<Vec<u8>, Stored>,
    up: bool,
    chunk: usize,
}

fn bulk_frame(bytes: &[u8]) -> Vec<u8> {
    let mut out = format!("${}\r\n", bytes.len()).into_bytes();
    out.extend_from_slice(bytes);
    out.extend_from_slice(b"\r\n");
    out
}

fn array_frame(items: &[Vec<u8>]) -> Vec<u8> {
    let mut out = format!("*{}\r\n", items.len()).into_bytes();
    for item in items {
        out.extend_from_slice(&bulk_frame(item));
    }
    out
}

fn wrong_type() -> Vec<u8> {
    b"-WRONGTYPE Operation against a key holding the wrong kind of value\r\n".to_vec()
}

impl Loopback {
    fn new() -> Loopback {
        Loopback { store: BTreeMap::new(), up: true, chunk: 3 }
    }

    fn serve(&mut self, request: &[u8]) -> Vec<u8> {
        let args: Vec<Vec<u8>> = match decode_next(request) {
            Ok((Reply::Array(items), used)) if used == request.len() => items
                .into_iter()
                .map(|item| match item {
                    Reply::BulkString(bytes) => bytes,
                    other => panic!("argument is no string: {:?}", other),
                })
                .collect(),
            other => panic!("request is no array of strings: {:?}", other),
        };
        let name = String::from_utf8(args[0].clone()).unwrap();
        match name.as_str() {
            "SET" => {
                self.store.insert(args[1].clone(), Stored::Text(args[2].clone()));
                b"+OK\r\n".to_vec()
            }
            "GET" => match self.store.get(&args[1]) {
                None => b"$-1\r\n".to_vec(),
                Some(Stored::Text(value)) => bulk_frame(value),
                Some(_) => wrong_type(),
            },
            "HSET" => {
                let entry =
                    self.store.entry(args[1].clone()).or_insert_with(|| Stored::Hash(Vec::new()));
                match entry {
                    Stored::Hash(fields) => {
                        match fields.iter_mut().find(|(field, _)| field == &args[2]) {
                            Some(pair) => {
                                pair.1 = args[3].clone();
                                b":0\r\n".to_vec()
                            }
                            None => {
                                fields.push((args[2].clone(), args[3].clone()));
                                b":1\r\n".to_vec()
                            }
                        }
                    }
                    _ => wrong_type(),
                }
            }
            "HGET" => match self.store.get(&args[1]) {
                None => b"$-1\r\n".to_vec(),
                Some(Stored::Hash(fields)) => {
                    match fields.iter().find(|(field, _)| field == &args[2]) {
                        Some((_, value)) => bulk_frame(value),
                        None => b"$-1\r\n".to_vec(),
                    }
                }
                Some(_) => wrong_type(),
            },
            "HGETALL" => match self.store.get(&args[1]) {
                None => b"*0\r\n".to_vec(),
                Some(Stored::Hash(fields)) => {
                    let mut flat = Vec::new();
                    for (field, value) in fields {
                        flat.push(field.clone());
                        flat.push(value.clone());
                    }
                    array_frame(&flat)
                }
                Some(_) => wrong_type(),
            },
            "LPUSH" => {
                let entry = self
                    .store
                    .entry(args[1].clone())
                    .or_insert_with(|| Stored::List(VecDeque::new()));
                match entry {
                    Stored::List(list) => {
                        for value in &args[2..] {
                            list.push_front(value.clone());
                        }
                        format!(":{}\r\n", list.len()).into_bytes()
                    }
                    _ => wrong_type(),
                }
            }
            "LPOP" => {
                let count: usize = String::from_utf8(args[2].clone()).unwrap().parse().unwrap();
                match self.store.get_mut(&args[1]) {
                    None => b"*-1\r\n".to_vec(),
                    Some(Stored::List(list)) => {
                        let mut popped = Vec::new();
                        while popped.len() < count {
                            match list.pop_front() {
                                Some(value) => popped.push(value),
                                None => break,
                            }
                        }
                        if list.is_empty() {
                            self.store.remove(&args[1]);
                        }
                        array_frame(&popped)
                    }
                    Some(_) => wrong_type(),
                }
            }
            "DEL" => {
                let mut removed = 0;
                for key in &args[1..] {
                    if self.store.remove(key).is_some() {
                        removed += 1;
                    }
                }
                format!(":{}\r\n", removed).into_bytes()
            }
            "EXPIRE" => {
                if self.store.contains_key(&args[1]) {
                    b":1\r\n".to_vec()
                } else {
                    b":0\r\n".to_vec()
                }
            }
            "KEYS" => {
                let keys: Vec<Vec<u8>> = self.store.keys().cloned().collect();
                array_frame(&keys)
            }
            "TYPE" => match self.store.get(&args[1]) {
                None => b"+none\r\n".to_vec(),
                Some(Stored::Text(_)) => b"+string\r\n".to_vec(),
                Some(Stored::List(_)) => b"+list\r\n".to_vec(),
                Some(Stored::Hash(_)) => b"+hash\r\n".to_vec(),
            },
            other => format!("-ERR unknown command '{}'\r\n", other).into_bytes(),
        }
    }

    fn run(&mut self, client: &mut RedisClient, first: Action) -> Result<Outcome, ClientError> {
        let mut action = first;
        let mut pending: VecDeque<u8> = VecDeque::new();
        loop {
            let event = match action {
                Action::Finish(result) => return result,
                Action::Connect => {
                    if self.up {
                        Event::Connected
                    } else {
                        Event::ConnectFailed
                    }
                }
                Action::Send(bytes) => {
                    if self.up {
                        pending.extend(self.serve(&bytes));
                        Event::Sent
                    } else {
                        Event::SendFailed
                    }
                }
                Action::Receive => {
                    if pending.is_empty() {
                        Event::Closed
                    } else {
                        let take = self.chunk.min(pending.len());
                        Event::Received(pending.drain(..take).collect())
                    }
                }
            };
            action = client.advance(event);
        }
    }
}

fn connected(server: &mut Loopback) -> RedisClient {
    let mut client = RedisClient::new(b"loopback".to_vec());
    let action = client.reconnect();
    assert_eq!(server.run(&mut client, action), Ok(Outcome::Unit));
    client
}

fn text(value: &str) -> Result<Outcome, ClientError> {
    Ok(Outcome::Text(value.as_bytes().to_vec()))
}

#[test]
fn set_then_get_returns_the_value() {
    let mut server = Loopback::new();
    let mut client = connected(&mut server);
    for (key, value) in [("k", "v"), ("", ""), ("k", ""), ("", "v"), ("a b", "line\r\nbreak")] {
        let action = client.cmd_set(key.as_bytes().to_vec(), value.as_bytes().to_vec());
        assert_eq!(server.run(&mut client, action), Ok(Outcome::Unit));
        let action = client.cmd_get(key.as_bytes().to_vec());
        assert_eq!(server.run(&mut client, action), text(value));
        let action = client.get(key.as_bytes().to_vec());
        assert_eq!(server.run(&mut client, action), text(value));
    }
}

#[test]
fn get_of_a_key_never_set_is_absent() {
    let mut server = Loopback::new();
    let mut client = connected(&mut server);
    let action = client.cmd_get(b"missing".to_vec());
    assert_eq!(server.run(&mut client, action), Ok(Outcome::Absent));
    let action = client.get(b"missing".to_vec());
    assert_eq!(server.run(&mut client, action), Ok(Outcome::Absent));
    let action = client.cmd_hget(b"missing".to_vec(), b"f".to_vec());
    assert_eq!(server.run(&mut client, action), Ok(Outcome::Absent));
    let action = client.cmd_lpop(b"missing".to_vec(), 1);
    assert_eq!(server.run(&mut client, action), Ok(Outcome::Absent));
}

#[test]
fn hash_set_then_hash_get_all_returns_the_mapping() {
    let mut server = Loopback::new();
    let mut client = connected(&mut server);
    let action = client.cmd_hset(b"h".to_vec(), b"f".to_vec(), b"v".to_vec());
    assert_eq!(server.run(&mut client, action), Ok(Outcome::Unit));
    let mut expected = Mapping::new();
    expected.insert(b"f".to_vec(), b"v".to_vec());
    let action = client.cmd_hgetall(b"h".to_vec());
    assert_eq!(server.run(&mut client, action), Ok(Outcome::Mapping(expected)));
    let action = client.cmd_hget(b"h".to_vec(), b"f".to_vec());
    assert_eq!(server.run(&mut client, action), text("v"));

    let action = client.cmd_hset(b"h".to_vec(), b"g".to_vec(), b"w".to_vec());
    assert_eq!(server.run(&mut client, action), Ok(Outcome::Unit));
    let action = client.get(b"h".to_vec());
    match server.run(&mut client, action) {
        Ok(Outcome::Mapping(mapping)) => {
            assert_eq!(mapping.len(), 2);
            assert_eq!(mapping.get(b"f"), Some(&b"v".to_vec()));
            assert_eq!(mapping.get(b"g"), Some(&b"w".to_vec()));
        }
        other => panic!("expected the full mapping, got {:?}", other),
    }
}

#[test]
fn hash_get_all_of_a_missing_key_is_absent() {
    let mut server = Loopback::new();
    let mut client = connected(&mut server);
    let action = client.cmd_hgetall(b"missing".to_vec());
    assert_eq!(server.run(&mut client, action), Ok(Outcome::Absent));
}

#[test]
fn delete_counts_the_keys_that_existed() {
    let mut server = Loopback::new();
    let mut client = connected(&mut server);
    for key in ["a", "b", "c"] {
        let action = client.cmd_set(key.as_bytes().to_vec(), b"1".to_vec());
        assert_eq!(server.run(&mut client, action), Ok(Outcome::Unit));
    }
    let action =
        client.cmd_del(vec![b"a".to_vec(), b"x".to_vec(), b"c".to_vec(), b"y".to_vec()]);
    assert_eq!(server.run(&mut client, action), Ok(Outcome::Integer(2)));
    let action = client.cmd_del(vec![b"a".to_vec(), b"x".to_vec()]);
    assert_eq!(server.run(&mut client, action), Ok(Outcome::Integer(0)));
    let action = client.cmd_del(vec![b"b".to_vec()]);
    assert_eq!(server.run(&mut client, action), Ok(Outcome::Integer(1)));
    let action = client.cmd_keys(b"*".to_vec());
    assert_eq!(server.run(&mut client, action), Ok(Outcome::Items(vec![])));
}

#[test]
fn list_push_then_pop_returns_the_item_pushed_last() {
    let mut server = Loopback::new();
    let mut client = connected(&mut server);
    let action = client.cmd_lpush(b"l".to_vec(), vec![b"a".to_vec(), b"b".to_vec()]);
    assert_eq!(server.run(&mut client, action), Ok(Outcome::Unit));
    let action = client.cmd_lpop(b"l".to_vec(), 1);
    assert_eq!(server.run(&mut client, action), Ok(Outcome::Items(vec![b"b".to_vec()])));
    let action = client.cmd_lpop(b"l".to_vec(), 5);
    assert_eq!(server.run(&mut client, action), Ok(Outcome::Items(vec![b"a".to_vec()])));
    let action = client.cmd_lpop(b"l".to_vec(), 1);
    assert_eq!(server.run(&mut client, action), Ok(Outcome::Absent));
}

#[test]
fn reconnect_after_an_outage_restores_service() {
    let mut server = Loopback::new();
    let mut client = connected(&mut server);
    server.up = false;
    let action = client.cmd_get(b"k".to_vec());
    assert_eq!(server.run(&mut client, action), Err(ClientError::TransportError));
    assert!(!client.connection_open());
    let action = client.cmd_get(b"k".to_vec());
    assert_eq!(server.run(&mut client, action), Err(ClientError::ConnectionError));
    let action = client.reconnect();
    assert_eq!(server.run(&mut client, action), Err(ClientError::ConnectFailed));
    assert!(!client.connection_open());

    server.up = true;
    let action = client.reconnect();
    assert_eq!(server.run(&mut client, action), Ok(Outcome::Unit));
    assert!(client.connection_open());
    let action = client.cmd_set(b"k".to_vec(), b"v".to_vec());
    assert_eq!(server.run(&mut client, action), Ok(Outcome::Unit));
    let action = client.cmd_get(b"k".to_vec());
    assert_eq!(server.run(&mut client, action), text("v"));
}

#[test]
fn type_of_a_list_is_list_and_generic_get_is_unsupported() {
    let mut server = Loopback::new();
    let mut client = connected(&mut server);
    let action = client.cmd_lpush(b"l".to_vec(), vec![b"a".to_vec()]);
    assert_eq!(server.run(&mut client, action), Ok(Outcome::Unit));
    let action = client.cmd_type(b"l".to_vec());
    assert_eq!(server.run(&mut client, action), text("list"));
    let action = client.get(b"l".to_vec());
    assert_eq!(server.run(&mut client, action), Err(ClientError::UnsupportedType));
    assert!(client.connection_open());
}

#[test]
fn wrong_type_is_absent_to_reads_and_a_failure_to_writes() {
    let mut server = Loopback::new();
    let mut client = connected(&mut server);
    let action = client.cmd_lpush(b"l".to_vec(), vec![b"a".to_vec()]);
    assert_eq!(server.run(&mut client, action), Ok(Outcome::Unit));
    let action = client.cmd_get(b"l".to_vec());
    assert_eq!(server.run(&mut client, action), Ok(Outcome::Absent));
    let action = client.cmd_hgetall(b"l".to_vec());
    assert_eq!(server.run(&mut client, action), Ok(Outcome::Absent));
    let action = client.cmd_hset(b"l".to_vec(), b"f".to_vec(), b"v".to_vec());
    assert_eq!(
        server.run(&mut client, action),
        Err(ClientError::TypeMismatch {
            detail: b"Operation against a key holding the wrong kind of value".to_vec(),
            code: b"WRONGTYPE".to_vec(),
        })
    );
}

#[test]
fn expire_tells_whether_the_key_existed() {
    let mut server = Loopback::new();
    let mut client = connected(&mut server);
    let action = client.cmd_expire(b"k".to_vec(), 60);
    assert_eq!(server.run(&mut client, action), Ok(Outcome::Integer(0)));
    let action = client.cmd_set(b"k".to_vec(), b"v".to_vec());
    assert_eq!(server.run(&mut client, action), Ok(Outcome::Unit));
    let action = client.cmd_expire(b"k".to_vec(), 60);
    assert_eq!(server.run(&mut client, action), Ok(Outcome::Integer(1)));
}

#[test]
fn results_do_not_depend_on_how_reads_are_cut() {
    for chunk in [1usize, 2, 3, 5, 8, 64] {
        let mut server = Loopback::new();
        server.chunk = chunk;
        let mut client = connected(&mut server);
        let action = client.cmd_hset(b"h".to_vec(), b"field".to_vec(), b"value".to_vec());
        assert_eq!(server.run(&mut client, action), Ok(Outcome::Unit));
        let mut expected = Mapping::new();
        expected.insert(b"field".to_vec(), b"value".to_vec());
        let action = client.get(b"h".to_vec());
        assert_eq!(server.run(&mut client, action), Ok(Outcome::Mapping(expected)));
    }
}

#[test]
fn unknown_command_is_a_server_error() {
    let mut server = Loopback::new();
    let mut client = connected(&mut server);
    let action = client.expect_string(vec![b"NOPE".to_vec()]);
    match server.run(&mut client, action) {
        Err(failure @ ClientError::ServerError { .. }) => {
            assert_eq!(
                failure.message(),
                b"Redis Error: response error\nDetails: unknown command 'NOPE'\nCode: ERR".to_vec()
            );
        }
        other => panic!("expected a server error, got {:?}", other),
    }
    assert!(client.connection_open());
}
