//! The client: one logical connection to one server, driven from outside.
//!
//! The client does no input or output. An operation answers with the
//! [`Action`] that its driver must perform; the driver performs it and
//! reports what happened as an [`Event`] to [`RedisClient::advance`], until
//! the action is [`Action::Finish`].

use vstd::prelude::*;
use crate::bytes::{byte_strings, copy_bytes, push_all};
use crate::codec::{encode, scan_frame, Scan};
use crate::command::{
    del_request, expire_request, get_request, hget_request, hgetall_request,
    hset_request, keys_request, lpop_request, lpush_request, set_request, type_request, Command,
};
use crate::error::{ClientError, ErrorView};
use crate::grammar::{parse_at, request_frame, Parsed};
use crate::keytype::{key_type_of, KeyType};
use crate::outcome::{coerce, coerced, Expect, Outcome, OutcomeView};
use crate::reply::{Reply, ReplyView};

verus! {

/// The last-known state of the transport.
#[derive(Clone, Copy, Debug, PartialEq, Eq)]
pub enum Link {
    /// No transport has been established.
    Disconnected,
    /// The transport is taken to be open.
    Connected,
    /// The transport failed, or its stream can no longer be trusted.
    Broken,
}

/// What the client is waiting for.
#[derive(Clone, Copy, Debug, PartialEq, Eq)]
pub enum Stage {
    /// No operation is in flight.
    Idle,
    /// The driver is establishing the transport.
    Connecting,
    /// The driver is sending a request.
    Sending,
    /// The driver is receiving the reply.
    Receiving,
}

/// What the operation in flight does with the reply.
#[derive(Clone, Copy, Debug, PartialEq, Eq)]
pub enum Plan {
    /// Coerce it to a typed result.
    Reply(Expect),
    /// Read it as the type of a key, then fetch the key's value by its type.
    Probe,
}

/// What the driver must do next.
#[derive(Debug, PartialEq, Eq)]
pub enum Action {
    /// Discard the transport, if any, and establish a fresh one to the
    /// client's address.
    Connect,
    /// Write these bytes to the transport and flush.
    Send(Vec<u8>),
    /// Read more bytes from the transport.
    Receive,
    /// Nothing: the operation is over, with this result.
    Finish(Result<Outcome, ClientError>),
}

/// The mathematical value of an action.
pub enum ActionView {
    Connect,
    Send(Seq<u8>),
    Receive,
    Finish(Result<OutcomeView, ErrorView>),
}

impl View for Action {
    type V = ActionView;

    open spec fn view(&self) -> ActionView {
        match self {
            Action::Connect => ActionView::Connect,
            Action::Send(bytes) => ActionView::Send(bytes@),
            Action::Receive => ActionView::Receive,
            Action::Finish(Ok(outcome)) => ActionView::Finish(Ok(outcome@)),
            Action::Finish(Err(error)) => ActionView::Finish(Err(error@)),
        }
    }
}

/// What the driver reports.
#[derive(Clone, Debug, PartialEq, Eq)]
pub enum Event {
    /// The transport was established.
    Connected,
    /// The transport could not be established.
    ConnectFailed,
    /// The bytes were written and flushed.
    Sent,
    /// Writing or flushing failed.
    SendFailed,
    /// These bytes were read.
    Received(Vec<u8>),
    /// Reading failed.
    ReceiveFailed,
    /// The stream ended: the other side closed it.
    Closed,
}

/// The mathematical value of an event.
pub enum EventView {
    Connected,
    ConnectFailed,
    Sent,
    SendFailed,
    Received(Seq<u8>),
    ReceiveFailed,
    Closed,
}

impl View for Event {
    type V = EventView;

    open spec fn view(&self) -> EventView {
        match self {
            Event::Connected => EventView::Connected,
            Event::ConnectFailed => EventView::ConnectFailed,
            Event::Sent => EventView::Sent,
            Event::SendFailed => EventView::SendFailed,
            Event::Received(bytes) => EventView::Received(bytes@),
            Event::ReceiveFailed => EventView::ReceiveFailed,
            Event::Closed => EventView::Closed,
        }
    }
}

/// The mathematical value of a client.
pub struct ClientView {
    /// The address that the transport connects to.
    pub address: Seq<u8>,
    /// The last-known state of the transport.
    pub link: Link,
    /// What the client is waiting for.
    pub stage: Stage,
    /// What the operation in flight does with the reply.
    pub plan: Plan,
    /// The key of the generic fetch in flight.
    pub key: Seq<u8>,
    /// The bytes received and not yet decoded.
    pub inbound: Seq<u8>,
}

/// A client that has just been made for `address`.
pub open spec fn fresh(address: Seq<u8>) -> ClientView {
    ClientView {
        address,
        link: Link::Disconnected,
        stage: Stage::Idle,
        plan: Plan::Reply(Expect::Any),
        key: Seq::empty(),
        inbound: Seq::empty(),
    }
}

/// Asking for a connection: whatever was in flight is abandoned, what was
/// received is dropped, and the driver is told to connect.
pub open spec fn reconnecting(c: ClientView) -> (ClientView, ActionView) {
    (
        ClientView {
            link: Link::Disconnected,
            stage: Stage::Connecting,
            inbound: Seq::empty(),
            ..c
        },
        ActionView::Connect,
    )
}

/// Starting an operation that sends `request` and follows `plan`.
///
/// It starts only on an open connection with nothing in flight: the request
/// frame is handed out for sending. Otherwise it fails at once with
/// `ConnectionError`, and the client stays as it was.
pub open spec fn started(c: ClientView, request: Seq<Seq<u8>>, plan: Plan, key: Seq<u8>) -> (
    ClientView,
    ActionView,
) {
    if c.link is Connected && c.stage is Idle {
        (ClientView { stage: Stage::Sending, plan, key, ..c }, ActionView::Send(request_frame(request)))
    } else {
        (c, ActionView::Finish(Err(ErrorView::ConnectionError)))
    }
}

/// Starting an operation of the catalog: it sends `request` and coerces the
/// reply to what `expect` describes.
pub open spec fn asked(c: ClientView, request: Seq<Seq<u8>>, expect: Expect) -> (
    ClientView,
    ActionView,
) {
    started(c, request, Plan::Reply(expect), Seq::empty())
}

/// Failing the operation in flight on a fault of the transport or of the
/// stream: the connection is broken until the next reconnect.
pub open spec fn failed(c: ClientView, error: ErrorView) -> (ClientView, ActionView) {
    (
        ClientView { link: Link::Broken, stage: Stage::Idle, inbound: Seq::empty(), ..c },
        ActionView::Finish(Err(error)),
    )
}

/// The second step of a generic fetch, decided by the key's type tag: a key
/// that holds nothing is absent, a string is fetched as a string, a hash as
/// a mapping, and any other type cannot be fetched.
pub open spec fn probed(c: ClientView, tag: Seq<u8>) -> (ClientView, ActionView) {
    match key_type_of(tag) {
        Some(KeyType::NoKey) => (
            ClientView { stage: Stage::Idle, ..c },
            ActionView::Finish(Ok(OutcomeView::Absent)),
        ),
        Some(KeyType::StringValue) => (
            ClientView { stage: Stage::Sending, plan: Plan::Reply(Expect::MaybeText), ..c },
            ActionView::Send(request_frame(get_request(c.key))),
        ),
        Some(KeyType::Hash) => (
            ClientView { stage: Stage::Sending, plan: Plan::Reply(Expect::MaybeMapping), ..c },
            ActionView::Send(request_frame(hgetall_request(c.key))),
        ),
        _ => (
            ClientView { stage: Stage::Idle, ..c },
            ActionView::Finish(Err(ErrorView::UnsupportedType)),
        ),
    }
}

/// Concluding the exchange in flight with the reply that was decoded.
pub open spec fn concluded(c: ClientView, reply: ReplyView) -> (ClientView, ActionView) {
    match c.plan {
        Plan::Reply(expect) => (
            ClientView { stage: Stage::Idle, ..c },
            ActionView::Finish(coerced(expect, reply)),
        ),
        Plan::Probe => match coerced(Expect::Text, reply) {
            Ok(OutcomeView::Text(tag)) => probed(c, tag),
            Ok(other) => (ClientView { stage: Stage::Idle, ..c }, ActionView::Finish(Ok(other))),
            Err(error) => (ClientView { stage: Stage::Idle, ..c }, ActionView::Finish(Err(error))),
        },
    }
}

/// Looking for the reply in what was received: a whole frame concludes the
/// exchange and leaves the bytes after it; an unfinished one asks for more
/// bytes; anything else breaks the connection.
pub open spec fn scanned(c: ClientView) -> (ClientView, ActionView) {
    match parse_at(c.inbound, 0) {
        Parsed::Complete { reply, next } => concluded(
            ClientView { inbound: c.inbound.skip(next), ..c },
            reply,
        ),
        Parsed::Incomplete => (c, ActionView::Receive),
        Parsed::Malformed => failed(c, ErrorView::FramingError),
        Parsed::OutOfRange => failed(c, ErrorView::DecodeError),
    }
}

/// The client's transition: the state after `event`, and the next action.
///
/// With nothing in flight an event answers nothing: it fails with
/// `ConnectionError` and changes nothing. While connecting, `Connected`
/// opens the connection and anything else leaves it disconnected. While
/// sending, `Sent` turns to the reply and anything else is a transport
/// fault. While receiving, received bytes are added to what was received
/// and the reply is looked for; the end of the stream is a framing fault
/// inside a frame and a transport fault before one; anything else is a
/// transport fault.
pub open spec fn step(c: ClientView, event: EventView) -> (ClientView, ActionView) {
    match c.stage {
        Stage::Idle => (c, ActionView::Finish(Err(ErrorView::ConnectionError))),
        Stage::Connecting => match event {
            EventView::Connected => (
                ClientView { link: Link::Connected, stage: Stage::Idle, ..c },
                ActionView::Finish(Ok(OutcomeView::Unit)),
            ),
            _ => (
                ClientView { link: Link::Disconnected, stage: Stage::Idle, ..c },
                ActionView::Finish(Err(ErrorView::ConnectFailed)),
            ),
        },
        Stage::Sending => match event {
            EventView::Sent => scanned(ClientView { stage: Stage::Receiving, ..c }),
            _ => failed(c, ErrorView::TransportError),
        },
        Stage::Receiving => match event {
            EventView::Received(bytes) => scanned(ClientView { inbound: c.inbound + bytes, ..c }),
            EventView::Closed => if c.inbound.len() == 0 {
                failed(c, ErrorView::TransportError)
            } else {
                failed(c, ErrorView::FramingError)
            },
            _ => failed(c, ErrorView::TransportError),
        },
    }
}

/// A client: the address of its server, the state of its connection, and
/// the exchange in flight.
#[derive(Debug)]
pub struct RedisClient {
    address: Vec<u8>,
    link: Link,
    stage: Stage,
    plan: Plan,
    key: Vec<u8>,
    inbound: Vec<u8>,
}

impl View for RedisClient {
    type V = ClientView;

    closed spec fn view(&self) -> ClientView {
        ClientView {
            address: self.address@,
            link: self.link,
            stage: self.stage,
            plan: self.plan,
            key: self.key@,
            inbound: self.inbound@,
        }
    }
}

impl RedisClient {
    /// A client for the server at `address`, not yet connected.
    pub fn new(address: Vec<u8>) -> (client: RedisClient)
        ensures
            client@ == fresh(address@),
    {
        RedisClient {
            address,
            link: Link::Disconnected,
            stage: Stage::Idle,
            plan: Plan::Reply(Expect::Any),
            key: Vec::new(),
            inbound: Vec::new(),
        }
    }

    /// The address that the transport connects to.
    pub fn address(&self) -> (address: &Vec<u8>)
        ensures
            address@ == self@.address,
    {
        &self.address
    }

    /// The last-known state of the transport.
    pub fn link(&self) -> (link: Link)
        ensures
            link == self@.link,
    {
        self.link
    }

    /// What the client is waiting for.
    pub fn stage(&self) -> (stage: Stage)
        ensures
            stage == self@.stage,
    {
        self.stage
    }

    /// True when the connection was open when last heard of. The server is
    /// not asked: the answer may be stale.
    pub fn connection_open(&self) -> (open: bool)
        ensures
            open == (self@.link is Connected),
    {
        match self.link {
            Link::Connected => true,
            _ => false,
        }
    }

    /// Asks for a fresh connection to the same address.
    pub fn reconnect(&mut self) -> (action: Action)
        ensures
            (final(self)@, action@) == reconnecting(old(self)@),
    {
        self.link = Link::Disconnected;
        self.stage = Stage::Connecting;
        self.inbound = Vec::new();
        Action::Connect
    }

    /// Starts an operation that sends `command` and follows `plan`.
    fn start(&mut self, command: Command, plan: Plan, key: Vec<u8>) -> (action: Action)
        ensures
            (final(self)@, action@) == started(old(self)@, command@, plan, key@),
    {
        let open = match self.link {
            Link::Connected => true,
            _ => false,
        };
        let idle = match self.stage {
            Stage::Idle => true,
            _ => false,
        };
        if open && idle {
            self.stage = Stage::Sending;
            self.plan = plan;
            self.key = key;
            Action::Send(encode(&command))
        } else {
            Action::Finish(Err(ClientError::ConnectionError))
        }
    }

    /// Fails the operation in flight and breaks the connection.
    fn fail(&mut self, error: ClientError) -> (action: Action)
        ensures
            (final(self)@, action@) == failed(old(self)@, error@),
    {
        self.link = Link::Broken;
        self.stage = Stage::Idle;
        self.inbound = Vec::new();
        Action::Finish(Err(error))
    }

    /// Decides the second step of a generic fetch by the key's type tag.
    fn probe(&mut self, tag: Vec<u8>) -> (action: Action)
        ensures
            (final(self)@, action@) == probed(old(self)@, tag@),
    {
        match KeyType::from_tag(tag.as_slice()) {
            Some(KeyType::NoKey) => {
                self.stage = Stage::Idle;
                Action::Finish(Ok(Outcome::Absent))
            },
            Some(KeyType::StringValue) => {
                self.stage = Stage::Sending;
                self.plan = Plan::Reply(Expect::MaybeText);
                let key = copy_bytes(self.key.as_slice());
                Action::Send(encode(&Command::get(key)))
            },
            Some(KeyType::Hash) => {
                self.stage = Stage::Sending;
                self.plan = Plan::Reply(Expect::MaybeMapping);
                let key = copy_bytes(self.key.as_slice());
                Action::Send(encode(&Command::hgetall(key)))
            },
            _ => {
                self.stage = Stage::Idle;
                Action::Finish(Err(ClientError::UnsupportedType))
            },
        }
    }

    /// Concludes the exchange in flight with the reply that was decoded.
    fn conclude(&mut self, reply: Reply) -> (action: Action)
        ensures
            (final(self)@, action@) == concluded(old(self)@, reply@),
    {
        match self.plan {
            Plan::Reply(expect) => {
                self.stage = Stage::Idle;
                Action::Finish(coerce(expect, reply))
            },
            Plan::Probe => match coerce(Expect::Text, reply) {
                Ok(Outcome::Text(tag)) => self.probe(tag),
                Ok(other) => {
                    self.stage = Stage::Idle;
                    Action::Finish(Ok(other))
                },
                Err(error) => {
                    self.stage = Stage::Idle;
                    Action::Finish(Err(error))
                },
            },
        }
    }

    /// Looks for the reply in what was received.
    fn scan(&mut self) -> (action: Action)
        ensures
            (final(self)@, action@) == scanned(old(self)@),
    {
        match scan_frame(self.inbound.as_slice(), 0) {
            Scan::Complete { reply, next } => {
                let rest = self.inbound.split_off(next);
                assert(rest@ =~= old(self)@.inbound.skip(next as int));
                self.inbound = rest;
                self.conclude(reply)
            },
            Scan::Incomplete => Action::Receive,
            Scan::Malformed => self.fail(ClientError::FramingError),
            Scan::OutOfRange => self.fail(ClientError::DecodeError),
        }
    }

    /// Takes the driver's report of what happened and answers with the next
    /// action.
    pub fn advance(&mut self, event: Event) -> (action: Action)
        ensures
            (final(self)@, action@) == step(old(self)@, event@),
    {
        match self.stage {
            Stage::Idle => Action::Finish(Err(ClientError::ConnectionError)),
            Stage::Connecting => match event {
                Event::Connected => {
                    self.link = Link::Connected;
                    self.stage = Stage::Idle;
                    Action::Finish(Ok(Outcome::Unit))
                },
                _ => {
                    self.link = Link::Disconnected;
                    self.stage = Stage::Idle;
                    Action::Finish(Err(ClientError::ConnectFailed))
                },
            },
            Stage::Sending => match event {
                Event::Sent => {
                    self.stage = Stage::Receiving;
                    self.scan()
                },
                _ => self.fail(ClientError::TransportError),
            },
            Stage::Receiving => match event {
                Event::Received(bytes) => {
                    push_all(&mut self.inbound, bytes.as_slice());
                    self.scan()
                },
                Event::Closed => if self.inbound.len() == 0 {
                    self.fail(ClientError::TransportError)
                } else {
                    self.fail(ClientError::FramingError)
                },
                _ => self.fail(ClientError::TransportError),
            },
        }
    }
}

impl RedisClient {
    /// Sends `command` and coerces the reply to what `expect` describes.
    pub fn request(&mut self, command: Command, expect: Expect) -> (action: Action)
        ensures
            (final(self)@, action@) == asked(old(self)@, command@, expect),
    {
        self.start(command, Plan::Reply(expect), Vec::new())
    }

    /// Fetches whatever is stored at `key`: a string, a mapping, or nothing.
    ///
    /// The key's type is asked for first, and its value is then fetched by
    /// that type. The two exchanges are not atomic: the key may change
    /// between them.
    pub fn get(&mut self, key: Vec<u8>) -> (action: Action)
        ensures
            (final(self)@, action@) == started(old(self)@, type_request(key@), Plan::Probe, key@),
    {
        let probe_key = copy_bytes(key.as_slice());
        self.start(Command::type_of(key), Plan::Probe, probe_key)
    }

    /// Sends the command made of `args`; the result is the string replied.
    pub fn expect_string(&mut self, args: Vec<Vec<u8>>) -> (action: Action)
        ensures
            (final(self)@, action@) == asked(old(self)@, byte_strings(args@), Expect::Text),
    {
        self.request(Command::new(args), Expect::Text)
    }

    /// Sends the command made of `args`; the result is the sequence of
    /// strings replied.
    pub fn expect_array(&mut self, args: Vec<Vec<u8>>) -> (action: Action)
        ensures
            (final(self)@, action@) == asked(old(self)@, byte_strings(args@), Expect::Items),
    {
        self.request(Command::new(args), Expect::Items)
    }

    /// Sends the command made of `args`; the result is the integer replied.
    pub fn expect_integer(&mut self, args: Vec<Vec<u8>>) -> (action: Action)
        ensures
            (final(self)@, action@) == asked(old(self)@, byte_strings(args@), Expect::Integer),
    {
        self.request(Command::new(args), Expect::Integer)
    }

    /// Sends the command made of `args`; any reply but an error is ignored.
    pub fn expect_nil(&mut self, args: Vec<Vec<u8>>) -> (action: Action)
        ensures
            (final(self)@, action@) == asked(old(self)@, byte_strings(args@), Expect::Any),
    {
        self.request(Command::new(args), Expect::Any)
    }

    /// Fetches the string stored at `key`, or nothing.
    pub fn cmd_get(&mut self, key: Vec<u8>) -> (action: Action)
        ensures
            (final(self)@, action@) == asked(old(self)@, get_request(key@), Expect::MaybeText),
    {
        self.request(Command::get(key), Expect::MaybeText)
    }

    /// Stores the string `value` at `key`.
    pub fn cmd_set(&mut self, key: Vec<u8>, value: Vec<u8>) -> (action: Action)
        ensures
            (final(self)@, action@) == asked(old(self)@, set_request(key@, value@), Expect::Any),
    {
        self.request(Command::set(key, value), Expect::Any)
    }

    /// Pushes `value`, item by item, onto the head of the list at `key`: the
    /// item pushed last is popped first.
    pub fn cmd_lpush(&mut self, key: Vec<u8>, value: Vec<Vec<u8>>) -> (action: Action)
        ensures
            (final(self)@, action@) == asked(
                old(self)@,
                lpush_request(key@, byte_strings(value@)),
                Expect::Done,
            ),
    {
        self.request(Command::lpush(key, value), Expect::Done)
    }

    /// Pops up to `count` items off the head of the list at `key`, or
    /// nothing.
    pub fn cmd_lpop(&mut self, key: Vec<u8>, count: u32) -> (action: Action)
        ensures
            (final(self)@, action@) == asked(
                old(self)@,
                lpop_request(key@, count as nat),
                Expect::MaybeItems,
            ),
    {
        self.request(Command::lpop(key, count), Expect::MaybeItems)
    }

    /// Gives `field` the value `value` in the hash at `key`.
    pub fn cmd_hset(&mut self, key: Vec<u8>, field: Vec<u8>, value: Vec<u8>) -> (action: Action)
        ensures
            (final(self)@, action@) == asked(
                old(self)@,
                hset_request(key@, field@, value@),
                Expect::Done,
            ),
    {
        self.request(Command::hset(key, field, value), Expect::Done)
    }

    /// Fetches the value of `field` in the hash at `key`, or nothing.
    pub fn cmd_hget(&mut self, key: Vec<u8>, field: Vec<u8>) -> (action: Action)
        ensures
            (final(self)@, action@) == asked(
                old(self)@,
                hget_request(key@, field@),
                Expect::MaybeText,
            ),
    {
        self.request(Command::hget(key, field), Expect::MaybeText)
    }

    /// Fetches the hash at `key` as a mapping, or nothing when it has no
    /// field.
    pub fn cmd_hgetall(&mut self, key: Vec<u8>) -> (action: Action)
        ensures
            (final(self)@, action@) == asked(
                old(self)@,
                hgetall_request(key@),
                Expect::MaybeMapping,
            ),
    {
        self.request(Command::hgetall(key), Expect::MaybeMapping)
    }

    /// Lets `key` expire after `seconds` seconds; the result is the
    /// server's integer: 1 when the key exists, 0 when it does not.
    pub fn cmd_expire(&mut self, key: Vec<u8>, seconds: u32) -> (action: Action)
        ensures
            (final(self)@, action@) == asked(
                old(self)@,
                expire_request(key@, seconds as nat),
                Expect::Integer,
            ),
    {
        self.request(Command::expire(key, seconds), Expect::Integer)
    }

    /// Deletes the keys `key`; the result is the server's integer: the
    /// number of keys that it removed.
    pub fn cmd_del(&mut self, key: Vec<Vec<u8>>) -> (action: Action)
        ensures
            (final(self)@, action@) == asked(
                old(self)@,
                del_request(byte_strings(key@)),
                Expect::Integer,
            ),
    {
        self.request(Command::del(key), Expect::Integer)
    }

    /// Lists the keys that match the glob `pattern`.
    pub fn cmd_keys(&mut self, pattern: Vec<u8>) -> (action: Action)
        ensures
            (final(self)@, action@) == asked(old(self)@, keys_request(pattern@), Expect::Items),
    {
        self.request(Command::keys(pattern), Expect::Items)
    }

    /// Asks for the type of the value stored at `key`; the result is the
    /// type tag.
    pub fn cmd_type(&mut self, key: Vec<u8>) -> (action: Action)
        ensures
            (final(self)@, action@) == asked(old(self)@, type_request(key@), Expect::Text),
    {
        self.request(Command::type_of(key), Expect::Text)
    }
}

} // verus!
