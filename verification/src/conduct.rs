//! What holds of the client's conduct: when a connection opens, what an
//! exchange gives for a reply, and what a fetch does with each type of key.

use vstd::prelude::*;
use vstd::string::is_ascii_spec_bytes;
use crate::bytes::text;
use crate::client::{
    asked, concluded, fresh, reconnecting, started, step, ActionView, ClientView,
    EventView, Link, Plan, Stage,
};
use crate::command::{
    del_request, get_request, hgetall_request, hset_request, lemma_names_are_short,
    lpop_request, lpush_request, set_request, type_request,
};
use crate::error::ErrorView;
use crate::codec::decoded;
use crate::framing::{lemma_decode_of_request, lemma_frame_bounds, lemma_truncated_frame};
use crate::grammar::{parse_at, request_frame, Parsed};
use crate::keytype::{key_type_of, KeyType};
use crate::outcome::{coerced, pairs_map, Expect, OutcomeView};
use crate::reply::{bulk_contents, bulk_replies, ReplyView};

verus! {

/// True when the state of a client hangs together: an exchange is in flight
/// only on an open connection, a connection that is being established is not
/// open yet, and nothing received is kept from a connection that is not open.
pub open spec fn coherent(c: ClientView) -> bool {
    &&& (c.stage is Sending || c.stage is Receiving) ==> c.link is Connected
    &&& c.stage is Connecting ==> c.link is Disconnected
    &&& !(c.link is Connected) ==> c.inbound.len() == 0
}

/// A fresh client is coherent, and every transition keeps a client so.
pub proof fn lemma_stays_coherent(
    c: ClientView,
    address: Seq<u8>,
    request: Seq<Seq<u8>>,
    plan: Plan,
    key: Seq<u8>,
    event: EventView,
)
    requires
        coherent(c),
    ensures
        coherent(fresh(address)),
        coherent(reconnecting(c).0),
        coherent(started(c, request, plan, key).0),
        coherent(step(c, event).0),
{
}

/// A connection opens on the driver's word alone: no operation and no other
/// event turns a connection that is not open into an open one.
pub proof fn lemma_opens_only_on_connect(
    c: ClientView,
    request: Seq<Seq<u8>>,
    plan: Plan,
    key: Seq<u8>,
    event: EventView,
)
    ensures
        started(c, request, plan, key).0.link == c.link,
        step(c, event).0.link is Connected ==> c.link is Connected || (c.stage is Connecting
            && event is Connected),
{
}

/// On a connection that is not open every operation fails at once with a
/// connection error, and changes nothing.
pub proof fn lemma_closed_fails_fast(c: ClientView, request: Seq<Seq<u8>>, plan: Plan, key: Seq<u8>)
    requires
        !(c.link is Connected),
    ensures
        started(c, request, plan, key) == (c, ActionView::Finish(Err(ErrorView::ConnectionError))),
{
}

/// After a reconnect that succeeds the connection is open, whatever state
/// the client was in before, and the next operation is sent.
pub proof fn lemma_reconnect_opens(c: ClientView, request: Seq<Seq<u8>>, plan: Plan, key: Seq<u8>)
    ensures
        ({
            let (open, done) = step(reconnecting(c).0, EventView::Connected);
            &&& done == ActionView::Finish(Ok(OutcomeView::Unit))
            &&& open.link is Connected
            &&& open.stage is Idle
            &&& started(open, request, plan, key).1 == ActionView::Send(request_frame(request))
        }),
{
}

/// After a reconnect that fails the connection is not open.
pub proof fn lemma_reconnect_fails(c: ClientView, event: EventView)
    requires
        !(event is Connected),
    ensures
        ({
            let (closed, done) = step(reconnecting(c).0, event);
            &&& done == ActionView::Finish(Err(ErrorView::ConnectFailed))
            &&& closed.link is Disconnected
            &&& closed.stage is Idle
        }),
{
}

/// However a reply is cut into reads, the result is the same: bytes that
/// arrive in two reads, the first of which completes no frame, do what they
/// would have done in one.
pub proof fn lemma_reads_may_be_cut(c: ClientView, first: Seq<u8>, second: Seq<u8>)
    requires
        c.stage is Receiving,
        parse_at(c.inbound + first, 0) is Incomplete,
    ensures
        step(step(c, EventView::Received(first)).0, EventView::Received(second)) == step(
            c,
            EventView::Received(first + second),
        ),
{
    assert((c.inbound + first) + second =~= c.inbound + (first + second));
}

/// True when `bytes` are one whole frame of `reply`, and nothing more.
pub open spec fn frames(bytes: Seq<u8>, reply: ReplyView) -> bool {
    parse_at(bytes, 0) == (Parsed::Complete { reply, next: bytes.len() as int })
}

/// One whole exchange on an idle client: the operation is started, the
/// driver reports the request sent, and then `received` as read.
pub open spec fn exchange(
    c: ClientView,
    request: Seq<Seq<u8>>,
    plan: Plan,
    key: Seq<u8>,
    received: Seq<u8>,
) -> (ClientView, ActionView) {
    let sending = started(c, request, plan, key).0;
    let receiving = step(sending, EventView::Sent).0;
    step(receiving, EventView::Received(received))
}

/// An exchange whose read brings one whole frame concludes with its reply,
/// and leaves nothing behind.
pub proof fn lemma_exchange_concludes(
    c: ClientView,
    request: Seq<Seq<u8>>,
    plan: Plan,
    key: Seq<u8>,
    received: Seq<u8>,
    reply: ReplyView,
)
    requires
        c.link is Connected,
        c.stage is Idle,
        c.inbound.len() == 0,
        frames(received, reply),
    ensures
        started(c, request, plan, key).1 == ActionView::Send(request_frame(request)),
        step(started(c, request, plan, key).0, EventView::Sent).1 == ActionView::Receive,
        exchange(c, request, plan, key, received) == concluded(
            ClientView { stage: Stage::Receiving, plan, key, ..c },
            reply,
        ),
{
    let sending = started(c, request, plan, key).0;
    assert(sending.inbound =~= Seq::<u8>::empty());
    let receiving = step(sending, EventView::Sent).0;
    assert(receiving == ClientView { stage: Stage::Receiving, ..sending });
    assert(receiving.inbound + received =~= received);
    assert(received.skip(received.len() as int) =~= c.inbound);
}

/// An operation of the catalog whose read brings one whole frame finishes
/// with the typed result of its reply, on a client that is idle again.
pub proof fn lemma_exchange_result(
    c: ClientView,
    request: Seq<Seq<u8>>,
    expect: Expect,
    received: Seq<u8>,
    reply: ReplyView,
)
    requires
        c.link is Connected,
        c.stage is Idle,
        c.inbound.len() == 0,
        frames(received, reply),
    ensures
        asked(c, request, expect).1 == ActionView::Send(request_frame(request)),
        exchange(c, request, Plan::Reply(expect), Seq::empty(), received) == (
            ClientView { plan: Plan::Reply(expect), key: Seq::empty(), ..c },
            ActionView::Finish(coerced(expect, reply)),
        ),
{
    lemma_exchange_concludes(c, request, Plan::Reply(expect), Seq::empty(), received, reply);
}

/// A reply that is cut short gives no value: the client asks for more bytes,
/// and when the stream ends there, the exchange fails with a framing error
/// and the connection is broken.
pub proof fn lemma_truncated_reply_fails(c: ClientView, whole: Seq<u8>, k: int)
    requires
        c.stage is Receiving,
        c.inbound.len() == 0,
        parse_at(whole, 0) matches Parsed::Complete { next, .. } && 0 < k < next,
    ensures
        ({
            let (waiting, more) = step(c, EventView::Received(whole.take(k)));
            &&& more == ActionView::Receive
            &&& step(waiting, EventView::Closed) == (
                ClientView { link: Link::Broken, stage: Stage::Idle, ..c },
                ActionView::Finish(Err(ErrorView::FramingError)),
            )
        }),
{
    lemma_frame_bounds(whole, 0);
    lemma_truncated_frame(whole, 0, k);
    assert(c.inbound + whole.take(k) =~= whole.take(k));
    assert(c.inbound =~= Seq::<u8>::empty());
}

/// A get whose reply carries the bytes `value` returns exactly those bytes,
/// empty or not; one whose reply is nil returns `Absent`, not a failure.
pub proof fn lemma_get_result(c: ClientView, key: Seq<u8>, value: Seq<u8>, received: Seq<u8>)
    requires
        c.link is Connected,
        c.stage is Idle,
        c.inbound.len() == 0,
    ensures
        frames(received, ReplyView::BulkString(value)) ==> exchange(
            c,
            get_request(key),
            Plan::Reply(Expect::MaybeText),
            Seq::empty(),
            received,
        ).1 == ActionView::Finish(Ok(OutcomeView::Text(value))),
        frames(received, ReplyView::Nil) ==> exchange(
            c,
            get_request(key),
            Plan::Reply(Expect::MaybeText),
            Seq::empty(),
            received,
        ).1 == ActionView::Finish(Ok(OutcomeView::Absent)),
{
    if frames(received, ReplyView::BulkString(value)) {
        lemma_exchange_result(
            c,
            get_request(key),
            Expect::MaybeText,
            received,
            ReplyView::BulkString(value),
        );
    }
    if frames(received, ReplyView::Nil) {
        lemma_exchange_result(c, get_request(key), Expect::MaybeText, received, ReplyView::Nil);
    }
}

/// A delete returns the count that the server replied, as it is.
pub proof fn lemma_del_result(c: ClientView, keys: Seq<Seq<u8>>, count: int, received: Seq<u8>)
    requires
        c.link is Connected,
        c.stage is Idle,
        c.inbound.len() == 0,
        frames(received, ReplyView::Integer(count)),
    ensures
        exchange(
            c,
            del_request(keys),
            Plan::Reply(Expect::Integer),
            Seq::empty(),
            received,
        ).1 == ActionView::Finish(Ok(OutcomeView::Integer(count))),
{
    lemma_exchange_result(
        c,
        del_request(keys),
        Expect::Integer,
        received,
        ReplyView::Integer(count),
    );
}

/// A pop whose reply is an array of strings returns those strings, in the
/// order in which the server sent them.
pub proof fn lemma_lpop_result(
    c: ClientView,
    key: Seq<u8>,
    count: nat,
    items: Seq<Seq<u8>>,
    received: Seq<u8>,
)
    requires
        c.link is Connected,
        c.stage is Idle,
        c.inbound.len() == 0,
        frames(received, ReplyView::Array(bulk_replies(items))),
    ensures
        exchange(
            c,
            lpop_request(key, count),
            Plan::Reply(Expect::MaybeItems),
            Seq::empty(),
            received,
        ).1 == ActionView::Finish(Ok(OutcomeView::Items(items))),
{
    let reply = ReplyView::Array(bulk_replies(items));
    lemma_exchange_result(c, lpop_request(key, count), Expect::MaybeItems, received, reply);
    assert(bulk_contents(bulk_replies(items)) =~= items);
}

/// A fetch of all fields whose reply holds `field` and then `value` returns
/// the mapping with that one entry.
pub proof fn lemma_hgetall_result(
    c: ClientView,
    key: Seq<u8>,
    field: Seq<u8>,
    value: Seq<u8>,
    received: Seq<u8>,
)
    requires
        c.link is Connected,
        c.stage is Idle,
        c.inbound.len() == 0,
        frames(received, ReplyView::Array(bulk_replies(seq![field, value]))),
    ensures
        exchange(
            c,
            hgetall_request(key),
            Plan::Reply(Expect::MaybeMapping),
            Seq::empty(),
            received,
        ).1 == ActionView::Finish(
            Ok(OutcomeView::Mapping(Map::<Seq<u8>, Seq<u8>>::empty().insert(field, value))),
        ),
{
    let flat = seq![field, value];
    let reply = ReplyView::Array(bulk_replies(flat));
    lemma_exchange_result(c, hgetall_request(key), Expect::MaybeMapping, received, reply);
    assert(bulk_contents(bulk_replies(flat)) =~= flat);
    assert(flat.take(0).len() == 0);
    assert(pairs_map(flat.take(flat.len() - 2)) == Map::<Seq<u8>, Seq<u8>>::empty());
}

/// The bytes of the type tags.
pub proof fn lemma_tag_bytes()
    ensures
        text("none") == seq![110u8, 111u8, 110u8, 101u8],
        text("string") == seq![115u8, 116u8, 114u8, 105u8, 110u8, 103u8],
        text("list") == seq![108u8, 105u8, 115u8, 116u8],
        text("hash") == seq![104u8, 97u8, 115u8, 104u8],
        text("set") == seq![115u8, 101u8, 116u8],
        text("zset") == seq![122u8, 115u8, 101u8, 116u8],
        text("stream") == seq![115u8, 116u8, 114u8, 101u8, 97u8, 109u8],
{
    broadcast use is_ascii_spec_bytes;

    reveal_strlit("none");
    reveal_strlit("string");
    reveal_strlit("list");
    reveal_strlit("hash");
    reveal_strlit("set");
    reveal_strlit("zset");
    reveal_strlit("stream");
    assert(vstd::string::is_ascii("none"));
    assert(vstd::string::is_ascii("string"));
    assert(vstd::string::is_ascii("list"));
    assert(vstd::string::is_ascii("hash"));
    assert(vstd::string::is_ascii("set"));
    assert(vstd::string::is_ascii("zset"));
    assert(vstd::string::is_ascii("stream"));
    assert(text("none") =~= seq![110u8, 111u8, 110u8, 101u8]);
    assert(text("string") =~= seq![115u8, 116u8, 114u8, 105u8, 110u8, 103u8]);
    assert(text("list") =~= seq![108u8, 105u8, 115u8, 116u8]);
    assert(text("hash") =~= seq![104u8, 97u8, 115u8, 104u8]);
    assert(text("set") =~= seq![115u8, 101u8, 116u8]);
    assert(text("zset") =~= seq![122u8, 115u8, 101u8, 116u8]);
    assert(text("stream") =~= seq![115u8, 116u8, 114u8, 101u8, 97u8, 109u8]);
}

/// Each type tag names its own type.
pub proof fn lemma_tag_types()
    ensures
        key_type_of(text("none")) == Some(KeyType::NoKey),
        key_type_of(text("string")) == Some(KeyType::StringValue),
        key_type_of(text("list")) == Some(KeyType::List),
        key_type_of(text("hash")) == Some(KeyType::Hash),
        key_type_of(text("set")) == Some(KeyType::SetValue),
        key_type_of(text("zset")) == Some(KeyType::SortedSet),
        key_type_of(text("stream")) == Some(KeyType::Stream),
{
    lemma_tag_bytes();
    let none = seq![110u8, 111u8, 110u8, 101u8];
    let string = seq![115u8, 116u8, 114u8, 105u8, 110u8, 103u8];
    let list = seq![108u8, 105u8, 115u8, 116u8];
    let hash = seq![104u8, 97u8, 115u8, 104u8];
    let set = seq![115u8, 101u8, 116u8];
    let zset = seq![122u8, 115u8, 101u8, 116u8];
    let stream = seq![115u8, 116u8, 114u8, 101u8, 97u8, 109u8];
    assert(none[0] != list[0] && none[0] != hash[0] && none[0] != zset[0]);
    assert(list[0] != hash[0] && list[0] != zset[0] && hash[0] != zset[0]);
    assert(string[3] != stream[3]);
    assert(none.len() == 4 && list.len() == 4 && hash.len() == 4 && zset.len() == 4);
    assert(string.len() == 6 && stream.len() == 6 && set.len() == 3);
}

/// The first exchange of a generic fetch: the type of `key` is asked for,
/// and `received` is read in answer.
pub open spec fn fetch(c: ClientView, key: Seq<u8>, received: Seq<u8>) -> (ClientView, ActionView) {
    exchange(c, type_request(key), Plan::Probe, key, received)
}

/// What a generic fetch does with each type of key. A key that holds
/// nothing is absent. A string is fetched with a get, a hash with a fetch of
/// all its fields. A list, a set, a sorted set, a stream, and any tag that
/// names no type, fail as a type that cannot be fetched: not as a server
/// error, and not as a type mismatch.
pub proof fn lemma_fetch_by_type(c: ClientView, key: Seq<u8>, tag: Seq<u8>, received: Seq<u8>)
    requires
        c.link is Connected,
        c.stage is Idle,
        c.inbound.len() == 0,
        frames(received, ReplyView::BulkString(tag)),
    ensures
        tag == text("none") ==> fetch(c, key, received).1 == ActionView::Finish(
            Ok(OutcomeView::Absent),
        ),
        tag == text("string") ==> fetch(c, key, received) == (
            ClientView {
                stage: Stage::Sending,
                plan: Plan::Reply(Expect::MaybeText),
                key,
                ..c
            },
            ActionView::Send(request_frame(get_request(key))),
        ),
        tag == text("hash") ==> fetch(c, key, received) == (
            ClientView {
                stage: Stage::Sending,
                plan: Plan::Reply(Expect::MaybeMapping),
                key,
                ..c
            },
            ActionView::Send(request_frame(hgetall_request(key))),
        ),
        tag != text("none") && tag != text("string") && tag != text("hash") ==> fetch(
            c,
            key,
            received,
        ).1 == ActionView::Finish(Err(ErrorView::UnsupportedType)),
{
    lemma_tag_types();
    lemma_exchange_concludes(
        c,
        type_request(key),
        Plan::Probe,
        key,
        received,
        ReplyView::BulkString(tag),
    );
}

/// A type query on a key that holds a list returns `list`, and a generic
/// fetch of that key fails as a type that cannot be fetched.
pub proof fn lemma_list_is_unsupported(c: ClientView, key: Seq<u8>, received: Seq<u8>)
    requires
        c.link is Connected,
        c.stage is Idle,
        c.inbound.len() == 0,
        frames(received, ReplyView::BulkString(text("list"))),
    ensures
        exchange(
            c,
            type_request(key),
            Plan::Reply(Expect::Text),
            Seq::empty(),
            received,
        ).1 == ActionView::Finish(Ok(OutcomeView::Text(text("list")))),
        fetch(c, key, received).1 == ActionView::Finish(Err(ErrorView::UnsupportedType)),
{
    lemma_tag_types();
    lemma_exchange_result(
        c,
        type_request(key),
        Expect::Text,
        received,
        ReplyView::BulkString(text("list")),
    );
    lemma_fetch_by_type(c, key, text("list"), received);
}

/// A set followed by a get returns the value that was set. The set's request
/// gives the server the key and the value, byte for byte, and finishes when
/// the server acknowledges it; the get's request names the same key, and a
/// reply that carries the value returns exactly that value.
pub proof fn lemma_set_then_get(
    c: ClientView,
    key: Seq<u8>,
    value: Seq<u8>,
    acknowledged: Seq<u8>,
    ok: Seq<u8>,
    answered: Seq<u8>,
)
    requires
        c.link is Connected,
        c.stage is Idle,
        c.inbound.len() == 0,
        key.len() <= i64::MAX,
        value.len() <= i64::MAX,
        frames(acknowledged, ReplyView::BulkString(ok)),
        frames(answered, ReplyView::BulkString(value)),
    ensures
        ({
            let set = set_request(key, value);
            let get = get_request(key);
            let (after, done) = exchange(
                c,
                set,
                Plan::Reply(Expect::Any),
                Seq::empty(),
                acknowledged,
            );
            &&& decoded(request_frame(set)) matches Ok((ReplyView::Array(sent), _)) && sent
                == bulk_replies(seq![text("SET"), key, value])
            &&& done == ActionView::Finish(Ok(OutcomeView::Unit))
            &&& decoded(request_frame(get)) matches Ok((ReplyView::Array(named), _)) && named
                == bulk_replies(seq![text("GET"), key])
            &&& exchange(after, get, Plan::Reply(Expect::MaybeText), Seq::empty(), answered).1
                == ActionView::Finish(Ok(OutcomeView::Text(value)))
        }),
{
    let set = set_request(key, value);
    let get = get_request(key);
    lemma_names_are_short();
    lemma_decode_of_request(set);
    lemma_decode_of_request(get);
    lemma_exchange_result(c, set, Expect::Any, acknowledged, ReplyView::BulkString(ok));
    let after = exchange(c, set, Plan::Reply(Expect::Any), Seq::empty(), acknowledged).0;
    lemma_get_result(after, key, value, answered);
}

/// A generic fetch of a key that holds a hash asks for all fields of the
/// hash, and returns the mapping that the reply lists.
pub proof fn lemma_fetch_of_hash(
    c: ClientView,
    key: Seq<u8>,
    field: Seq<u8>,
    value: Seq<u8>,
    tagged: Seq<u8>,
    listed: Seq<u8>,
)
    requires
        c.link is Connected,
        c.stage is Idle,
        c.inbound.len() == 0,
        frames(tagged, ReplyView::BulkString(text("hash"))),
        frames(listed, ReplyView::Array(bulk_replies(seq![field, value]))),
    ensures
        ({
            let (probing, next) = fetch(c, key, tagged);
            &&& next == ActionView::Send(request_frame(hgetall_request(key)))
            &&& step(step(probing, EventView::Sent).0, EventView::Received(listed)).1
                == ActionView::Finish(
                Ok(OutcomeView::Mapping(Map::<Seq<u8>, Seq<u8>>::empty().insert(field, value))),
            )
        }),
{
    let flat = seq![field, value];
    lemma_fetch_by_type(c, key, text("hash"), tagged);
    let probing = fetch(c, key, tagged).0;
    assert(probing.inbound =~= Seq::<u8>::empty());
    let receiving = step(probing, EventView::Sent).0;
    assert(receiving == ClientView { stage: Stage::Receiving, ..probing });
    assert(receiving.inbound + listed =~= listed);
    assert(bulk_contents(bulk_replies(flat)) =~= flat);
    assert(flat.take(0).len() == 0);
    assert(pairs_map(flat.take(flat.len() - 2)) == Map::<Seq<u8>, Seq<u8>>::empty());
}

/// A hash-set followed by a fetch of all fields returns the mapping that
/// holds the field with its value. The hash-set's request gives the server
/// the key, the field and the value, byte for byte; a reply that lists the
/// field and the value returns the mapping of that one entry.
pub proof fn lemma_hset_then_hgetall(
    c: ClientView,
    key: Seq<u8>,
    field: Seq<u8>,
    value: Seq<u8>,
    counted: Seq<u8>,
    count: int,
    listed: Seq<u8>,
)
    requires
        c.link is Connected,
        c.stage is Idle,
        c.inbound.len() == 0,
        key.len() <= i64::MAX,
        field.len() <= i64::MAX,
        value.len() <= i64::MAX,
        frames(counted, ReplyView::Integer(count)),
        frames(listed, ReplyView::Array(bulk_replies(seq![field, value]))),
    ensures
        ({
            let hset = hset_request(key, field, value);
            let (after, done) = exchange(c, hset, Plan::Reply(Expect::Done), Seq::empty(), counted);
            &&& decoded(request_frame(hset)) matches Ok((ReplyView::Array(sent), _)) && sent
                == bulk_replies(seq![text("HSET"), key, field, value])
            &&& done == ActionView::Finish(Ok(OutcomeView::Unit))
            &&& after.link is Connected && after.stage is Idle && after.inbound.len() == 0
            &&& exchange(
                after,
                hgetall_request(key),
                Plan::Reply(Expect::MaybeMapping),
                Seq::empty(),
                listed,
            ).1 == ActionView::Finish(
                Ok(OutcomeView::Mapping(Map::<Seq<u8>, Seq<u8>>::empty().insert(field, value))),
            )
        }),
{
    let hset = hset_request(key, field, value);
    lemma_names_are_short();
    lemma_decode_of_request(hset);
    lemma_exchange_result(c, hset, Expect::Done, counted, ReplyView::Integer(count));
    let after = exchange(c, hset, Plan::Reply(Expect::Done), Seq::empty(), counted).0;
    lemma_hgetall_result(after, key, field, value, listed);
}

/// A push of two items followed by a pop of one returns the item that was
/// pushed last. The push gives the server the items in the order given; the
/// server puts each at the head of the list in turn, so its reply to the pop
/// carries the second, and the pop returns it as a sequence of one.
pub proof fn lemma_lpush_then_lpop(
    c: ClientView,
    key: Seq<u8>,
    first: Seq<u8>,
    second: Seq<u8>,
    counted: Seq<u8>,
    count: int,
    popped: Seq<u8>,
)
    requires
        c.link is Connected,
        c.stage is Idle,
        c.inbound.len() == 0,
        key.len() <= i64::MAX,
        first.len() <= i64::MAX,
        second.len() <= i64::MAX,
        frames(counted, ReplyView::Integer(count)),
        frames(popped, ReplyView::Array(bulk_replies(seq![second]))),
    ensures
        ({
            let lpush = lpush_request(key, seq![first, second]);
            let (after, done) = exchange(c, lpush, Plan::Reply(Expect::Done), Seq::empty(), counted);
            &&& decoded(request_frame(lpush)) matches Ok((ReplyView::Array(sent), _)) && sent
                == bulk_replies(seq![text("LPUSH"), key, first, second])
            &&& done == ActionView::Finish(Ok(OutcomeView::Unit))
            &&& exchange(
                after,
                lpop_request(key, 1),
                Plan::Reply(Expect::MaybeItems),
                Seq::empty(),
                popped,
            ).1 == ActionView::Finish(Ok(OutcomeView::Items(seq![second])))
        }),
{
    let lpush = lpush_request(key, seq![first, second]);
    assert(lpush =~= seq![text("LPUSH"), key, first, second]);
    lemma_names_are_short();
    lemma_decode_of_request(lpush);
    lemma_exchange_result(c, lpush, Expect::Done, counted, ReplyView::Integer(count));
    let after = exchange(c, lpush, Plan::Reply(Expect::Done), Seq::empty(), counted).0;
    lemma_lpop_result(after, key, 1, seq![second], popped);
}

} // verus!
