//! Typed results: what a reply means to the operation that asked for it.

use vstd::prelude::*;
use crate::bytes::{byte_strings, copy_bytes};
use crate::error::{classified, shape_mismatch, ClientError, ErrorView};
use crate::mapping::Mapping;
use crate::reply::{
    all_bulk, bulk_contents, lemma_array_view, replies_view, Reply, ReplyView,
};

verus! {

/// The typed result of an operation.
#[derive(Debug, PartialEq, Eq)]
pub enum Outcome {
    /// The operation was carried out and has nothing to return.
    Unit,
    /// There is no value of the type asked for.
    Absent,
    /// A byte string.
    Text(Vec<u8>),
    /// An ordered sequence of byte strings.
    Items(Vec<Vec<u8>>),
    /// A mapping from byte strings to byte strings.
    Mapping(Mapping),
    /// An integer.
    Integer(i64),
}

/// The mathematical value of a typed result.
pub enum OutcomeView {
    Unit,
    Absent,
    Text(Seq<u8>),
    Items(Seq<Seq<u8>>),
    Mapping(Map<Seq<u8>, Seq<u8>>),
    Integer(int),
}

impl View for Outcome {
    type V = OutcomeView;

    open spec fn view(&self) -> OutcomeView {
        match self {
            Outcome::Unit => OutcomeView::Unit,
            Outcome::Absent => OutcomeView::Absent,
            Outcome::Text(b) => OutcomeView::Text(b@),
            Outcome::Items(items) => OutcomeView::Items(byte_strings(items@)),
            Outcome::Mapping(m) => OutcomeView::Mapping(m@),
            Outcome::Integer(i) => OutcomeView::Integer(*i as int),
        }
    }
}

/// The shape of reply that an operation expects, and the typed result that
/// it makes of it.
#[derive(Clone, Copy, Debug, PartialEq, Eq)]
pub enum Expect {
    /// Any reply but an error; the result is `Unit`.
    Any,
    /// An integer, which is discarded; the result is `Unit`.
    Done,
    /// An integer; the result is that integer.
    Integer,
    /// A string; the result is that string.
    Text,
    /// An array of strings; the result is their sequence.
    Items,
    /// A string, or nothing; the result is the string, or `Absent`.
    MaybeText,
    /// An array of strings, or nothing; the result is their sequence, or
    /// `Absent`.
    MaybeItems,
    /// An array of strings that alternates fields and values, or nothing;
    /// the result is the mapping, or `Absent` when there is no pair.
    MaybeMapping,
}

impl Expect {
    /// True for the expectations of the read-like operations, for which "no
    /// value of that type" is an answer and not a failure.
    pub open spec fn allows_absent(self) -> bool {
        self is MaybeText || self is MaybeItems || self is MaybeMapping
    }

    /// True for the expectations of the read-like operations.
    pub fn may_be_absent(&self) -> (b: bool)
        ensures
            b == self.allows_absent(),
    {
        match self {
            Expect::MaybeText => true,
            Expect::MaybeItems => true,
            Expect::MaybeMapping => true,
            _ => false,
        }
    }
}

/// The mapping that a flattened sequence of fields and values stands for:
/// each field is given the value that follows it, a later pair replacing an
/// earlier one with the same field.
pub open spec fn pairs_map(flat: Seq<Seq<u8>>) -> Map<Seq<u8>, Seq<u8>>
    decreases flat.len(),
{
    if flat.len() < 2 {
        Map::empty()
    } else {
        pairs_map(flat.take(flat.len() - 2)).insert(flat[flat.len() - 2], flat[flat.len() - 1])
    }
}

/// The typed result that a reply other than an error gives, or `None` when
/// its shape is not the expected one.
pub open spec fn shaped(expect: Expect, reply: ReplyView) -> Option<OutcomeView> {
    match expect {
        Expect::Any => Some(OutcomeView::Unit),
        Expect::Done => match reply {
            ReplyView::Integer(_) => Some(OutcomeView::Unit),
            _ => None,
        },
        Expect::Integer => match reply {
            ReplyView::Integer(v) => Some(OutcomeView::Integer(v)),
            _ => None,
        },
        Expect::Text => match reply {
            ReplyView::BulkString(b) => Some(OutcomeView::Text(b)),
            _ => None,
        },
        Expect::Items => match reply {
            ReplyView::Array(items) if all_bulk(items) => Some(
                OutcomeView::Items(bulk_contents(items)),
            ),
            _ => None,
        },
        Expect::MaybeText => match reply {
            ReplyView::BulkString(b) => Some(OutcomeView::Text(b)),
            ReplyView::Nil => Some(OutcomeView::Absent),
            _ => None,
        },
        Expect::MaybeItems => match reply {
            ReplyView::Array(items) if all_bulk(items) => Some(
                OutcomeView::Items(bulk_contents(items)),
            ),
            ReplyView::Nil => Some(OutcomeView::Absent),
            _ => None,
        },
        Expect::MaybeMapping => match reply {
            ReplyView::Array(items) if all_bulk(items) && items.len() % 2 == 0 => if items.len()
                == 0 {
                Some(OutcomeView::Absent)
            } else {
                Some(OutcomeView::Mapping(pairs_map(bulk_contents(items))))
            },
            ReplyView::Nil => Some(OutcomeView::Absent),
            _ => None,
        },
    }
}

/// What a reply means to an operation that expects `expect`.
///
/// An error reply never gives a value: it is classified, and fails the
/// operation, except that a type mismatch is `Absent` to a read-like
/// operation. Any other reply gives the typed result of its shape; where the
/// shape is not the expected one, that is a type mismatch too.
pub open spec fn coerced(expect: Expect, reply: ReplyView) -> Result<OutcomeView, ErrorView> {
    match reply {
        ReplyView::Error { code, message } => {
            let error = classified(code, message);
            if expect.allows_absent() && error is TypeMismatch {
                Ok(OutcomeView::Absent)
            } else {
                Err(error)
            }
        },
        _ => match shaped(expect, reply) {
            Some(outcome) => Ok(outcome),
            None => if expect.allows_absent() {
                Ok(OutcomeView::Absent)
            } else {
                Err(shape_mismatch())
            },
        },
    }
}

/// The byte strings of `items`, if every one of them is a bulk string.
pub fn strings_of(items: &Vec<Reply>) -> (strings: Option<Vec<Vec<u8>>>)
    ensures
        match strings {
            Some(v) => all_bulk(replies_view(items@)) && byte_strings(v@)
                == bulk_contents(replies_view(items@)),
            None => !all_bulk(replies_view(items@)),
        },
{
    let mut out: Vec<Vec<u8>> = Vec::new();
    let mut i: usize = 0;
    while i < items.len()
        invariant
            i <= items@.len(),
            out@.len() == i,
            forall|j: int| 0 <= j < i ==> (#[trigger] replies_view(items@)[j]) is BulkString,
            forall|j: int|
                0 <= j < i ==> (#[trigger] out@[j])@ == replies_view(items@)[j]->BulkString_0,
        decreases items@.len() - i,
    {
        match &items[i] {
            Reply::BulkString(b) => {
                out.push(copy_bytes(b.as_slice()));
            },
            _ => {
                assert(!(replies_view(items@)[i as int] is BulkString));
                return None;
            },
        }
        i = i + 1;
    }
    assert(byte_strings(out@) =~= bulk_contents(replies_view(items@)));
    Some(out)
}

/// The mapping that the flattened fields and values `flat` stand for, if
/// every field has its value.
pub fn mapping_of(flat: &Vec<Vec<u8>>) -> (mapping: Option<Mapping>)
    ensures
        match mapping {
            Some(m) => flat@.len() % 2 == 0 && m@ == pairs_map(byte_strings(flat@)),
            None => flat@.len() % 2 != 0,
        },
{
    if flat.len() % 2 != 0 {
        return None;
    }
    let ghost strings = byte_strings(flat@);
    let mut mapping = Mapping::new();
    let mut i: usize = 0;
    assert(strings.take(0).len() == 0);
    while i < flat.len()
        invariant
            i <= flat@.len(),
            i % 2 == 0,
            flat@.len() % 2 == 0,
            strings == byte_strings(flat@),
            mapping@ == pairs_map(strings.take(i as int)),
        decreases flat@.len() - i,
    {
        let field = copy_bytes(flat[i].as_slice());
        let value = copy_bytes(flat[i + 1].as_slice());
        proof {
            let wider = strings.take(i + 2);
            assert(wider.take(wider.len() - 2) =~= strings.take(i as int));
            assert(wider[wider.len() - 2] == field@);
            assert(wider[wider.len() - 1] == value@);
        }
        mapping.insert(field, value);
        i = i + 2;
    }
    assert(strings.take(i as int) =~= strings);
    Some(mapping)
}

/// The typed result that `reply` gives an operation that expects `expect`.
pub fn coerce(expect: Expect, reply: Reply) -> (r: Result<Outcome, ClientError>)
    ensures
        match coerced(expect, reply@) {
            Ok(outcome) => r matches Ok(got) && got@ == outcome,
            Err(error) => r matches Err(got) && got@ == error,
        },
{
    let absent_ok = expect.may_be_absent();
    let shaped: Option<Outcome> = match reply {
        Reply::Error { code, message } => {
            let error = ClientError::classify(code, message);
            if absent_ok {
                if let ClientError::TypeMismatch { .. } = error {
                    return Ok(Outcome::Absent);
                }
            }
            return Err(error);
        },
        Reply::Nil => match expect {
            Expect::Any => Some(Outcome::Unit),
            Expect::MaybeText => Some(Outcome::Absent),
            Expect::MaybeItems => Some(Outcome::Absent),
            Expect::MaybeMapping => Some(Outcome::Absent),
            _ => None,
        },
        Reply::Integer(v) => match expect {
            Expect::Any => Some(Outcome::Unit),
            Expect::Done => Some(Outcome::Unit),
            Expect::Integer => Some(Outcome::Integer(v)),
            _ => None,
        },
        Reply::BulkString(b) => match expect {
            Expect::Any => Some(Outcome::Unit),
            Expect::Text => Some(Outcome::Text(b)),
            Expect::MaybeText => Some(Outcome::Text(b)),
            _ => None,
        },
        Reply::Array(items) => {
            proof {
                lemma_array_view(items);
            }
            match expect {
                Expect::Any => Some(Outcome::Unit),
                Expect::Items => match strings_of(&items) {
                    Some(strings) => Some(Outcome::Items(strings)),
                    None => None,
                },
                Expect::MaybeItems => match strings_of(&items) {
                    Some(strings) => Some(Outcome::Items(strings)),
                    None => None,
                },
                Expect::MaybeMapping => match strings_of(&items) {
                    Some(strings) => if strings.len() == 0 {
                        Some(Outcome::Absent)
                    } else {
                        match mapping_of(&strings) {
                            Some(mapping) => Some(Outcome::Mapping(mapping)),
                            None => None,
                        }
                    },
                    None => None,
                },
                _ => None,
            }
        },
    };
    match shaped {
        Some(outcome) => Ok(outcome),
        None => if absent_ok {
            Ok(Outcome::Absent)
        } else {
            Err(ClientError::TypeMismatch { detail: Vec::new(), code: Vec::new() })
        },
    }
}

/// A mapping holds each field with the value of its last pair: where a
/// field stands at the even index `j` of the flattened pairs and at no later
/// even index, the mapping gives it the value that follows it there.
pub proof fn lemma_pairs_map_holds(flat: Seq<Seq<u8>>, j: int)
    requires
        flat.len() % 2 == 0,
        0 <= j < flat.len(),
        j % 2 == 0,
        forall|l: int| j < l < flat.len() && l % 2 == 0 ==> flat[l] != flat[j],
    ensures
        pairs_map(flat).contains_key(flat[j]),
        pairs_map(flat)[flat[j]] == flat[j + 1],
    decreases flat.len(),
{
    let front = flat.take(flat.len() - 2);
    if j < flat.len() - 2 {
        assert(front[j] == flat[j]);
        assert(front[j + 1] == flat[j + 1]);
        assert forall|l: int| j < l < front.len() && l % 2 == 0 implies front[l] != front[j] by {
            assert(front[l] == flat[l]);
        }
        lemma_pairs_map_holds(front, j);
        assert(flat[flat.len() - 2] != flat[j]);
    }
}

/// Every key of a mapping is a field of the flattened pairs.
pub proof fn lemma_pairs_map_keys(flat: Seq<Seq<u8>>, key: Seq<u8>)
    requires
        flat.len() % 2 == 0,
        pairs_map(flat).contains_key(key),
    ensures
        exists|j: int| 0 <= j < flat.len() && j % 2 == 0 && #[trigger] flat[j] == key,
    decreases flat.len(),
{
    if flat.len() >= 2 {
        let front = flat.take(flat.len() - 2);
        if flat[flat.len() - 2] == key {
        } else {
            lemma_pairs_map_keys(front, key);
            let j = choose|j: int| 0 <= j < front.len() && j % 2 == 0 && #[trigger] front[j] == key;
            assert(flat[j] == key);
        }
    }
}

} // verus!
