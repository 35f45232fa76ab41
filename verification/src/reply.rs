//! The reply model: what one decoded frame holds.

use vstd::prelude::*;

verus! {

/// One decoded reply frame.
///
/// A simple-string frame and a bulk-string frame both decode to `BulkString`:
/// the model has one string variant.
#[derive(Debug, PartialEq, Eq)]
pub enum Reply {
    /// The server has no value to give.
    Nil,
    /// A 64-bit signed integer.
    Integer(i64),
    /// A byte string. It may be empty, which is not `Nil`.
    BulkString(Vec<u8>),
    /// An ordered sequence of replies. It may be empty, which is not `Nil`.
    Array(Vec<Reply>),
    /// An error that the server signalled: the leading token of its line,
    /// and the text after the first space (empty when there is none).
    Error { code: Vec<u8>, message: Vec<u8> },
}

/// The mathematical value of a reply.
pub enum ReplyView {
    Nil,
    Integer(int),
    BulkString(Seq<u8>),
    Array(Seq<ReplyView>),
    Error { code: Seq<u8>, message: Seq<u8> },
}

impl View for Reply {
    type V = ReplyView;

    open spec fn view(&self) -> ReplyView
        decreases self,
    {
        match self {
            Reply::Nil => ReplyView::Nil,
            Reply::Integer(i) => ReplyView::Integer(*i as int),
            Reply::BulkString(b) => ReplyView::BulkString(b@),
            Reply::Array(items) => ReplyView::Array(
                Seq::new(
                    items@.len(),
                    |i: int|
                        if 0 <= i < items@.len() {
                            items@[i]@
                        } else {
                            ReplyView::Nil
                        },
                ),
            ),
            Reply::Error { code, message } => ReplyView::Error { code: code@, message: message@ },
        }
    }
}

/// The values of a sequence of replies, in order.
pub open spec fn replies_view(items: Seq<Reply>) -> Seq<ReplyView> {
    Seq::new(items.len(), |i: int| items[i]@)
}

/// The value of an array reply is the sequence of its items' values.
pub proof fn lemma_array_view(items: Vec<Reply>)
    ensures
        Reply::Array(items)@ == ReplyView::Array(replies_view(items@)),
{
    assert(Reply::Array(items)@->Array_0 =~= replies_view(items@));
}

/// The byte strings of `items`, each wrapped as a bulk-string reply.
pub open spec fn bulk_replies(items: Seq<Seq<u8>>) -> Seq<ReplyView> {
    Seq::new(items.len(), |i: int| ReplyView::BulkString(items[i]))
}

/// True when every item of `items` is a bulk string.
pub open spec fn all_bulk(items: Seq<ReplyView>) -> bool {
    forall|i: int| 0 <= i < items.len() ==> #[trigger] items[i] is BulkString
}

/// The byte strings that a sequence of bulk-string replies holds.
pub open spec fn bulk_contents(items: Seq<ReplyView>) -> Seq<Seq<u8>> {
    Seq::new(items.len(), |i: int| items[i]->BulkString_0)
}

} // verus!
