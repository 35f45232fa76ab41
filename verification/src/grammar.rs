//! The wire grammar: which bytes make a request frame, and which reply a
//! run of bytes denotes.

use vstd::prelude::*;
use crate::digits::{decimal, numeral, signed_decimal};
use crate::reply::ReplyView;

verus! {

/// Carriage return.
pub const CR: u8 = 13;

/// Line feed.
pub const LF: u8 = 10;

/// ASCII space.
pub const SPACE: u8 = 32;

/// Sigil of a simple-string frame, `+`.
pub const SIGIL_SIMPLE: u8 = 43;

/// Sigil of an error frame, `-`.
pub const SIGIL_ERROR: u8 = 45;

/// Sigil of an integer frame, `:`.
pub const SIGIL_INTEGER: u8 = 58;

/// Sigil of a bulk-string frame, `$`.
pub const SIGIL_BULK: u8 = 36;

/// Sigil of an array frame, `*`.
pub const SIGIL_ARRAY: u8 = 42;

/// The line terminator.
pub open spec fn crlf() -> Seq<u8> {
    seq![CR, LF]
}

/// The frame of one byte string: `$`, its length in decimal, the terminator,
/// the bytes themselves, the terminator.
pub open spec fn bulk_frame(b: Seq<u8>) -> Seq<u8> {
    seq![SIGIL_BULK] + decimal(b.len()) + crlf() + b + crlf()
}

/// The frames of `args`, one after the other.
pub open spec fn bulk_frames(args: Seq<Seq<u8>>) -> Seq<u8>
    decreases args.len(),
{
    if args.len() == 0 {
        Seq::empty()
    } else {
        bulk_frame(args.first()) + bulk_frames(args.drop_first())
    }
}

/// The frame of a request: `*`, the number of arguments in decimal, the
/// terminator, then each argument as a length-prefixed byte string.
pub open spec fn request_frame(args: Seq<Seq<u8>>) -> Seq<u8> {
    seq![SIGIL_ARRAY] + decimal(args.len()) + crlf() + bulk_frames(args)
}

/// True when `b` is one of the five sigils that open a reply frame.
pub open spec fn is_sigil(b: u8) -> bool {
    b == SIGIL_SIMPLE || b == SIGIL_ERROR || b == SIGIL_INTEGER || b == SIGIL_BULK || b
        == SIGIL_ARRAY
}

/// True when a line terminator stands at index `i` of `s`.
pub open spec fn crlf_at(s: Seq<u8>, i: int) -> bool {
    0 <= i && i + 1 < s.len() && s[i] == CR && s[i + 1] == LF
}

/// The index of the first line terminator of `s` at or after `from`.
pub open spec fn line_end(s: Seq<u8>, from: int) -> Option<int>
    decreases s.len() - from,
{
    if from < 0 || from + 1 >= s.len() {
        None
    } else if s[from] == CR && s[from + 1] == LF {
        Some(from)
    } else {
        line_end(s, from + 1)
    }
}

/// The index of the first space of `line`, or its length when it has none.
pub open spec fn first_space(line: Seq<u8>) -> int
    decreases line.len(),
{
    if line.len() == 0 || line[0] == SPACE {
        0
    } else {
        1 + first_space(line.drop_first())
    }
}

/// The leading token of an error line: what stands before its first space.
pub open spec fn error_code(line: Seq<u8>) -> Seq<u8> {
    line.take(first_space(line))
}

/// The text of an error line after its first space; empty when it has none.
pub open spec fn error_message(line: Seq<u8>) -> Seq<u8> {
    if first_space(line) < line.len() {
        line.skip(first_space(line) + 1)
    } else {
        Seq::empty()
    }
}

/// What the bytes of a stream, read from some index on, denote.
pub enum Parsed {
    /// One whole frame stands there: its reply, and the index after it.
    Complete { reply: ReplyView, next: int },
    /// The bytes end before the frame does.
    Incomplete,
    /// The bytes cannot begin any frame.
    Malformed,
    /// An integer frame stands there whose value does not fit 64 bits.
    OutOfRange,
}

/// What the bytes of a stream denote as a run of frames.
pub enum ParsedItems {
    Complete { items: Seq<ReplyView>, next: int },
    Incomplete,
    Malformed,
    OutOfRange,
}

/// `rest` with the replies `done` put in front of its items.
pub open spec fn prepend(done: Seq<ReplyView>, rest: ParsedItems) -> ParsedItems {
    match rest {
        ParsedItems::Complete { items, next } => ParsedItems::Complete { items: done + items, next },
        other => other,
    }
}

/// What the frame that starts at index `i` of `s` denotes.
///
/// The sigil decides the kind. A simple string and an error run to the next
/// line terminator. An integer is a line that holds a numeral. A bulk string
/// is a length line, that many bytes, and a terminator; an array is a count
/// line and that many frames. A length or count of -1 is `Nil`; any other
/// negative one, or one that is no numeral of 64 bits, is malformed.
pub open spec fn parse_at(s: Seq<u8>, i: int) -> Parsed
    decreases s.len() - i, 0int,
{
    if i < 0 || i >= s.len() {
        Parsed::Incomplete
    } else if !is_sigil(s[i]) {
        Parsed::Malformed
    } else {
        match line_end(s, i + 1) {
            None => Parsed::Incomplete,
            Some(end) => {
                let line = s.subrange(i + 1, end);
                let after = end + 2;
                if s[i] == SIGIL_SIMPLE {
                    Parsed::Complete { reply: ReplyView::BulkString(line), next: after }
                } else if s[i] == SIGIL_ERROR {
                    Parsed::Complete {
                        reply: ReplyView::Error {
                            code: error_code(line),
                            message: error_message(line),
                        },
                        next: after,
                    }
                } else if s[i] == SIGIL_INTEGER {
                    match numeral(line) {
                        None => Parsed::Malformed,
                        Some(v) => if i64::MIN <= v <= i64::MAX {
                            Parsed::Complete { reply: ReplyView::Integer(v), next: after }
                        } else {
                            Parsed::OutOfRange
                        },
                    }
                } else {
                    match numeral(line) {
                        None => Parsed::Malformed,
                        Some(v) => if v == -1 {
                            Parsed::Complete { reply: ReplyView::Nil, next: after }
                        } else if v < 0 || v > i64::MAX {
                            Parsed::Malformed
                        } else if s[i] == SIGIL_BULK {
                            if after + v + 2 > s.len() {
                                Parsed::Incomplete
                            } else if s[after + v] == CR && s[after + v + 1] == LF {
                                Parsed::Complete {
                                    reply: ReplyView::BulkString(s.subrange(after, after + v)),
                                    next: after + v + 2,
                                }
                            } else {
                                Parsed::Malformed
                            }
                        } else if i < after <= s.len() {
                            match parse_items(s, after, v as nat) {
                                ParsedItems::Complete { items, next } => Parsed::Complete {
                                    reply: ReplyView::Array(items),
                                    next,
                                },
                                ParsedItems::Incomplete => Parsed::Incomplete,
                                ParsedItems::Malformed => Parsed::Malformed,
                                ParsedItems::OutOfRange => Parsed::OutOfRange,
                            }
                        } else {
                            Parsed::Malformed
                        },
                    }
                }
            },
        }
    }
}

/// What `n` frames in a row, the first at index `i` of `s`, denote.
pub open spec fn parse_items(s: Seq<u8>, i: int, n: nat) -> ParsedItems
    decreases s.len() - i, n + 1,
{
    if n == 0 {
        ParsedItems::Complete { items: Seq::empty(), next: i }
    } else if i < 0 || i >= s.len() {
        ParsedItems::Incomplete
    } else {
        match parse_at(s, i) {
            Parsed::Complete { reply, next } => if i < next <= s.len() {
                prepend(seq![reply], parse_items(s, next, (n - 1) as nat))
            } else {
                ParsedItems::Malformed
            },
            Parsed::Incomplete => ParsedItems::Incomplete,
            Parsed::Malformed => ParsedItems::Malformed,
            Parsed::OutOfRange => ParsedItems::OutOfRange,
        }
    }
}

/// The line of an error reply: its leading token, then, where there is a
/// message, a space and the message.
pub open spec fn error_line(code: Seq<u8>, message: Seq<u8>) -> Seq<u8> {
    if message.len() == 0 {
        code
    } else {
        code + seq![SPACE] + message
    }
}

/// The frame that a server writes for `reply`: nothing as a bulk string of
/// length -1, an integer as a line, a string with its length before it, an
/// array as its count and the frames of its items, an error as a line.
pub open spec fn reply_frame(reply: ReplyView) -> Seq<u8>
    decreases reply,
{
    match reply {
        ReplyView::Nil => seq![SIGIL_BULK] + signed_decimal(-1) + crlf(),
        ReplyView::Integer(v) => seq![SIGIL_INTEGER] + signed_decimal(v) + crlf(),
        ReplyView::BulkString(b) => bulk_frame(b),
        ReplyView::Array(items) => seq![SIGIL_ARRAY] + decimal(items.len()) + crlf()
            + reply_frames(items),
        ReplyView::Error { code, message } => seq![SIGIL_ERROR] + error_line(code, message)
            + crlf(),
    }
}

/// The frames of `items`, one after the other.
pub open spec fn reply_frames(items: Seq<ReplyView>) -> Seq<u8>
    decreases items,
{
    if items.len() == 0 {
        Seq::empty()
    } else {
        reply_frame(items.first()) + reply_frames(items.drop_first())
    }
}

/// True when `line` holds no line terminator.
pub open spec fn plain_line(line: Seq<u8>) -> bool {
    forall|j: int| !crlf_at(line, j)
}

/// True when `reply` can be written as a frame and read back: its integers
/// and lengths fit 64 bits, and the line of an error holds no terminator and
/// no space inside its leading token.
pub open spec fn framable(reply: ReplyView) -> bool
    decreases reply,
{
    match reply {
        ReplyView::Nil => true,
        ReplyView::Integer(v) => i64::MIN <= v <= i64::MAX,
        ReplyView::BulkString(b) => b.len() <= i64::MAX,
        ReplyView::Array(items) => items.len() <= i64::MAX && forall|i: int|
            0 <= i < items.len() ==> framable(#[trigger] items[i]),
        ReplyView::Error { code, message } => first_space(code) == code.len() && plain_line(
            error_line(code, message),
        ),
    }
}

} // verus!
