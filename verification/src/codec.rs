//! The wire codec: commands to request bytes, reply bytes to replies.

use vstd::prelude::*;
use vstd::slice::{slice_subrange, slice_to_vec};
use crate::bytes::push_all;
use crate::command::Command;
use crate::digits::{decimal, push_decimal, read_integer, IntegerText};
use crate::error::{ClientError, ErrorView};
use crate::grammar::{
    bulk_frame, bulk_frames, crlf, error_code, error_message, first_space, line_end, parse_at,
    parse_items, prepend, request_frame, Parsed, ParsedItems, CR, LF, SIGIL_ARRAY, SIGIL_BULK,
    SIGIL_ERROR, SIGIL_INTEGER, SIGIL_SIMPLE, SPACE,
};
use crate::reply::{lemma_array_view, replies_view, Reply, ReplyView};

verus! {

/// What scanning a buffer for one frame found.
#[derive(Debug, PartialEq, Eq)]
pub enum Scan {
    /// One whole frame: its reply, and the index of the byte after it.
    Complete { reply: Reply, next: usize },
    /// The buffer ends before the frame does: more bytes may complete it.
    Incomplete,
    /// The bytes cannot begin any frame, whatever follows.
    Malformed,
    /// An integer frame whose value does not fit 64 bits.
    OutOfRange,
}

impl View for Scan {
    type V = Parsed;

    open spec fn view(&self) -> Parsed {
        match self {
            Scan::Complete { reply, next } => Parsed::Complete { reply: reply@, next: *next as int },
            Scan::Incomplete => Parsed::Incomplete,
            Scan::Malformed => Parsed::Malformed,
            Scan::OutOfRange => Parsed::OutOfRange,
        }
    }
}

/// The frames of a run of arguments, extended by one argument.
pub proof fn lemma_bulk_frames_push(args: Seq<Seq<u8>>, last: Seq<u8>)
    ensures
        bulk_frames(args.push(last)) == bulk_frames(args) + bulk_frame(last),
    decreases args.len(),
{
    if args.len() == 0 {
        assert(args.push(last).first() == last);
        assert(args.push(last).drop_first() =~= Seq::<Seq<u8>>::empty());
        assert(bulk_frames(args.push(last).drop_first()) =~= Seq::<u8>::empty());
        assert(bulk_frames(args.push(last)) =~= bulk_frame(last));
        assert(bulk_frames(args) + bulk_frame(last) =~= bulk_frame(last));
    } else {
        lemma_bulk_frames_push(args.drop_first(), last);
        assert(args.push(last).drop_first() =~= args.drop_first().push(last));
        assert(args.push(last).first() == args.first());
        assert(bulk_frame(args.first()) + (bulk_frames(args.drop_first()) + bulk_frame(last))
            =~= (bulk_frame(args.first()) + bulk_frames(args.drop_first())) + bulk_frame(last));
    }
}

/// The request frame of `command`.
///
/// Every argument is sent as it is, behind its length: no byte needs
/// escaping, so encoding never fails.
pub fn encode(command: &Command) -> (bytes: Vec<u8>)
    ensures
        bytes@ == request_frame(command@),
{
    let mut out: Vec<u8> = Vec::new();
    let n: usize = command.args.len();
    out.push(SIGIL_ARRAY);
    push_decimal(&mut out, n as u64);
    out.push(CR);
    out.push(LF);
    let ghost head = out@;
    assert(head =~= seq![SIGIL_ARRAY] + decimal(n as nat) + crlf());
    let mut i: usize = 0;
    assert(command@.take(0) =~= Seq::<Seq<u8>>::empty());
    while i < n
        invariant
            i <= n,
            n == command.args@.len(),
            out@ == head + bulk_frames(command@.take(i as int)),
        decreases n - i,
    {
        let arg: &Vec<u8> = &command.args[i];
        let ghost before = out@;
        out.push(SIGIL_BULK);
        push_decimal(&mut out, arg.len() as u64);
        out.push(CR);
        out.push(LF);
        push_all(&mut out, arg.as_slice());
        out.push(CR);
        out.push(LF);
        proof {
            assert(out@ =~= before + bulk_frame(arg@));
            lemma_bulk_frames_push(command@.take(i as int), arg@);
            assert(command@.take(i + 1) =~= command@.take(i as int).push(arg@));
            assert(head + bulk_frames(command@.take(i as int)) + bulk_frame(arg@) =~= head + (
            bulk_frames(command@.take(i as int)) + bulk_frame(arg@)));
        }
        i = i + 1;
    }
    assert(command@.take(n as int) =~= command@);
    out
}

/// The index of the first line terminator of `buf` at or after `from`.
pub fn find_line_end(buf: &[u8], from: usize) -> (end: Option<usize>)
    ensures
        match line_end(buf@, from as int) {
            Some(e) => end == Some(e as usize) && from <= e && e + 1 < buf@.len(),
            None => end is None,
        },
{
    let n: usize = buf.len();
    let mut i: usize = from;
    while i < n && n - i >= 2
        invariant
            from <= i,
            n == buf@.len(),
            line_end(buf@, from as int) == line_end(buf@, i as int),
        decreases n - i,
    {
        if buf[i] == CR && buf[i + 1] == LF {
            return Some(i);
        }
        i = i + 1;
    }
    None
}

/// A copy of `buf[from..to]`.
fn copy_range(buf: &[u8], from: usize, to: usize) -> (bytes: Vec<u8>)
    requires
        from <= to <= buf@.len(),
    ensures
        bytes@ == buf@.subrange(from as int, to as int),
{
    slice_to_vec(slice_subrange(buf, from, to))
}

/// The index in `buf` of the first space of `buf[from..to]`, or `to`.
fn find_space(buf: &[u8], from: usize, to: usize) -> (at: usize)
    requires
        from <= to <= buf@.len(),
    ensures
        at == from + first_space(buf@.subrange(from as int, to as int)),
        from <= at <= to,
{
    let mut i: usize = from;
    while i < to && buf[i] != SPACE
        invariant
            from <= i <= to <= buf@.len(),
            first_space(buf@.subrange(from as int, to as int)) == (i - from) + first_space(
                buf@.subrange(i as int, to as int),
            ),
        decreases to - i,
    {
        assert(buf@.subrange(i as int, to as int).drop_first() =~= buf@.subrange(
            i + 1,
            to as int,
        ));
        i = i + 1;
    }
    proof {
        let rest = buf@.subrange(i as int, to as int);
        assert(first_space(rest) == 0);
        lemma_first_space_bound(buf@.subrange(from as int, to as int));
    }
    i
}

/// The first space of a line lies within it, or at its end.
pub proof fn lemma_first_space_bound(line: Seq<u8>)
    ensures
        0 <= first_space(line) <= line.len(),
    decreases line.len(),
{
    if line.len() != 0 && line[0] != SPACE {
        lemma_first_space_bound(line.drop_first());
    }
}

/// Scans `buf` from index `pos` for one frame.
#[verifier::loop_isolation(false)]
pub fn scan_frame(buf: &[u8], pos: usize) -> (scan: Scan)
    ensures
        scan@ == parse_at(buf@, pos as int),
        scan matches Scan::Complete { next, .. } ==> pos < next <= buf@.len(),
    decreases buf@.len() - pos,
{
    if pos >= buf.len() {
        return Scan::Incomplete;
    }
    let sigil: u8 = buf[pos];
    if sigil != SIGIL_SIMPLE && sigil != SIGIL_ERROR && sigil != SIGIL_INTEGER && sigil
        != SIGIL_BULK && sigil != SIGIL_ARRAY {
        return Scan::Malformed;
    }
    let end: usize = match find_line_end(buf, pos + 1) {
        None => {
            return Scan::Incomplete;
        },
        Some(e) => e,
    };
    let after: usize = end + 2;
    let ghost line = buf@.subrange(pos + 1, end as int);
    if sigil == SIGIL_SIMPLE {
        return Scan::Complete { reply: Reply::BulkString(copy_range(buf, pos + 1, end)), next: after };
    }
    if sigil == SIGIL_ERROR {
        let space: usize = find_space(buf, pos + 1, end);
        let code: Vec<u8> = copy_range(buf, pos + 1, space);
        let message: Vec<u8> = if space < end {
            copy_range(buf, space + 1, end)
        } else {
            Vec::new()
        };
        proof {
            assert(code@ =~= error_code(line));
            assert(message@ =~= error_message(line));
        }
        return Scan::Complete { reply: Reply::Error { code, message }, next: after };
    }
    let v: i64 = match read_integer(slice_subrange(buf, pos + 1, end)) {
        IntegerText::Malformed => {
            return Scan::Malformed;
        },
        IntegerText::OutOfRange => {
            if sigil == SIGIL_INTEGER {
                return Scan::OutOfRange;
            } else {
                return Scan::Malformed;
            }
        },
        IntegerText::Value(v) => v,
    };
    if sigil == SIGIL_INTEGER {
        return Scan::Complete { reply: Reply::Integer(v), next: after };
    }
    if v == -1 {
        return Scan::Complete { reply: Reply::Nil, next: after };
    }
    if v < 0 {
        return Scan::Malformed;
    }
    let avail: usize = buf.len() - after;
    if sigil == SIGIL_BULK {
        if avail < 2 || v as u64 > (avail - 2) as u64 {
            return Scan::Incomplete;
        }
        let len: usize = v as usize;
        if buf[after + len] == CR && buf[after + len + 1] == LF {
            return Scan::Complete {
                reply: Reply::BulkString(copy_range(buf, after, after + len)),
                next: after + len + 2,
            };
        }
        return Scan::Malformed;
    }
    let count: u64 = v as u64;
    let mut items: Vec<Reply> = Vec::new();
    let mut at: usize = after;
    let mut done: u64 = 0;
    assert(replies_view(items@) =~= Seq::<ReplyView>::empty());
    assert(prepend(Seq::<ReplyView>::empty(), parse_items(buf@, after as int, count as nat))
        == parse_items(buf@, after as int, count as nat)) by {
        match parse_items(buf@, after as int, count as nat) {
            ParsedItems::Complete { items, next } => {
                assert(Seq::<ReplyView>::empty() + items =~= items);
            },
            _ => {},
        }
    }
    while done < count
        invariant
            pos < after <= at <= buf@.len(),
            done <= count,
            parse_items(buf@, after as int, count as nat) == prepend(
                replies_view(items@),
                parse_items(buf@, at as int, (count - done) as nat),
            ),
        decreases count - done,
    {
        if at >= buf.len() {
            return Scan::Incomplete;
        }
        let ghost before = replies_view(items@);
        let ghost rest = parse_items(buf@, at as int, (count - done) as nat);
        match scan_frame(buf, at) {
            Scan::Complete { reply, next } => {
                let ghost tail = parse_items(buf@, next as int, (count - done - 1) as nat);
                assert(rest == prepend(seq![reply@], tail));
                items.push(reply);
                proof {
                    assert(replies_view(items@) =~= before.push(reply@));
                    match tail {
                        ParsedItems::Complete { items: more, next: last } => {
                            assert(before + (seq![reply@] + more) =~= before.push(reply@) + more);
                        },
                        _ => {},
                    }
                }
                at = next;
            },
            Scan::Incomplete => {
                return Scan::Incomplete;
            },
            Scan::Malformed => {
                return Scan::Malformed;
            },
            Scan::OutOfRange => {
                return Scan::OutOfRange;
            },
        }
        done = done + 1;
    }
    proof {
        assert(replies_view(items@) + Seq::<ReplyView>::empty() =~= replies_view(items@));
        lemma_array_view(items);
    }
    Scan::Complete { reply: Reply::Array(items), next: at }
}

/// What decoding the first frame of a finished stream gives.
pub open spec fn decoded(stream: Seq<u8>) -> Result<(ReplyView, int), ErrorView> {
    match parse_at(stream, 0) {
        Parsed::Complete { reply, next } => Ok((reply, next)),
        Parsed::Incomplete => Err(ErrorView::FramingError),
        Parsed::Malformed => Err(ErrorView::FramingError),
        Parsed::OutOfRange => Err(ErrorView::DecodeError),
    }
}

/// Decodes the first frame of `stream`, the bytes that a stream delivered
/// before it ended.
///
/// Returns the reply and the number of bytes that its frame takes. Fails with
/// `FramingError` when the bytes are malformed or end inside the frame, and
/// with `DecodeError` when an integer reply does not fit 64 bits.
pub fn decode_next(stream: &[u8]) -> (r: Result<(Reply, usize), ClientError>)
    ensures
        match decoded(stream@) {
            Ok((reply, next)) => r matches Ok((got, used)) && got@ == reply && used == next,
            Err(e) => r matches Err(err) && err@ == e,
        },
{
    match scan_frame(stream, 0) {
        Scan::Complete { reply, next } => Ok((reply, next)),
        Scan::Incomplete => Err(ClientError::FramingError),
        Scan::Malformed => Err(ClientError::FramingError),
        Scan::OutOfRange => Err(ClientError::DecodeError),
    }
}

} // verus!
