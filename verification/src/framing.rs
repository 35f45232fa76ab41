//! What holds of the wire grammar: a frame is decided by its own bytes, a
//! truncated frame is never taken for a whole one, and a request frame reads
//! back as the array of its arguments.

use vstd::prelude::*;
use crate::digits::{
    decimal, is_digit, lemma_decimal_is_digits, lemma_decimal_value,
    lemma_numeral_of_signed_decimal, numeral, signed_decimal,
};
use crate::grammar::{
    bulk_frame, bulk_frames, crlf, crlf_at, error_code, error_line, error_message, first_space,
    framable, is_sigil, line_end, parse_at, parse_items, plain_line, reply_frame,
    reply_frames, request_frame, Parsed, ParsedItems, CR, LF, SIGIL_ARRAY, SIGIL_BULK,
    SIGIL_ERROR, SIGIL_INTEGER, SIGIL_SIMPLE, SPACE,
};
use crate::codec::decoded;
use crate::error::ErrorView;
use crate::reply::{bulk_replies, ReplyView};

verus! {

/// A line end that was found is the first terminator at or after `from`.
pub proof fn lemma_line_end_is_first(s: Seq<u8>, from: int)
    requires
        0 <= from,
    ensures
        match line_end(s, from) {
            Some(e) => from <= e && crlf_at(s, e) && forall|j: int|
                from <= j < e ==> !crlf_at(s, j),
            None => forall|j: int| from <= j ==> !crlf_at(s, j),
        },
    decreases s.len() - from,
{
    if from + 1 >= s.len() {
    } else if s[from] == CR && s[from + 1] == LF {
    } else {
        lemma_line_end_is_first(s, from + 1);
    }
}

/// The first terminator at or after `from` is the line end.
pub proof fn lemma_first_is_line_end(s: Seq<u8>, from: int, e: int)
    requires
        0 <= from <= e,
        crlf_at(s, e),
        forall|j: int| from <= j < e ==> !crlf_at(s, j),
    ensures
        line_end(s, from) == Some(e),
    decreases e - from,
{
    if from < e {
        assert(!crlf_at(s, from));
        lemma_first_is_line_end(s, from + 1, e);
    }
}

/// True when `s` and `t` hold the same bytes before index `n`.
pub open spec fn same_prefix(s: Seq<u8>, t: Seq<u8>, n: int) -> bool {
    &&& 0 <= n <= s.len()
    &&& n <= t.len()
    &&& forall|j: int| 0 <= j < n ==> s[j] == t[j]
}

/// A whole frame ends after it starts, and within the bytes.
pub proof fn lemma_frame_bounds(s: Seq<u8>, i: int)
    ensures
        parse_at(s, i) matches Parsed::Complete { next, .. } ==> 0 <= i < next <= s.len(),
    decreases s.len() - i, 0int,
{
    if 0 <= i < s.len() && is_sigil(s[i]) {
        lemma_line_end_is_first(s, i + 1);
        match line_end(s, i + 1) {
            Some(end) => {
                let line = s.subrange(i + 1, end);
                let after = end + 2;
                if s[i] != SIGIL_SIMPLE && s[i] != SIGIL_ERROR && s[i] != SIGIL_INTEGER {
                    match numeral(line) {
                        Some(v) => {
                            if v >= 0 && v <= i64::MAX && s[i] != SIGIL_BULK {
                                lemma_items_bounds(s, after, v as nat);
                            }
                        },
                        None => {},
                    }
                }
            },
            None => {},
        }
    }
}

/// A whole run of frames ends at or after its start, and within the bytes.
pub proof fn lemma_items_bounds(s: Seq<u8>, i: int, n: nat)
    requires
        0 <= i <= s.len(),
    ensures
        parse_items(s, i, n) matches ParsedItems::Complete { items, next } ==> i <= next
            <= s.len() && items.len() == n && (n > 0 ==> i < next),
    decreases s.len() - i, n + 1,
{
    if n > 0 && i < s.len() {
        lemma_frame_bounds(s, i);
        match parse_at(s, i) {
            Parsed::Complete { reply, next } => {
                if i < next <= s.len() {
                    lemma_items_bounds(s, next, (n - 1) as nat);
                }
            },
            _ => {},
        }
    }
}

/// A frame is decided by its own bytes: bytes that agree with `s` up to the
/// end of a whole frame of `s` hold the same frame.
pub proof fn lemma_frame_prefix(s: Seq<u8>, t: Seq<u8>, i: int)
    requires
        parse_at(s, i) matches Parsed::Complete { next, .. } && same_prefix(s, t, next),
    ensures
        parse_at(t, i) == parse_at(s, i),
    decreases s.len() - i, 0int,
{
    lemma_frame_bounds(s, i);
    let next = parse_at(s, i)->Complete_next;
    lemma_line_end_is_first(s, i + 1);
    let end = line_end(s, i + 1)->0;
    let after = end + 2;
    let line = s.subrange(i + 1, end);
    // the header line ends before the frame does
    assert(after <= next) by {
        if s[i] != SIGIL_SIMPLE && s[i] != SIGIL_ERROR && s[i] != SIGIL_INTEGER {
            let v = numeral(line)->0;
            if v >= 0 && s[i] != SIGIL_BULK {
                lemma_items_bounds(s, after, v as nat);
            }
        }
    }
    assert(crlf_at(t, end));
    assert forall|j: int| i + 1 <= j < end implies !crlf_at(t, j) by {
        assert(!crlf_at(s, j));
    }
    lemma_first_is_line_end(t, i + 1, end);
    assert(t.subrange(i + 1, end) =~= line);
    if s[i] != SIGIL_SIMPLE && s[i] != SIGIL_ERROR && s[i] != SIGIL_INTEGER {
        let v = numeral(line)->0;
        if v >= 0 {
            if s[i] == SIGIL_BULK {
                assert(t.subrange(after, after + v) =~= s.subrange(after, after + v));
            } else {
                lemma_items_prefix(s, t, after, v as nat);
            }
        }
    }
}

/// A run of frames is decided by its own bytes.
pub proof fn lemma_items_prefix(s: Seq<u8>, t: Seq<u8>, i: int, n: nat)
    requires
        0 <= i <= s.len(),
        parse_items(s, i, n) matches ParsedItems::Complete { next, .. } && same_prefix(s, t, next),
    ensures
        parse_items(t, i, n) == parse_items(s, i, n),
    decreases s.len() - i, n + 1,
{
    if n > 0 {
        lemma_frame_bounds(s, i);
        let first_next = parse_at(s, i)->Complete_next;
        lemma_items_bounds(s, first_next, (n - 1) as nat);
        lemma_frame_prefix(s, t, i);
        lemma_items_prefix(s, t, first_next, (n - 1) as nat);
    }
}

/// A truncated frame is never taken for a whole one: cut anywhere before its
/// end, the bytes of a whole frame are an unfinished frame.
pub proof fn lemma_truncated_frame(s: Seq<u8>, i: int, k: int)
    requires
        parse_at(s, i) matches Parsed::Complete { next, .. } && 0 <= k < next,
    ensures
        parse_at(s.take(k), i) == Parsed::Incomplete,
    decreases s.len() - i, 0int,
{
    lemma_frame_bounds(s, i);
    let t = s.take(k);
    if i < k {
        lemma_line_end_is_first(s, i + 1);
        let end = line_end(s, i + 1)->0;
        let after = end + 2;
        let line = s.subrange(i + 1, end);
        if k < after {
            lemma_line_end_is_first(t, i + 1);
            if line_end(t, i + 1) is Some {
                let e = line_end(t, i + 1)->0;
                assert(crlf_at(s, e));
                assert(e < end);
            }
        } else {
            assert(crlf_at(t, end));
            assert forall|j: int| i + 1 <= j < end implies !crlf_at(t, j) by {
                assert(!crlf_at(s, j));
            }
            lemma_first_is_line_end(t, i + 1, end);
            assert(t.subrange(i + 1, end) =~= line);
            let v = numeral(line)->0;
            if s[i] == SIGIL_ARRAY {
                lemma_truncated_items(s, after, v as nat, k);
            }
        }
    }
}

/// A truncated run of frames is never taken for a whole one.
pub proof fn lemma_truncated_items(s: Seq<u8>, i: int, n: nat, k: int)
    requires
        0 <= i <= s.len(),
        parse_items(s, i, n) matches ParsedItems::Complete { next, .. } && i <= k < next,
    ensures
        parse_items(s.take(k), i, n) == ParsedItems::Incomplete,
    decreases s.len() - i, n + 1,
{
    let t = s.take(k);
    if i < k {
        lemma_frame_bounds(s, i);
        let first_next = parse_at(s, i)->Complete_next;
        lemma_items_bounds(s, first_next, (n - 1) as nat);
        if k < first_next {
            lemma_truncated_frame(s, i, k);
        } else {
            lemma_frame_prefix(s, t, i);
            lemma_truncated_items(s, first_next, (n - 1) as nat, k);
        }
    }
}

/// Once decided, a verdict stands: when the bytes of `s` hold a whole frame,
/// a malformed one or an integer out of range, so do all bytes that extend `s`.
pub proof fn lemma_verdict_final(s: Seq<u8>, t: Seq<u8>, i: int)
    requires
        parse_at(s, i) != Parsed::Incomplete,
        same_prefix(s, t, s.len() as int),
    ensures
        parse_at(t, i) == parse_at(s, i),
    decreases s.len() - i, 0int,
{
    match parse_at(s, i) {
        Parsed::Complete { reply, next } => {
            lemma_frame_bounds(s, i);
            lemma_frame_prefix(s, t, i);
        },
        _ => {
            if is_sigil(s[i]) {
                lemma_line_end_is_first(s, i + 1);
                let end = line_end(s, i + 1)->0;
                let after = end + 2;
                let line = s.subrange(i + 1, end);
                assert(crlf_at(t, end));
                assert forall|j: int| i + 1 <= j < end implies !crlf_at(t, j) by {
                    assert(!crlf_at(s, j));
                }
                lemma_first_is_line_end(t, i + 1, end);
                assert(t.subrange(i + 1, end) =~= line);
                if s[i] == SIGIL_ARRAY && numeral(line) is Some {
                    let v = numeral(line)->0;
                    if 0 <= v <= i64::MAX {
                        lemma_items_final(s, t, after, v as nat);
                    }
                }
            }
        },
    }
}

/// Once decided, the verdict on a run of frames stands.
pub proof fn lemma_items_final(s: Seq<u8>, t: Seq<u8>, i: int, n: nat)
    requires
        0 <= i <= s.len(),
        parse_items(s, i, n) != ParsedItems::Incomplete,
        same_prefix(s, t, s.len() as int),
    ensures
        parse_items(t, i, n) == parse_items(s, i, n),
    decreases s.len() - i, n + 1,
{
    if n > 0 {
        lemma_frame_bounds(s, i);
        lemma_verdict_final(s, t, i);
        match parse_at(s, i) {
            Parsed::Complete { reply, next } => {
                lemma_items_final(s, t, next, (n - 1) as nat);
            },
            _ => {},
        }
    }
}

/// True when the bytes `x` stand in `s` from index `i` on.
pub open spec fn stands_at(s: Seq<u8>, i: int, x: Seq<u8>) -> bool {
    0 <= i && i + x.len() <= s.len() && s.subrange(i, i + x.len()) == x
}

/// True when the number of `args` and the length of each fit the 64-bit
/// signed range, as every length on the wire must.
pub open spec fn lengths_fit(args: Seq<Seq<u8>>) -> bool {
    args.len() <= i64::MAX && forall|j: int| 0 <= j < args.len() ==> (#[trigger] args[j]).len()
        <= i64::MAX
}

/// A length line reads back as the length it was written from.
pub proof fn lemma_length_line(s: Seq<u8>, i: int, n: nat)
    requires
        stands_at(s, i, decimal(n) + crlf()),
    ensures
        line_end(s, i) == Some(i + decimal(n).len()),
        s.subrange(i, i + decimal(n).len()) == decimal(n),
        numeral(decimal(n)) == Some(n as int),
{
    let d = decimal(n);
    let x = d + crlf();
    let e = i + d.len();
    lemma_decimal_is_digits(n);
    lemma_decimal_value(n);
    assert(is_digit(d[0]));
    assert forall|j: int| i <= j < i + x.len() implies s[j] == x[j - i] by {
        assert(s.subrange(i, i + x.len())[j - i] == s[j]);
    }
    assert(s[e] == x[e - i]);
    assert(s[e + 1] == x[e + 1 - i]);
    assert forall|j: int| i <= j < e implies !crlf_at(s, j) by {
        assert(s[j] == d[j - i]);
        assert(is_digit(d[j - i]));
    }
    lemma_first_is_line_end(s, i, e);
    assert(s.subrange(i, e) =~= d);
}

/// The frame of a byte string reads back as that byte string.
pub proof fn lemma_bulk_frame_reads_back(s: Seq<u8>, i: int, b: Seq<u8>)
    requires
        stands_at(s, i, bulk_frame(b)),
        b.len() <= i64::MAX,
    ensures
        parse_at(s, i) == (Parsed::Complete {
            reply: ReplyView::BulkString(b),
            next: i + bulk_frame(b).len(),
        }),
{
    let d = decimal(b.len());
    let x = bulk_frame(b);
    assert forall|j: int| i <= j < i + x.len() implies s[j] == x[j - i] by {
        assert(s.subrange(i, i + x.len())[j - i] == s[j]);
    }
    assert(s[i] == x[0]);
    assert(s.subrange(i + 1, i + 1 + (d + crlf()).len()) =~= d + crlf());
    lemma_length_line(s, i + 1, b.len());
    let end: int = i + 1 + d.len();
    let after: int = end + 2;
    assert(s.subrange(after, after + b.len()) =~= b);
    assert(s[after + b.len()] == x[after + b.len() - i]);
    assert(s[after + b.len() + 1] == x[after + b.len() + 1 - i]);
}

/// The frames of a run of byte strings read back as those byte strings.
pub proof fn lemma_bulk_frames_read_back(s: Seq<u8>, i: int, args: Seq<Seq<u8>>)
    requires
        stands_at(s, i, bulk_frames(args)),
        lengths_fit(args),
    ensures
        parse_items(s, i, args.len()) == (ParsedItems::Complete {
            items: bulk_replies(args),
            next: i + bulk_frames(args).len(),
        }),
    decreases args.len(),
{
    if args.len() == 0 {
        assert(bulk_replies(args) =~= Seq::<ReplyView>::empty());
    } else {
        let first = bulk_frame(args.first());
        let rest = bulk_frames(args.drop_first());
        lemma_stands_split(s, i, first, rest);
        assert(lengths_fit(args.drop_first())) by {
            assert forall|j: int| 0 <= j < args.drop_first().len() implies (
            #[trigger] args.drop_first()[j]).len() <= i64::MAX by {
                assert(args.drop_first()[j] == args[j + 1]);
            }
        }
        lemma_bulk_frame_reads_back(s, i, args.first());
        lemma_bulk_frames_read_back(s, i + first.len(), args.drop_first());
        assert(seq![ReplyView::BulkString(args.first())] + bulk_replies(args.drop_first())
            =~= bulk_replies(args));
    }
}

/// Round trip: the frame of a request reads back as one whole frame that
/// takes all the bytes: the array of the request's arguments, each a bulk
/// string.
pub proof fn lemma_request_reads_back(args: Seq<Seq<u8>>)
    requires
        lengths_fit(args),
    ensures
        parse_at(request_frame(args), 0) == (Parsed::Complete {
            reply: ReplyView::Array(bulk_replies(args)),
            next: request_frame(args).len() as int,
        }),
{
    let s = request_frame(args);
    let d = decimal(args.len());
    assert(s[0] == SIGIL_ARRAY);
    assert(s.subrange(1, 1int + (d + crlf()).len()) =~= d + crlf());
    lemma_length_line(s, 1, args.len());
    let after: int = 1int + d.len() + 2;
    assert(s.subrange(after, after + bulk_frames(args).len()) =~= bulk_frames(args));
    lemma_bulk_frames_read_back(s, after, args);
}

/// A line that holds no terminator ends at the terminator that follows it.
pub proof fn lemma_text_line(s: Seq<u8>, i: int, line: Seq<u8>)
    requires
        stands_at(s, i, line + crlf()),
        plain_line(line),
    ensures
        line_end(s, i) == Some(i + line.len()),
        s.subrange(i, i + line.len()) == line,
{
    let x = line + crlf();
    let e: int = i + line.len();
    assert forall|j: int| i <= j < i + x.len() implies s[j] == x[j - i] by {
        assert(s.subrange(i, i + x.len())[j - i] == s[j]);
    }
    assert(s[e] == x[e - i]);
    assert(s[e + 1] == x[e + 1 - i]);
    assert forall|j: int| i <= j < e implies !crlf_at(s, j) by {
        if j + 1 < e {
            assert(s[j] == line[j - i]);
            assert(s[j + 1] == line[j + 1 - i]);
            assert(!crlf_at(line, j - i));
        } else {
            assert(s[j + 1] == CR);
        }
    }
    lemma_first_is_line_end(s, i, e);
    assert(s.subrange(i, e) =~= line);
}

/// The decimal text of an integer holds no line terminator.
pub proof fn lemma_decimal_is_plain(v: int)
    ensures
        plain_line(signed_decimal(v)),
{
    let t = signed_decimal(v);
    if v < 0 {
        lemma_decimal_is_digits((-v) as nat);
    } else {
        lemma_decimal_is_digits(v as nat);
    }
    assert forall|j: int| !crlf_at(t, j) by {
        if 0 <= j < t.len() {
            if v < 0 {
                if j > 0 {
                    assert(t[j] == decimal((-v) as nat)[j - 1]);
                    assert(is_digit(decimal((-v) as nat)[j - 1]));
                }
            } else {
                assert(is_digit(decimal(v as nat)[j]));
            }
        }
    }
}

/// A leading token without a space ends at the space that follows it.
pub proof fn lemma_first_space_after_code(code: Seq<u8>, message: Seq<u8>)
    requires
        first_space(code) == code.len(),
    ensures
        first_space(code + seq![SPACE] + message) == code.len(),
    decreases code.len(),
{
    let line = code + seq![SPACE] + message;
    if code.len() == 0 {
        assert(line[0] == SPACE);
    } else {
        assert(line[0] == code[0]);
        assert(line.drop_first() =~= code.drop_first() + seq![SPACE] + message);
        lemma_first_space_after_code(code.drop_first(), message);
    }
}

/// The line of an error reply splits back into its token and its message.
pub proof fn lemma_error_line_splits(code: Seq<u8>, message: Seq<u8>)
    requires
        first_space(code) == code.len(),
    ensures
        error_code(error_line(code, message)) == code,
        error_message(error_line(code, message)) == message,
{
    let line = error_line(code, message);
    if message.len() == 0 {
        assert(line.take(code.len() as int) =~= code);
    } else {
        lemma_first_space_after_code(code, message);
        assert(line.take(code.len() as int) =~= code);
        assert(line.skip(code.len() as int + 1) =~= message);
    }
}

/// Where a run of bytes stands, so do its two halves, one after the other.
pub proof fn lemma_stands_split(s: Seq<u8>, i: int, a: Seq<u8>, b: Seq<u8>)
    requires
        stands_at(s, i, a + b),
    ensures
        stands_at(s, i, a),
        stands_at(s, i + a.len(), b),
{
    let x = a + b;
    assert(s.subrange(i, i + a.len()) =~= a) by {
        assert forall|j: int| 0 <= j < a.len() implies s.subrange(i, i + a.len())[j] == a[j] by {
            assert(s.subrange(i, i + x.len())[j] == x[j]);
        }
    }
    assert(s.subrange(i + a.len(), i + a.len() + b.len()) =~= b) by {
        assert forall|j: int| 0 <= j < b.len() implies s.subrange(
            i + a.len(),
            i + a.len() + b.len(),
        )[j] == b[j] by {
            assert(s.subrange(i, i + x.len())[a.len() + j] == x[a.len() + j]);
        }
    }
}

/// Where a sigil, a line and a terminator stand, the sigil stands first and
/// the line ends at the terminator.
pub proof fn lemma_sigil_line(s: Seq<u8>, i: int, sigil: u8, line: Seq<u8>)
    requires
        stands_at(s, i, seq![sigil] + line + crlf()),
        plain_line(line),
    ensures
        0 <= i < s.len(),
        s[i] == sigil,
        line_end(s, i + 1) == Some(i + 1 + line.len()),
        s.subrange(i + 1, i + 1 + line.len()) == line,
        i + 1 + line.len() + 2 <= s.len(),
{
    assert(seq![sigil] + line + crlf() =~= seq![sigil] + (line + crlf()));
    lemma_stands_split(s, i, seq![sigil], line + crlf());
    assert(s.subrange(i, i + 1)[0] == sigil);
    lemma_text_line(s, i + 1, line);
}

/// The frame of nothing reads back as nothing.
pub proof fn lemma_nil_reads_back(s: Seq<u8>, i: int)
    requires
        stands_at(s, i, reply_frame(ReplyView::Nil)),
    ensures
        parse_at(s, i) == (Parsed::Complete {
            reply: ReplyView::Nil,
            next: i + reply_frame(ReplyView::Nil).len(),
        }),
{
    let line = signed_decimal(-1);
    lemma_decimal_is_plain(-1);
    lemma_numeral_of_signed_decimal(-1);
    lemma_sigil_line(s, i, SIGIL_BULK, line);
}

/// The frame of an integer reads back as that integer.
pub proof fn lemma_integer_reads_back(s: Seq<u8>, i: int, v: int)
    requires
        i64::MIN <= v <= i64::MAX,
        stands_at(s, i, reply_frame(ReplyView::Integer(v))),
    ensures
        parse_at(s, i) == (Parsed::Complete {
            reply: ReplyView::Integer(v),
            next: i + reply_frame(ReplyView::Integer(v)).len(),
        }),
{
    let line = signed_decimal(v);
    lemma_decimal_is_plain(v);
    lemma_numeral_of_signed_decimal(v);
    lemma_sigil_line(s, i, SIGIL_INTEGER, line);
}

/// The frame of an error reads back as that error.
pub proof fn lemma_error_reads_back(s: Seq<u8>, i: int, code: Seq<u8>, message: Seq<u8>)
    requires
        framable(ReplyView::Error { code, message }),
        stands_at(s, i, reply_frame(ReplyView::Error { code, message })),
    ensures
        parse_at(s, i) == (Parsed::Complete {
            reply: ReplyView::Error { code, message },
            next: i + reply_frame(ReplyView::Error { code, message }).len(),
        }),
{
    let line = error_line(code, message);
    lemma_sigil_line(s, i, SIGIL_ERROR, line);
    lemma_error_line_splits(code, message);
}

/// Where the frame of an array stands, its count line reads back as the
/// number of its items, and the frames of its items stand after it.
pub proof fn lemma_array_head(s: Seq<u8>, i: int, items: Seq<ReplyView>)
    requires
        stands_at(s, i, reply_frame(ReplyView::Array(items))),
    ensures
        0 <= i < s.len(),
        s[i] == SIGIL_ARRAY,
        line_end(s, i + 1) == Some(i + 1 + decimal(items.len()).len()),
        s.subrange(i + 1, i + 1 + decimal(items.len()).len()) == decimal(items.len()),
        numeral(decimal(items.len())) == Some(items.len() as int),
        stands_at(s, i + 1 + decimal(items.len()).len() + 2, reply_frames(items)),
        reply_frame(ReplyView::Array(items)).len() == 1 + decimal(items.len()).len() + 2
            + reply_frames(items).len(),
{
    let d = decimal(items.len());
    let head = seq![SIGIL_ARRAY] + d + crlf();
    lemma_stands_split(s, i, head, reply_frames(items));
    lemma_decimal_is_plain(items.len() as int);
    lemma_numeral_of_signed_decimal(items.len() as int);
    lemma_sigil_line(s, i, SIGIL_ARRAY, d);
}

/// Round trip of replies: the frame of a reply reads back as that reply,
/// whatever bytes follow it.
pub proof fn lemma_reply_reads_back(s: Seq<u8>, i: int, reply: ReplyView)
    requires
        framable(reply),
        stands_at(s, i, reply_frame(reply)),
    ensures
        parse_at(s, i) == (Parsed::Complete { reply, next: i + reply_frame(reply).len() }),
    decreases reply,
{
    match reply {
        ReplyView::Nil => {
            lemma_nil_reads_back(s, i);
        },
        ReplyView::Integer(v) => {
            lemma_integer_reads_back(s, i, v);
        },
        ReplyView::BulkString(b) => {
            lemma_bulk_frame_reads_back(s, i, b);
        },
        ReplyView::Array(items) => {
            lemma_array_head(s, i, items);
            let after: int = i + 1 + decimal(items.len()).len() + 2;
            lemma_replies_read_back(s, after, items);
        },
        ReplyView::Error { code, message } => {
            lemma_error_reads_back(s, i, code, message);
        },
    }
}

/// Round trip of runs of replies.
pub proof fn lemma_replies_read_back(s: Seq<u8>, i: int, items: Seq<ReplyView>)
    requires
        forall|j: int| 0 <= j < items.len() ==> framable(#[trigger] items[j]),
        stands_at(s, i, reply_frames(items)),
    ensures
        parse_items(s, i, items.len()) == (ParsedItems::Complete {
            items,
            next: i + reply_frames(items).len(),
        }),
    decreases items,
{
    if items.len() == 0 {
        assert(items =~= Seq::<ReplyView>::empty());
    } else {
        let first = reply_frame(items.first());
        let rest = reply_frames(items.drop_first());
        lemma_stands_split(s, i, first, rest);
        assert forall|j: int| 0 <= j < items.drop_first().len() implies framable(
            #[trigger] items.drop_first()[j],
        ) by {
            assert(items.drop_first()[j] == items[j + 1]);
        }
        assert(framable(items[0]));
        lemma_reply_reads_back(s, i, items.first());
        lemma_replies_read_back(s, i + first.len(), items.drop_first());
        lemma_frame_bounds(s, i);
        assert(seq![items.first()] + items.drop_first() =~= items);
    }
}

/// Decoding the frame of a request gives the array of its arguments, each a
/// bulk string, and takes every byte of it.
pub proof fn lemma_decode_of_request(args: Seq<Seq<u8>>)
    requires
        lengths_fit(args),
    ensures
        decoded(request_frame(args)) == Ok::<(ReplyView, int), ErrorView>(
            (ReplyView::Array(bulk_replies(args)), request_frame(args).len() as int),
        ),
{
    lemma_request_reads_back(args);
}

/// Decoding the frame of a reply gives the reply and takes every byte of it.
pub proof fn lemma_decode_of_reply(reply: ReplyView)
    requires
        framable(reply),
    ensures
        decoded(reply_frame(reply)) == Ok::<(ReplyView, int), ErrorView>(
            (reply, reply_frame(reply).len() as int),
        ),
{
    let s = reply_frame(reply);
    assert(s.subrange(0, s.len() as int) =~= s);
    lemma_reply_reads_back(s, 0, reply);
}

/// A stream that ends inside a frame fails with a framing error: cut
/// anywhere before the end of its first frame, it never decodes to a value.
pub proof fn lemma_decode_of_truncated(stream: Seq<u8>, k: int)
    requires
        decoded(stream) matches Ok((_, used)) && 0 <= k < used,
    ensures
        decoded(stream.take(k)) == Err::<(ReplyView, int), ErrorView>(ErrorView::FramingError),
{
    lemma_truncated_frame(stream, 0, k);
}

/// A reply that was decoded does not depend on what follows its frame.
pub proof fn lemma_decode_ignores_rest(stream: Seq<u8>, other: Seq<u8>)
    requires
        decoded(stream) matches Ok((_, used)) && same_prefix(stream, other, used),
    ensures
        decoded(other) == decoded(stream),
{
    lemma_frame_prefix(stream, other, 0);
}

} // verus!
