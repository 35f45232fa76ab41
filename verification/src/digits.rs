//! Decimal text: how integers are written on the wire and read back.

use vstd::prelude::*;

verus! {

/// ASCII `0`.
pub const ZERO: u8 = 48;

/// ASCII `-`.
pub const MINUS: u8 = 45;

/// ASCII `+`.
pub const PLUS: u8 = 43;

/// The ASCII digit for `d`, where `0 <= d <= 9`.
pub open spec fn digit_byte(d: int) -> u8 {
    (48 + d) as u8
}

pub open spec fn is_digit(b: u8) -> bool {
    48 <= b <= 57
}

/// The shortest decimal text of `n`: no sign, no leading zero.
pub open spec fn decimal(n: nat) -> Seq<u8>
    decreases n,
{
    if n < 10 {
        seq![digit_byte(n as int)]
    } else {
        decimal(n / 10).push(digit_byte((n % 10) as int))
    }
}

/// The decimal text of `i`, with a leading `-` when `i` is negative.
pub open spec fn signed_decimal(i: int) -> Seq<u8> {
    if i < 0 {
        seq![MINUS] + decimal((-i) as nat)
    } else {
        decimal(i as nat)
    }
}

/// True when `s` is one or more ASCII digits.
pub open spec fn all_digits(s: Seq<u8>) -> bool {
    s.len() > 0 && forall|i: int| 0 <= i < s.len() ==> is_digit(#[trigger] s[i])
}

/// The number that a run of ASCII digits denotes, most significant digit first.
pub open spec fn digits_value(s: Seq<u8>) -> nat
    decreases s.len(),
{
    if s.len() == 0 {
        0
    } else {
        (digits_value(s.drop_last()) * 10 + (s.last() - 48)) as nat
    }
}

/// The integer that `line` denotes: an optional `+` or `-`, then one or more
/// digits. `None` for anything else.
pub open spec fn numeral(line: Seq<u8>) -> Option<int> {
    if line.len() > 0 && line[0] == MINUS {
        if all_digits(line.skip(1)) {
            Some(-(digits_value(line.skip(1)) as int))
        } else {
            None
        }
    } else if line.len() > 0 && line[0] == PLUS {
        if all_digits(line.skip(1)) {
            Some(digits_value(line.skip(1)) as int)
        } else {
            None
        }
    } else if all_digits(line) {
        Some(digits_value(line) as int)
    } else {
        None
    }
}

/// What reading an integer from a line of text gives.
#[derive(Clone, Copy, Debug, PartialEq, Eq)]
pub enum IntegerText {
    /// The line denotes this integer.
    Value(i64),
    /// The line denotes an integer outside the 64-bit signed range.
    OutOfRange,
    /// The line is not an integer.
    Malformed,
}

/// The reading of `line` as a 64-bit signed integer.
pub open spec fn integer_text(line: Seq<u8>) -> IntegerText {
    match numeral(line) {
        None => IntegerText::Malformed,
        Some(v) => if i64::MIN <= v <= i64::MAX {
            IntegerText::Value(v as i64)
        } else {
            IntegerText::OutOfRange
        },
    }
}

/// Every byte of a decimal text is a digit.
pub proof fn lemma_decimal_is_digits(n: nat)
    ensures
        all_digits(decimal(n)),
    decreases n,
{
    if n >= 10 {
        lemma_decimal_is_digits(n / 10);
    }
}

/// Reading a decimal text gives the number back.
pub proof fn lemma_decimal_value(n: nat)
    ensures
        digits_value(decimal(n)) == n,
    decreases n,
{
    if n < 10 {
        assert(decimal(n).drop_last() =~= Seq::<u8>::empty());
        assert(digits_value(decimal(n).drop_last()) == 0);
    } else {
        lemma_decimal_value(n / 10);
        assert(decimal(n).drop_last() =~= decimal(n / 10));
    }
}

/// Writing an integer and reading the text gives the integer back.
pub proof fn lemma_numeral_of_signed_decimal(i: int)
    ensures
        numeral(signed_decimal(i)) == Some(i),
{
    if i < 0 {
        let m = (-i) as nat;
        lemma_decimal_is_digits(m);
        lemma_decimal_value(m);
        assert(signed_decimal(i).skip(1) =~= decimal(m));
    } else {
        lemma_decimal_is_digits(i as nat);
        lemma_decimal_value(i as nat);
        assert(is_digit(decimal(i as nat)[0]));
    }
}

/// Appends the decimal text of `n` to `out`.
pub fn push_decimal(out: &mut Vec<u8>, n: u64)
    ensures
        final(out)@ == old(out)@ + decimal(n as nat),
    decreases n,
{
    if n >= 10 {
        push_decimal(out, n / 10);
    }
    let d: u8 = (n % 10) as u8;
    out.push(ZERO + d);
    assert(final(out)@ =~= old(out)@ + decimal(n as nat));
}

/// The decimal text of `n`.
pub fn render_decimal(n: u64) -> (text: Vec<u8>)
    ensures
        text@ == decimal(n as nat),
{
    let mut text: Vec<u8> = Vec::new();
    push_decimal(&mut text, n);
    assert(text@ =~= decimal(n as nat));
    text
}

/// Reads the text `line` as a 64-bit signed integer.
#[verifier::loop_isolation(false)]
pub fn read_integer(line: &[u8]) -> (r: IntegerText)
    ensures
        r == integer_text(line@),
{
    let end: usize = line.len();
    if end == 0 {
        return IntegerText::Malformed;
    }
    let first: u8 = line[0];
    let negative = first == MINUS;
    let signed = negative || first == PLUS;
    let from: usize = if signed {
        1
    } else {
        0
    };
    let ghost text = line@.subrange(from as int, end as int);
    assert(signed ==> line@.skip(1) =~= text);
    assert(!signed ==> line@ =~= text);
    if from == end {
        return IntegerText::Malformed;
    }
    let limit: u64 = if negative {
        0x8000_0000_0000_0000
    } else {
        0x7fff_ffff_ffff_ffff
    };
    let mut acc: u64 = 0;
    let mut over = false;
    let mut i: usize = from;
    assert(line@.subrange(from as int, i as int) =~= Seq::<u8>::empty());
    while i < end
        invariant
            from <= i <= end,
            end == line@.len(),
            text == line@.subrange(from as int, end as int),
            forall|j: int| from <= j < i ==> is_digit(#[trigger] line@[j]),
            !over ==> acc == digits_value(line@.subrange(from as int, i as int)) && acc <= limit,
            over ==> digits_value(line@.subrange(from as int, i as int)) > limit,
            limit == 0x8000_0000_0000_0000 || limit == 0x7fff_ffff_ffff_ffff,
        decreases end - i,
    {
        let b: u8 = line[i];
        if b < 48 || b > 57 {
            assert(text[i - from] == b);
            return IntegerText::Malformed;
        }
        let d: u64 = (b - 48) as u64;
        proof {
            let wider = line@.subrange(from as int, i + 1);
            assert(wider.drop_last() =~= line@.subrange(from as int, i as int));
            assert(wider.last() == b);
        }
        if !over {
            if acc > (limit - d) / 10 {
                over = true;
            } else {
                acc = acc * 10 + d;
            }
        }
        i = i + 1;
    }
    assert(all_digits(text)) by {
        assert forall|j: int| 0 <= j < text.len() implies is_digit(#[trigger] text[j]) by {
            assert(text[j] == line@[from + j]);
        }
    }
    if over {
        IntegerText::OutOfRange
    } else if negative {
        if acc == 0x8000_0000_0000_0000 {
            IntegerText::Value(i64::MIN)
        } else {
            let m: i64 = acc as i64;
            IntegerText::Value(-m)
        }
    } else {
        IntegerText::Value(acc as i64)
    }
}

} // verus!
