//! Reading the depth bound that the operator typed.

use vstd::prelude::*;

verus! {

/// The depth bound of a crawl whose operator typed none that can be read.
pub const DEFAULT_MAX_DEPTH: usize = 2;

/// Whether `c` is a decimal digit.
pub open spec fn is_digit(c: char) -> bool {
    '0' <= c <= '9'
}

/// The value of a decimal digit.
pub open spec fn digit_value(c: char) -> nat {
    (c as int - '0' as int) as nat
}

/// Whether `text` holds decimal digits only.
pub open spec fn all_digits(text: Seq<char>) -> bool {
    forall|i: int| 0 <= i < text.len() ==> is_digit(#[trigger] text[i])
}

/// The number that the decimal digits of `digits` write.
pub open spec fn digits_value(digits: Seq<char>) -> nat
    decreases digits.len(),
{
    if digits.len() == 0 {
        0
    } else {
        digits_value(digits.drop_last()) * 10 + digit_value(digits.last())
    }
}

/// `text` without the `+` that may stand in front of a number.
pub open spec fn unsigned_part(text: Seq<char>) -> Seq<char> {
    if text.len() > 0 && text[0] == '+' {
        text.drop_first()
    } else {
        text
    }
}

/// The number that `text` writes, if it writes one: one or more decimal
/// digits and nothing else, but for a `+` that may stand in front.
pub open spec fn written_number(text: Seq<char>) -> Option<nat> {
    let digits = unsigned_part(text);
    if digits.len() > 0 && all_digits(digits) {
        Some(digits_value(digits))
    } else {
        None
    }
}

/// The depth bound that `text` gives, if it gives one: the number it writes,
/// where that number fits the machine.
pub open spec fn depth_written(text: Seq<char>) -> Option<usize> {
    match written_number(text) {
        Some(number) if number <= usize::MAX => Some(number as usize),
        _ => None,
    }
}

/// The number that some digits write is no less than the number that the
/// first of them write.
proof fn lemma_digits_value_grows(digits: Seq<char>, count: int)
    requires
        0 <= count <= digits.len(),
    ensures
        digits_value(digits.take(count)) <= digits_value(digits),
    decreases digits.len(),
{
    if count == digits.len() {
        assert(digits.take(count) =~= digits);
    } else {
        assert(digits.drop_last().take(count) =~= digits.take(count));
        lemma_digits_value_grows(digits.drop_last(), count);
    }
}

/// What has been read of the digits of `text` once `count` of its
/// characters are read.
spec fn digits_read(text: Seq<char>, count: int) -> Seq<char> {
    if count > 0 && text[0] == '+' {
        text.subrange(1, count)
    } else {
        text.subrange(0, count)
    }
}

/// Reads the depth bound that `text` writes: `None` where it writes no
/// number, or one that does not fit the machine.
pub fn parse_depth(text: &str) -> (depth: Option<usize>)
    ensures
        depth == depth_written(text@),
{
    let mut value: usize = 0;
    let mut read_any = false;
    let mut at_start = true;
    for c in it: text.chars()
        invariant
            it.seq() == text@,
            at_start == (it.index() == 0),
            all_digits(digits_read(text@, it.index() as int)),
            read_any == (digits_read(text@, it.index() as int).len() > 0),
            value == digits_value(digits_read(text@, it.index() as int)),
    {
        let ghost count = it.index() as int;
        let ghost before = digits_read(text@, count);
        let ghost after = digits_read(text@, count + 1);
        let ghost part = unsigned_part(text@);
        if at_start && c == '+' {
            assert(after =~= Seq::empty());
        } else {
            proof {
                assert(after =~= before.push(c));
                assert(after.drop_last() =~= before);
                assert(part.take(after.len() as int) =~= after);
                assert(part[after.len() - 1] == c);
            }
            if !('0' <= c && c <= '9') {
                return None;
            }
            let digit = (c as u32 - '0' as u32) as usize;
            assert(digit == digit_value(c));
            proof {
                lemma_digits_value_grows(part, after.len() as int);
            }
            match value.checked_mul(10) {
                Some(tens) => match tens.checked_add(digit) {
                    Some(sum) => {
                        value = sum;
                    },
                    None => {
                        return None;
                    },
                },
                None => {
                    return None;
                },
            }
            read_any = true;
        }
        at_start = false;
    }
    assert(digits_read(text@, text@.len() as int) =~= unsigned_part(text@));
    if read_any {
        Some(value)
    } else {
        None
    }
}

/// The depth bound of a crawl whose operator typed `text`: the number typed,
/// or the default where none can be read.
pub open spec fn depth_from_input(text: Seq<char>) -> usize {
    match depth_written(text) {
        Some(depth) => depth,
        None => DEFAULT_MAX_DEPTH,
    }
}

/// Reads the depth bound that the operator typed, falling back on the default
/// without a word where none can be read.
pub fn max_depth_from_input(text: &str) -> (depth: usize)
    ensures
        depth == depth_from_input(text@),
{
    match parse_depth(text) {
        Some(depth) => depth,
        None => DEFAULT_MAX_DEPTH,
    }
}

} // verus!
