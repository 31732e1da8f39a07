//! What the outcome of a system call means: success, or which failure.

use vstd::prelude::*;
use vstd::string::{StrSliceExecFns, StringExecFns};
use crate::error::Error;

verus! {

/// The readiness flag of a poll: there is data to read.
pub const POLLIN: i16 = 1;

/// The send flag that keeps a send from blocking.
pub const MSG_DONTWAIT: i32 = 0x40;

/// What a `getsockopt` call came to: a negative result is a failure of the
/// query, with the call's error number; a reply of another size than
/// expected is a size failure; anything else is a success.
pub open spec fn spec_getsockopt_outcome(
    result: i32,
    error: i32,
    level: i32,
    name: i32,
    expecting: usize,
    received: usize,
) -> Result<(), Error> {
    if result < 0 {
        Err(Error::SocketGetOptionFailure { error, level, name })
    } else if received != expecting {
        Err(Error::SocketGetOptionSizeFailure { expecting, received })
    } else {
        Ok(())
    }
}

/// What a `setsockopt` call came to: a negative result is a failure, with
/// the call's error number; anything else is a success.
pub open spec fn spec_setsockopt_outcome(result: i32, error: i32, level: i32, name: i32) -> Result<
    (),
    Error,
> {
    if result < 0 {
        Err(Error::SocketSetOptionFailure { error, level, name })
    } else {
        Ok(())
    }
}

/// Judges a `getsockopt` call for option `name` at `level` that returned
/// `result`, with the error number `error` if that is negative, and a reply
/// of `received` bytes where `expecting` bytes were expected.
pub fn getsockopt_outcome(
    result: i32,
    error: i32,
    level: i32,
    name: i32,
    expecting: usize,
    received: usize,
) -> (r: Result<(), Error>)
    ensures
        r == spec_getsockopt_outcome(result, error, level, name, expecting, received),
{
    // check result
    if result < 0 {
        return Err(Error::SocketGetOptionFailure { error, level, name });
    }
    // check length
    if received != expecting {
        return Err(Error::SocketGetOptionSizeFailure { expecting, received });
    }
    Ok(())
}

/// Judges a `setsockopt` call for option `name` at `level` that returned
/// `result`, with the error number `error` if that is negative.
pub fn setsockopt_outcome(result: i32, error: i32, level: i32, name: i32) -> (r: Result<(), Error>)
    ensures
        r == spec_setsockopt_outcome(result, error, level, name),
{
    if result < 0 {
        Err(Error::SocketSetOptionFailure { error, level, name })
    } else {
        Ok(())
    }
}

/// Judges a poll for reception that reported the events `revents`: it
/// failed unless the socket is readable.
pub fn poll_outcome(revents: i16) -> (r: Result<(), Error>)
    ensures
        revents & POLLIN == 0 ==> r == Err::<(), Error>(Error::PollFailure),
        revents & POLLIN != 0 ==> r is Ok,
{
    if (revents & POLLIN) == 0 {
        Err(Error::PollFailure)
    } else {
        Ok(())
    }
}

/// Judges the empty send that wakes the kernel for transmission: a negative
/// result is a send failure, with the call's error number.
pub fn send_outcome(result: isize, error: i32) -> (r: Result<(), Error>)
    ensures
        result < 0 ==> r == Err::<(), Error>(Error::SocketSendFailure { error }),
        result >= 0 ==> r is Ok,
{
    if result < 0 {
        Err(Error::SocketSendFailure { error })
    } else {
        Ok(())
    }
}

/// The file that holds the index of the interface called `name`.
pub open spec fn spec_interface_index_path(name: Seq<char>) -> Seq<char> {
    "/sys/class/net/"@ + name + "/ifindex"@
}

/// The path of the file that holds the index of the interface called `name`.
pub fn interface_index_path(name: &str) -> (r: String)
    ensures
        r@ == spec_interface_index_path(name@),
{
    let mut path = String::from_str("/sys/class/net/");
    path.append(name);
    path.append("/ifindex");
    path
}

/// Whether `c` is white space.
pub open spec fn is_white_space(c: char) -> bool {
    let code = c as u32;
    ||| 9 <= code <= 13
    ||| code == 0x20
    ||| code == 0x85
    ||| code == 0xa0
    ||| code == 0x1680
    ||| 0x2000 <= code <= 0x200a
    ||| code == 0x2028
    ||| code == 0x2029
    ||| code == 0x202f
    ||| code == 0x205f
    ||| code == 0x3000
}

/// Whether `c` is a decimal digit.
pub open spec fn is_digit(c: char) -> bool {
    48 <= c as u32 <= 57
}

/// Number of white space characters at the start of `text`.
pub open spec fn leading_white_space(text: Seq<char>) -> nat
    decreases text.len(),
{
    if text.len() > 0 && is_white_space(text.first()) {
        1 + leading_white_space(text.drop_first())
    } else {
        0
    }
}

/// Number of white space characters at the end of `text`.
pub open spec fn trailing_white_space(text: Seq<char>) -> nat
    decreases text.len(),
{
    if text.len() > 0 && is_white_space(text.last()) {
        1 + trailing_white_space(text.drop_last())
    } else {
        0
    }
}

/// `text` without the white space at its start and at its end.
pub open spec fn trimmed(text: Seq<char>) -> Seq<char> {
    let rest = text.skip(leading_white_space(text) as int);
    rest.take(rest.len() - trailing_white_space(rest))
}

/// Whether `text` holds decimal digits only.
pub open spec fn all_digits(text: Seq<char>) -> bool {
    forall|k: int| 0 <= k < text.len() ==> is_digit(#[trigger] text[k])
}

/// The number that the decimal digits `text` stand for.
pub open spec fn number_value(text: Seq<char>) -> nat
    decreases text.len(),
{
    if text.len() == 0 {
        0
    } else {
        number_value(text.drop_last()) * 10 + (text.last() as u32 - 48) as nat
    }
}

/// The interface index that `text` holds: `text` without the white space
/// around it is an optional plus sign and then at least one decimal digit,
/// and the number fits 32 bits.
pub open spec fn spec_parse_interface_index(text: Seq<char>) -> Option<u32> {
    let word = trimmed(text);
    let body = if word.len() > 0 && word.first() == '+' {
        word.drop_first()
    } else {
        word
    };
    if body.len() > 0 && all_digits(body) && number_value(body) <= u32::MAX {
        Some(number_value(body) as u32)
    } else {
        None
    }
}

/// If the first `count` characters are white space and the next one is not,
/// `count` characters of white space lead.
proof fn lemma_leading(text: Seq<char>, count: nat)
    requires
        count <= text.len(),
        forall|k: int| 0 <= k < count ==> is_white_space(#[trigger] text[k]),
        count < text.len() ==> !is_white_space(text[count as int]),
    ensures
        leading_white_space(text) == count,
    decreases count,
{
    if count > 0 {
        let rest = text.drop_first();
        assert forall|k: int| 0 <= k < count - 1 implies is_white_space(#[trigger] rest[k]) by {
            assert(rest[k] == text[k + 1]);
        }
        if count - 1 < rest.len() {
            assert(rest[count - 1] == text[count as int]);
        }
        lemma_leading(rest, (count - 1) as nat);
    }
}

/// If the last `count` characters are white space and the one before them is
/// not, `count` characters of white space trail.
proof fn lemma_trailing(text: Seq<char>, count: nat)
    requires
        count <= text.len(),
        forall|k: int| text.len() - count <= k < text.len() ==> is_white_space(#[trigger] text[k]),
        count < text.len() ==> !is_white_space(text[text.len() - count - 1]),
    ensures
        trailing_white_space(text) == count,
    decreases count,
{
    if count > 0 {
        let rest = text.drop_last();
        assert forall|k: int| rest.len() - (count - 1) <= k < rest.len() implies is_white_space(
            #[trigger] rest[k],
        ) by {
            assert(rest[k] == text[k]);
        }
        if count - 1 < rest.len() {
            assert(rest[rest.len() - (count - 1) - 1] == text[text.len() - count - 1]);
        }
        lemma_trailing(rest, (count - 1) as nat);
    }
}

/// A number does not get smaller when digits are appended.
proof fn lemma_number_grows(text: Seq<char>, count: int)
    requires
        0 <= count <= text.len(),
        all_digits(text),
    ensures
        number_value(text.take(count)) <= number_value(text),
    decreases text.len() - count,
{
    if count < text.len() {
        let longer = text.take(count + 1);
        assert(longer.drop_last() =~= text.take(count));
        assert(is_digit(text[count]));
        assert(longer.last() == text[count]);
        lemma_number_grows(text, count + 1);
    } else {
        assert(text.take(count) =~= text);
    }
}

/// Whether `c` is white space.
fn white_space(c: char) -> (r: bool)
    ensures
        r == is_white_space(c),
{
    let code = c as u32;
    (9 <= code && code <= 13) || code == 0x20 || code == 0x85 || code == 0xa0 || code == 0x1680
        || (0x2000 <= code && code <= 0x200a) || code == 0x2028 || code == 0x2029 || code
        == 0x202f || code == 0x205f || code == 0x3000
}

/// Reads the interface index out of `text`, the content of an interface's
/// index file: a decimal number, with an optional plus sign before it and
/// white space around it. Returns nothing where `text` holds no such number,
/// or one that does not fit 32 bits.
pub fn parse_interface_index(text: &str) -> (r: Option<u32>)
    ensures
        r == spec_parse_interface_index(text@),
{
    let length = text.unicode_len();
    // skip the white space at the start
    let mut start: usize = 0;
    let mut scanning = true;
    while scanning && start < length
        invariant
            length == text@.len(),
            start <= length,
            forall|k: int| 0 <= k < start ==> is_white_space(#[trigger] text@[k]),
            !scanning ==> start < length && !is_white_space(text@[start as int]),
        decreases length - start + (if scanning { 1nat } else { 0nat }),
    {
        if white_space(text.get_char(start)) {
            start += 1;
        } else {
            scanning = false;
        }
    }
    // skip the white space at the end
    let mut end: usize = length;
    let mut scanning = true;
    while scanning && end > start
        invariant
            length == text@.len(),
            start <= end <= length,
            forall|k: int| end <= k < length ==> is_white_space(#[trigger] text@[k]),
            !scanning ==> end > start && !is_white_space(text@[end - 1]),
        decreases end - start + (if scanning { 1nat } else { 0nat }),
    {
        if white_space(text.get_char(end - 1)) {
            end -= 1;
        } else {
            scanning = false;
        }
    }
    let ghost word = text@.subrange(start as int, end as int);
    proof {
        lemma_leading(text@, start as nat);
        let rest = text@.skip(start as int);
        assert forall|k: int| rest.len() - (length - end) <= k < rest.len() implies is_white_space(
            #[trigger] rest[k],
        ) by {
            assert(rest[k] == text@[k + start]);
        }
        if length - end < rest.len() {
            assert(rest[rest.len() - (length - end) - 1] == text@[end - 1]);
        }
        lemma_trailing(rest, (length - end) as nat);
        assert(trimmed(text@) =~= word);
    }
    // skip a plus sign
    let mut position: usize = start;
    if position < end && text.get_char(position) == '+' {
        position += 1;
    }
    let ghost body = text@.subrange(position as int, end as int);
    proof {
        if position > start {
            assert(word.first() == '+');
            assert(word.drop_first() =~= body);
        } else {
            assert(word =~= body);
            if word.len() > 0 {
                assert(word.first() == text@[start as int]);
            }
        }
    }
    if position >= end {
        return None;
    }
    // read the digits
    let first = position;
    let mut value: u64 = 0;
    assert(body.take(0) =~= Seq::<char>::empty());
    while position < end
        invariant
            length == text@.len(),
            body.len() > 0,
            spec_parse_interface_index(text@) == (if all_digits(body) && number_value(body)
                <= u32::MAX {
                Some(number_value(body) as u32)
            } else {
                None
            }),
            first <= position <= end <= length,
            body == text@.subrange(first as int, end as int),
            all_digits(body.take(position - first)),
            value == number_value(body.take(position - first)),
            value <= u32::MAX,
        decreases end - position,
    {
        let c = text.get_char(position);
        let code = c as u32;
        let ghost seen = body.take(position - first);
        let ghost longer = body.take(position - first + 1);
        proof {
            assert(body[position - first] == c);
            assert(longer.drop_last() =~= seen);
            assert(longer.last() == c);
        }
        if code < 48 || code > 57 {
            assert(!is_digit(body[position - first]));
            return None;
        }
        value = value * 10 + (code - 48) as u64;
        proof {
            assert forall|k: int| 0 <= k < longer.len() implies is_digit(#[trigger] longer[k]) by {
                if k < seen.len() {
                    assert(longer[k] == seen[k]);
                }
            }
        }
        if value > u32::MAX as u64 {
            proof {
                if all_digits(body) {
                    lemma_number_grows(body, position - first + 1);
                }
            }
            return None;
        }
        position += 1;
    }
    proof {
        assert(body.take(position - first) =~= body);
    }
    Some(value as u32)
}

} // verus!
