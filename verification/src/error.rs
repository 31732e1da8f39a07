//! Failure kinds of the core operations.

use vstd::prelude::*;
use vstd::string::StringExecFns;

verus! {

/// What went wrong in a core operation.
///
/// Failures that come from the operating system carry its error number in
/// `error`; the socket-option failures also carry the option's level and name.
#[derive(Debug, Clone, Copy, PartialEq, Eq, Structural)]
pub enum Error {
    /// The frame arena could not be allocated.
    MemoryAllocationFailure,
    /// A ring could not be mapped.
    MemoryMapFailure,
    /// A blocking poll returned without the socket being readable.
    PollFailure,
    /// The socket could not be bound to its interface and queue.
    SocketBindFailure { error: i32 },
    /// The kernel socket could not be created.
    SocketCreationFailure,
    /// A socket option could not be read.
    SocketGetOptionFailure { error: i32, level: i32, name: i32 },
    /// A socket option was read, but with an unexpected size.
    SocketGetOptionSizeFailure { expecting: usize, received: usize },
    /// The transmission wake-up could not be sent.
    SocketSendFailure { error: i32 },
    /// A socket option could not be set.
    SocketSetOptionFailure { error: i32, level: i32, name: i32 },
}

/// The character of the decimal digit `digit`.
pub open spec fn digit_char(digit: int) -> char {
    if digit == 0 {
        '0'
    } else if digit == 1 {
        '1'
    } else if digit == 2 {
        '2'
    } else if digit == 3 {
        '3'
    } else if digit == 4 {
        '4'
    } else if digit == 5 {
        '5'
    } else if digit == 6 {
        '6'
    } else if digit == 7 {
        '7'
    } else if digit == 8 {
        '8'
    } else {
        '9'
    }
}

/// The decimal digits of `value`, without leading zeros.
pub open spec fn decimal_digits(value: nat) -> Seq<char>
    decreases value,
{
    if value < 10 {
        seq![digit_char(value as int)]
    } else {
        decimal_digits(value / 10).push(digit_char((value % 10) as int))
    }
}

/// `value` in decimal, with a minus sign if it is negative.
pub open spec fn decimal(value: int) -> Seq<char> {
    if value < 0 {
        seq!['-'] + decimal_digits((-value) as nat)
    } else {
        decimal_digits(value as nat)
    }
}

/// The text of one decimal digit.
fn digit_text(digit: u64) -> (r: &'static str)
    requires
        digit < 10,
    ensures
        r@ == seq![digit_char(digit as int)],
{
    proof {
        reveal_strlit("0");
        reveal_strlit("1");
        reveal_strlit("2");
        reveal_strlit("3");
        reveal_strlit("4");
        reveal_strlit("5");
        reveal_strlit("6");
        reveal_strlit("7");
        reveal_strlit("8");
        reveal_strlit("9");
    }
    let text = if digit == 0 {
        "0"
    } else if digit == 1 {
        "1"
    } else if digit == 2 {
        "2"
    } else if digit == 3 {
        "3"
    } else if digit == 4 {
        "4"
    } else if digit == 5 {
        "5"
    } else if digit == 6 {
        "6"
    } else if digit == 7 {
        "7"
    } else if digit == 8 {
        "8"
    } else {
        "9"
    };
    assert(text@ =~= seq![digit_char(digit as int)]);
    text
}

/// Renders `value` in decimal.
pub fn unsigned_text(value: u64) -> (r: String)
    ensures
        r@ == decimal_digits(value as nat),
    decreases value,
{
    if value < 10 {
        String::from_str(digit_text(value))
    } else {
        let mut text = unsigned_text(value / 10);
        text.append(digit_text(value % 10));
        assert(text@ =~= decimal_digits(value as nat));
        text
    }
}

/// Renders `value` in decimal, with a minus sign if it is negative.
pub fn signed_text(value: i32) -> (r: String)
    ensures
        r@ == decimal(value as int),
{
    if value < 0 {
        proof {
            reveal_strlit("-");
        }
        let magnitude: u64 = (-(value as i64)) as u64;
        let mut text = String::from_str("-");
        let digits = unsigned_text(magnitude);
        text.append(digits.as_str());
        assert(text@ =~= decimal(value as int));
        text
    } else {
        unsigned_text(value as u64)
    }
}

/// Asks `std::io::Error` for the text of the operating system's error
/// `code`. The text depends on the system, so nothing is claimed of it.
#[verifier::external_body]
fn os_error_text(code: i32) -> String {
    std::io::Error::from_raw_os_error(code).to_string()
}

impl Error {
    /// The operating system's error number that the failure carries.
    pub open spec fn spec_os_error(self) -> Option<i32> {
        match self {
            Error::SocketBindFailure { error } => Some(error),
            Error::SocketGetOptionFailure { error, level, name } => Some(error),
            Error::SocketSendFailure { error } => Some(error),
            Error::SocketSetOptionFailure { error, level, name } => Some(error),
            _ => None,
        }
    }

    /// The message of the failure, where `cause` is the text of the
    /// operating system's error that it carries.
    pub open spec fn spec_message(self, cause: Seq<char>) -> Seq<char> {
        match self {
            Error::MemoryAllocationFailure => "Memory allocation failure"@,
            Error::MemoryMapFailure => "Memory map failure"@,
            Error::PollFailure => "Poll failure"@,
            Error::SocketBindFailure { error } => "Socket bind failure"@,
            Error::SocketCreationFailure => "Socket creation failure"@,
            Error::SocketGetOptionFailure { error, level, name } => {
                "Socket getsockopt failure (error = "@ + cause + ", level = "@ + decimal(
                    level as int,
                ) + ", name = "@ + decimal(name as int) + ")"@
            },
            Error::SocketGetOptionSizeFailure { expecting, received } => {
                "Socket getsockopt failure (expecting size "@ + decimal_digits(expecting as nat)
                    + " received size "@ + decimal_digits(received as nat) + ")"@
            },
            Error::SocketSendFailure { error } => "Socket send failure (error = "@ + cause + ")"@,
            Error::SocketSetOptionFailure { error, level, name } => {
                "Socket setsockopt failure (error = "@ + cause + ", level = "@ + decimal(
                    level as int,
                ) + ", name = "@ + decimal(name as int) + ")"@
            },
        }
    }

    /// The operating system's error number that the failure carries.
    pub fn os_error(&self) -> (r: Option<i32>)
        ensures
            r == self.spec_os_error(),
    {
        match self {
            Error::SocketBindFailure { error } => Some(*error),
            Error::SocketGetOptionFailure { error, level, name } => Some(*error),
            Error::SocketSendFailure { error } => Some(*error),
            Error::SocketSetOptionFailure { error, level, name } => Some(*error),
            _ => None,
        }
    }

    /// Renders the failure as a short message, in which `cause` stands for
    /// the operating system's error that the failure carries.
    pub fn message_with(&self, cause: &str) -> (r: String)
        ensures
            r@ == self.spec_message(cause@),
    {
        match self {
            Error::MemoryAllocationFailure => String::from_str("Memory allocation failure"),
            Error::MemoryMapFailure => String::from_str("Memory map failure"),
            Error::PollFailure => String::from_str("Poll failure"),
            Error::SocketBindFailure { error } => String::from_str("Socket bind failure"),
            Error::SocketCreationFailure => String::from_str("Socket creation failure"),
            Error::SocketGetOptionFailure { error, level, name } => {
                let mut text = String::from_str("Socket getsockopt failure (error = ");
                text.append(cause);
                text.append(", level = ");
                text.append(signed_text(*level).as_str());
                text.append(", name = ");
                text.append(signed_text(*name).as_str());
                text.append(")");
                text
            },
            Error::SocketGetOptionSizeFailure { expecting, received } => {
                let mut text = String::from_str("Socket getsockopt failure (expecting size ");
                text.append(unsigned_text(*expecting as u64).as_str());
                text.append(" received size ");
                text.append(unsigned_text(*received as u64).as_str());
                text.append(")");
                text
            },
            Error::SocketSendFailure { error } => {
                let mut text = String::from_str("Socket send failure (error = ");
                text.append(cause);
                text.append(")");
                text
            },
            Error::SocketSetOptionFailure { error, level, name } => {
                let mut text = String::from_str("Socket setsockopt failure (error = ");
                text.append(cause);
                text.append(", level = ");
                text.append(signed_text(*level).as_str());
                text.append(", name = ");
                text.append(signed_text(*name).as_str());
                text.append(")");
                text
            },
        }
    }

    /// Renders the failure as a short message that names the failing
    /// operation and wraps the operating system's text for its cause.
    pub fn message(&self) -> (r: String)
        ensures
            exists|cause: Seq<char>| r@ == self.spec_message(cause),
            self.spec_os_error() is None ==> r@ == self.spec_message(Seq::empty()),
    {
        match self.os_error() {
            Some(code) => {
                let cause = os_error_text(code);
                self.message_with(cause.as_str())
            },
            None => {
                proof {
                    reveal_strlit("");
                }
                let text = self.message_with("");
                assert(""@ =~= Seq::<char>::empty());
                text
            },
        }
    }
}

} // verus!
