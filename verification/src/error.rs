//! The ways in which a retrieval can fail, and how each is reported.

use vstd::prelude::*;
use vstd::string::StringExecFns;

verus! {

/// Why a retrieval was given up. Every failure is final: nothing is retried
/// and no part of the payload is handed out.
#[derive(Debug, Clone, Copy, PartialEq, Eq, Structural)]
pub enum FetchError {
    /// The connection could not be opened, or a read or write on it failed.
    ConnectionError,
    /// The first line of a response holds no numeric status code.
    MalformedStatusLine,
    /// A response holds no `Content-Length` header with a numeric value.
    MissingContentLength,
    /// A response came with a status other than 200 and 206.
    UnexpectedStatus(u16),
}

/// The character for the digit `d`, which is below ten.
pub open spec fn digit_char(d: nat) -> char {
    ((0x30 + d) as u8) as char
}

/// `n` in decimal, without leading zeros.
pub open spec fn decimal_text(n: nat) -> Seq<char>
    decreases n,
{
    if n < 10 {
        seq![digit_char(n)]
    } else {
        decimal_text(n / 10).push(digit_char(n % 10))
    }
}

/// The text that reports `error`.
pub open spec fn message_text(error: FetchError) -> Seq<char> {
    match error {
        FetchError::ConnectionError => "Connection failed"@,
        FetchError::MalformedStatusLine => "Failed to parse status code"@,
        FetchError::MissingContentLength => "Failed to parse Content-Length"@,
        FetchError::UnexpectedStatus(code) => "Error occurred, status code "@ + decimal_text(
            code as nat,
        ),
    }
}

/// The digit `d` as text.
fn digit_text(d: u16) -> (t: &'static str)
    requires
        d < 10,
    ensures
        t@ == seq![digit_char(d as nat)],
{
    proof {
        reveal_strlit("0");
        reveal_strlit("1");
        reveal_strlit("2");
        reveal_strlit("3");
        reveal_strlit("4");
        reveal_strlit("5");
        reveal_strlit("6");
        reveal_strlit("7");
        reveal_strlit("8");
        reveal_strlit("9");
    }
    let t = match d {
        0 => "0",
        1 => "1",
        2 => "2",
        3 => "3",
        4 => "4",
        5 => "5",
        6 => "6",
        7 => "7",
        8 => "8",
        _ => "9",
    };
    assert(t@ =~= seq![digit_char(d as nat)]);
    t
}

/// Appends `n` in decimal to `out`.
fn push_decimal_text(out: &mut String, n: u16)
    ensures
        final(out)@ == old(out)@ + decimal_text(n as nat),
    decreases n,
{
    if n >= 10 {
        push_decimal_text(out, n / 10);
    }
    out.append(digit_text(n % 10));
    proof {
        let d = digit_char((n % 10) as nat);
        if n < 10 {
            assert(old(out)@ + seq![d] =~= old(out)@ + decimal_text(n as nat));
        } else {
            assert(old(out)@ + decimal_text((n / 10) as nat) + seq![d] =~= old(out)@
                + decimal_text(n as nat));
        }
    }
}

impl FetchError {
    /// The text that reports this error.
    pub fn message(&self) -> (text: String)
        ensures
            text@ == message_text(*self),
    {
        match self {
            FetchError::ConnectionError => String::from_str("Connection failed"),
            FetchError::MalformedStatusLine => String::from_str("Failed to parse status code"),
            FetchError::MissingContentLength => String::from_str("Failed to parse Content-Length"),
            FetchError::UnexpectedStatus(code) => {
                let mut text = String::from_str("Error occurred, status code ");
                push_decimal_text(&mut text, *code);
                text
            },
        }
    }
}

} // verus!
