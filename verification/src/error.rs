//! What can go wrong with a transfer.

use vstd::prelude::*;
use vstd::string::{StrSliceExecFns, StringExecFns};

verus! {

/// Why a transfer failed. `E` is the error of the CAN transmitter.
#[derive(Debug, PartialEq)]
pub enum SdoError<E> {
    /// The server did not answer in time.
    Timeout,
    /// Another request is still in flight.
    RequestPending,
    /// The transmitter refused a frame.
    TxError(E),
    /// The server's answer does not fit the request.
    InvalidResponse,
    /// The transfer was aborted, with the given abort code.
    SdoAbort(u32),
    /// The data does not fit the buffer or the kind of transfer.
    BufferSizeWrong,
    /// The node identifier is above 127.
    InvalidNodeId,
}

/// The upper-case hexadecimal digits, in the order of their values.
pub open spec fn hex_digit(value: int) -> char {
    "0123456789ABCDEF"@[value]
}

/// The `count` last hexadecimal digits of `value`, most significant first.
pub open spec fn hex(value: int, count: nat) -> Seq<char>
    decreases count,
{
    if count == 0 {
        Seq::empty()
    } else {
        hex(value / 16, (count - 1) as nat).push(hex_digit(value % 16))
    }
}

/// The text that stands for an error in a log.
pub open spec fn error_text<E>(error: SdoError<E>) -> Seq<char> {
    match error {
        SdoError::Timeout => "Timeout"@,
        SdoError::RequestPending => "RequestPending"@,
        SdoError::InvalidResponse => "InvalidResponse"@,
        SdoError::SdoAbort(code) => "SdoAbort(0x"@ + hex(code as int, 8) + ")"@,
        SdoError::TxError(_) => "TxError"@,
        SdoError::BufferSizeWrong => "BufferSizeWrong"@,
        SdoError::InvalidNodeId => "InvalidNodeId"@,
    }
}

/// `hex(value, count)` begins with the digit at position `count - 1`.
proof fn lemma_hex_front(value: int, count: nat, divisor: int)
    requires
        0 <= value,
        0 < count,
        divisor == power_of_16((count - 1) as nat),
    ensures
        0 < divisor,
        hex(value, count) == seq![hex_digit((value / divisor) % 16)] + hex(
            value,
            (count - 1) as nat,
        ),
    decreases count,
{
    if count == 1 {
        assert(hex(value / 16, 0) =~= Seq::empty());
        assert(hex(value, 1) =~= seq![hex_digit(value % 16)] + hex(value, 0));
    } else {
        let smaller = power_of_16((count - 2) as nat);
        lemma_hex_front(value / 16, (count - 1) as nat, smaller);
        assert((value / 16) / smaller == value / (16 * smaller)) by {
            vstd::arithmetic::div_mod::lemma_div_denominator(value, 16, smaller);
        }
        assert(hex(value, count) =~= seq![hex_digit((value / divisor) % 16)] + hex(
            value,
            (count - 1) as nat,
        ));
    }
}

spec fn power_of_16(exponent: nat) -> int
    decreases exponent,
{
    if exponent == 0 {
        1
    } else {
        16 * power_of_16((exponent - 1) as nat)
    }
}

/// The eight hexadecimal digits of `code`.
fn hex_digits(code: u32) -> (digits: String)
    ensures
        digits@ == hex(code as int, 8),
{
    proof {
        reveal_strlit("0123456789ABCDEF");
        reveal_with_fuel(power_of_16, 9);
    }
    let alphabet = "0123456789ABCDEF";
    let mut digits = String::new();
    let mut left: u32 = 8;
    let mut divisor: u32 = 0x1000_0000;
    while left > 0
        invariant
            left <= 8,
            left > 0 ==> divisor == power_of_16((left - 1) as nat),
            alphabet@ == "0123456789ABCDEF"@,
            alphabet@.len() == 16,
            alphabet.is_ascii(),
            digits@ + hex(code as int, left as nat) == hex(code as int, 8),
        decreases left,
    {
        proof {
            lemma_hex_front(code as int, left as nat, divisor as int);
        }
        let digit: usize = ((code / divisor) % 16) as usize;
        digits.append(alphabet.substring_ascii(digit, digit + 1));
        proof {
            assert(alphabet@.subrange(digit as int, digit + 1) =~= seq![hex_digit(digit as int)]);
            assert(left > 1 ==> divisor == 16 * power_of_16((left - 2) as nat));
        }
        divisor = divisor / 16;
        left = left - 1;
    }
    proof {
        assert(digits@ + hex(code as int, 0) =~= digits@);
    }
    digits
}

impl<E> SdoError<E> {
    /// The error as the text of a log line: the variant's name, with the code of an abort in
    /// hexadecimal. What a transmitter's own error holds is left out.
    pub fn format(&self) -> (text: String)
        ensures
            text@ == error_text(*self),
    {
        match self {
            SdoError::Timeout => String::from_str("Timeout"),
            SdoError::RequestPending => String::from_str("RequestPending"),
            SdoError::InvalidResponse => String::from_str("InvalidResponse"),
            SdoError::SdoAbort(code) => String::from_str("SdoAbort(0x").concat(
                hex_digits(*code).as_str(),
            ).concat(")"),
            SdoError::TxError(_) => String::from_str("TxError"),
            SdoError::BufferSizeWrong => String::from_str("BufferSizeWrong"),
            SdoError::InvalidNodeId => String::from_str("InvalidNodeId"),
        }
    }
}

} // verus!
