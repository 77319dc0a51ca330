//! Peer identity labels and decimal rendering of client ids.
//!
//! An identity-aware subscribe payload is a UTF-8 string followed by one
//! terminator byte; the label is the payload with the terminator stripped.

use vstd::prelude::*;
use vstd::string::StringExecFns;
use vstd::utf8::decode_utf8;
use vstd::utf8::valid_utf8;

verus! {

/// What the identity label of a subscribe payload is: the payload minus its
/// one trailing terminator byte, decoded as UTF-8.  `None` when the payload
/// is empty or the remainder is not valid UTF-8.
pub open spec fn label_of(data: Seq<u8>) -> Option<Seq<char>> {
    if data.len() >= 1 && valid_utf8(data.take(data.len() as int - 1)) {
        Some(decode_utf8(data.take(data.len() as int - 1)))
    } else {
        None
    }
}

/// Relies on core::str::from_utf8: it succeeds exactly on valid UTF-8 input,
/// and then returns the string whose UTF-8 encoding is that input.
#[verifier::external_body]
fn utf8_to_string(bytes: &[u8]) -> (r: Option<String>)
    ensures
        r is Some <==> valid_utf8(bytes@),
        r is Some ==> r->0@ == decode_utf8(bytes@),
{
    match core::str::from_utf8(bytes) {
        Ok(s) => Some(s.to_string()),
        Err(_) => None,
    }
}

/// Decode the identity label carried by a subscribe payload; `None` exactly
/// when the payload is malformed (empty, or not UTF-8 before the terminator).
pub fn decode_label(data: &Vec<u8>) -> (r: Option<String>)
    ensures
        r is Some <==> label_of(data@) is Some,
        r is Some ==> r->0@ == label_of(data@)->0,
{
    if data.len() == 0 {
        None
    } else {
        let prefix = vstd::slice::slice_subrange(data.as_slice(), 0, data.len() - 1);
        utf8_to_string(prefix)
    }
}

/// The character for one decimal digit.
pub open spec fn digit_char(d: nat) -> char {
    if d == 0 {
        '0'
    } else if d == 1 {
        '1'
    } else if d == 2 {
        '2'
    } else if d == 3 {
        '3'
    } else if d == 4 {
        '4'
    } else if d == 5 {
        '5'
    } else if d == 6 {
        '6'
    } else if d == 7 {
        '7'
    } else if d == 8 {
        '8'
    } else {
        '9'
    }
}

/// The decimal rendering of `n`, most significant digit first, without
/// leading zeros (zero renders as the single digit `0`).
pub open spec fn decimal_digits(n: nat) -> Seq<char>
    decreases n,
{
    if n < 10 {
        seq![digit_char(n)]
    } else {
        decimal_digits(n / 10).push(digit_char(n % 10))
    }
}

fn digit_str(d: u16) -> (s: &'static str)
    requires
        d < 10,
    ensures
        s@ == seq![digit_char(d as nat)],
{
    let s: &'static str = if d == 0 {
        "0"
    } else if d == 1 {
        "1"
    } else if d == 2 {
        "2"
    } else if d == 3 {
        "3"
    } else if d == 4 {
        "4"
    } else if d == 5 {
        "5"
    } else if d == 6 {
        "6"
    } else if d == 7 {
        "7"
    } else if d == 8 {
        "8"
    } else {
        "9"
    };
    proof {
        reveal_strlit("0");
        reveal_strlit("1");
        reveal_strlit("2");
        reveal_strlit("3");
        reveal_strlit("4");
        reveal_strlit("5");
        reveal_strlit("6");
        reveal_strlit("7");
        reveal_strlit("8");
        reveal_strlit("9");
        assert(s@ =~= seq![digit_char(d as nat)]);
    }
    s
}

/// Render a client id in decimal, as carried in the `CID` environment
/// variable handed to a spawned process.
pub fn decimal_string(n: u16) -> (s: String)
    ensures
        s@ == decimal_digits(n as nat),
    decreases n,
{
    let d = digit_str(n % 10);
    if n < 10 {
        String::from_str(d)
    } else {
        let prefix = decimal_string(n / 10);
        let s = prefix.concat(d);
        proof {
            assert(s@ =~= decimal_digits(n as nat));
        }
        s
    }
}

} // verus!
