//! The text of a ranged read: the value of the `Range` header that asks an
//! object store for the bytes `start..=end` of an object.

use crate::planner::FetchRange;
use vstd::prelude::*;
use vstd::string::StringExecFns;

verus! {

/// The character for a decimal digit.
pub open spec fn digit_char(d: nat) -> char {
    if d == 0 {
        '0'
    } else if d == 1 {
        '1'
    } else if d == 2 {
        '2'
    } else if d == 3 {
        '3'
    } else if d == 4 {
        '4'
    } else if d == 5 {
        '5'
    } else if d == 6 {
        '6'
    } else if d == 7 {
        '7'
    } else if d == 8 {
        '8'
    } else {
        '9'
    }
}

/// A number in decimal notation, without sign or leading zeros.
pub open spec fn decimal(n: nat) -> Seq<char>
    decreases n,
{
    if n < 10 {
        seq![digit_char(n)]
    } else {
        decimal(n / 10).push(digit_char(n % 10))
    }
}

/// The header value for the bytes `start..=end`: the word `bytes`, an
/// equals sign, and the two offsets in decimal with a hyphen between them.
pub open spec fn range_header_text(start: nat, end: nat) -> Seq<char> {
    seq!['b', 'y', 't', 'e', 's', '='] + decimal(start) + seq!['-'] + decimal(end)
}

/// The one-character text for a decimal digit.
fn digit_str(d: usize) -> (s: &'static str)
    requires
        d < 10,
    ensures
        s@ == seq![digit_char(d as nat)],
{
    proof {
        reveal_strlit("0");
        reveal_strlit("1");
        reveal_strlit("2");
        reveal_strlit("3");
        reveal_strlit("4");
        reveal_strlit("5");
        reveal_strlit("6");
        reveal_strlit("7");
        reveal_strlit("8");
        reveal_strlit("9");
    }
    let s = match d {
        0 => "0",
        1 => "1",
        2 => "2",
        3 => "3",
        4 => "4",
        5 => "5",
        6 => "6",
        7 => "7",
        8 => "8",
        _ => "9",
    };
    assert(s@ =~= seq![digit_char(d as nat)]);
    s
}

/// Appends `n` in decimal notation to `text`.
fn push_decimal(text: &mut String, n: usize)
    ensures
        final(text)@ == old(text)@ + decimal(n as nat),
    decreases n,
{
    if n >= 10 {
        push_decimal(text, n / 10);
    }
    text.append(digit_str(n % 10));
    assert(text@ =~= old(text)@ + decimal(n as nat));
}

/// The `Range` header value that asks for the bytes `start..=end`.
pub fn range_header(start: usize, end: usize) -> (header: String)
    ensures
        header@ == range_header_text(start as nat, end as nat),
{
    proof {
        reveal_strlit("bytes=");
        reveal_strlit("-");
    }
    let mut header = String::from_str("bytes=");
    assert(header@ =~= seq!['b', 'y', 't', 'e', 's', '=']);
    push_decimal(&mut header, start);
    header.append("-");
    push_decimal(&mut header, end);
    assert(header@ =~= range_header_text(start as nat, end as nat));
    header
}

impl FetchRange {
    /// The `Range` header value of this read.
    pub fn header(&self) -> (header: String)
        ensures
            header@ == range_header_text(self@.start as nat, self@.end as nat),
    {
        range_header(self.start, self.end)
    }
}

} // verus!
