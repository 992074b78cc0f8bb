//! Numbers and addresses as text.

use vstd::prelude::*;

use crate::hex::hex_digit;
use crate::hex::hex_digit_text;

verus! {

/// A number in decimal digits, without leading zeroes.
pub open spec fn decimal(n: nat) -> Seq<char>
    decreases n,
{
    if n < 10 {
        seq![hex_digit(n as int)]
    } else {
        decimal(n / 10).push(hex_digit((n % 10) as int))
    }
}

/// Writes a number in decimal digits.
pub fn to_decimal(n: u16) -> (text: String)
    ensures
        text@ == decimal(n as nat),
    decreases n,
{
    let digit: &'static str = hex_digit_text((n % 10) as u8);
    let mut text: String = String::new();
    if n >= 10 {
        text = to_decimal(n / 10);
    }
    text.append(digit);
    assert(text@ =~= decimal(n as nat));
    text
}

/// An IPv4 address in dotted decimal form.
pub open spec fn dotted(address: Seq<u8>) -> Seq<char> {
    decimal(address[0] as nat) + seq!['.'] + decimal(address[1] as nat) + seq!['.'] + decimal(
        address[2] as nat,
    ) + seq!['.'] + decimal(address[3] as nat)
}

/// Writes an IPv4 address in dotted decimal form.
pub fn to_dotted(address: [u8; 4]) -> (text: String)
    ensures
        text@ == dotted(address@),
{
    proof {
        reveal_strlit(".");
    }
    let mut text: String = to_decimal(address[0] as u16);
    text.append(".");
    text.append(to_decimal(address[1] as u16).as_str());
    text.append(".");
    text.append(to_decimal(address[2] as u16).as_str());
    text.append(".");
    text.append(to_decimal(address[3] as u16).as_str());
    assert("."@ =~= seq!['.']);
    assert(text@ =~= dotted(address@));
    text
}

/// The number that decimal digits stand for, read from left to right.
pub open spec fn digits_value(text: Seq<char>) -> int
    decreases text.len(),
{
    if text.len() == 0 {
        0
    } else {
        10 * digits_value(text.drop_last()) + (text.last() as int - '0' as int)
    }
}

/// Whether a text consists of decimal digits, at least one, and does not start with a zero
/// unless it is nothing else.
pub open spec fn is_numeral(text: Seq<char>) -> bool {
    &&& text.len() > 0
    &&& forall|i: int| 0 <= i < text.len() ==> '0' <= #[trigger] text[i] <= '9'
    &&& text[0] == '0' ==> text.len() == 1
}

/// A number reads back from its text, which is a numeral.
pub proof fn decimal_reads_back(n: nat)
    ensures
        is_numeral(decimal(n)),
        digits_value(decimal(n)) == n,
    decreases n,
{
    let text = decimal(n);
    if n >= 10 {
        decimal_reads_back(n / 10);
        let rest = decimal(n / 10);
        assert(text.drop_last() =~= rest);
        assert(text[0] == rest[0]);
        if rest[0] == '0' {
            assert(rest.drop_last() =~= Seq::empty());
            assert(digits_value(rest.drop_last()) == 0);
            assert(digits_value(rest) == 0);
        }
        assert forall|i: int| 0 <= i < text.len() implies '0' <= #[trigger] text[i] <= '9' by {
            if i < rest.len() {
                assert(text[i] == rest[i]);
            }
        }
    } else {
        assert(text.drop_last() =~= Seq::empty());
        assert(digits_value(text.drop_last()) == 0);
    }
}

/// Different numbers have different texts.
pub proof fn decimal_is_injective(a: nat, b: nat)
    ensures
        decimal(a) == decimal(b) <==> a == b,
{
    decimal_reads_back(a);
    decimal_reads_back(b);
}

/// Whether the text from `start` up to `end` is the numeral of a number.
pub open spec fn reads_as(text: Seq<char>, start: int, end: int, n: int) -> bool {
    &&& 0 <= start <= end <= text.len()
    &&& is_numeral(text.subrange(start, end))
    &&& digits_value(text.subrange(start, end)) == n
}

/// Whether dots at `i`, `j` and `k` divide a text into the numerals of four bytes.
pub open spec fn divides(text: Seq<char>, bytes: Seq<u8>, i: int, j: int, k: int) -> bool {
    &&& reads_as(text, 0, i, bytes[0] as int)
    &&& reads_as(text, i + 1, j, bytes[1] as int)
    &&& reads_as(text, j + 1, k, bytes[2] as int)
    &&& reads_as(text, k + 1, text.len() as int, bytes[3] as int)
    &&& text[i] == '.' && text[j] == '.' && text[k] == '.'
}

/// An address reads back from its text: three dots divide the text into the numerals of the four
/// bytes, in their order.
pub proof fn dotted_reads_back(address: Seq<u8>)
    requires
        address.len() == 4,
    ensures
        exists|i: int, j: int, k: int| #[trigger] divides(dotted(address), address, i, j, k),
{
    let text = dotted(address);
    let (a, b) = (decimal(address[0] as nat), decimal(address[1] as nat));
    let (c, d) = (decimal(address[2] as nat), decimal(address[3] as nat));
    decimal_reads_back(address[0] as nat);
    decimal_reads_back(address[1] as nat);
    decimal_reads_back(address[2] as nat);
    decimal_reads_back(address[3] as nat);
    let i = a.len() as int;
    let j = i + 1 + b.len();
    let k = j + 1 + c.len();
    assert(text.len() == k + 1 + d.len());
    assert(text.subrange(0, i) =~= a);
    assert(text.subrange(i + 1, j) =~= b);
    assert(text.subrange(j + 1, k) =~= c);
    assert(text.subrange(k + 1, text.len() as int) =~= d);
    assert(divides(text, address, i, j, k));
}

} // verus!
