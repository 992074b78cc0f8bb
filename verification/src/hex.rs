//! File names: the key of a record in hexadecimal digits.

use vstd::prelude::*;

verus! {

/// The lower case hexadecimal digit for a number below sixteen.
pub open spec fn hex_digit(n: int) -> char {
    if n < 10 {
        (('0' as int) + n) as char
    } else {
        (('a' as int) + n - 10) as char
    }
}

/// A byte string in hexadecimal: two digits for each byte, the high one first.
pub open spec fn hex(bytes: Seq<u8>) -> Seq<char> {
    Seq::new(
        2 * bytes.len(),
        |i: int|
            if i % 2 == 0 {
                hex_digit(bytes[i / 2] as int / 16)
            } else {
                hex_digit(bytes[i / 2] as int % 16)
            },
    )
}

/// The digit for `n`, as a string.
pub(crate) fn hex_digit_text(n: u8) -> (digit: &'static str)
    requires
        n < 16,
    ensures
        digit@ == seq![hex_digit(n as int)],
{
    proof {
        reveal_strlit("0");
        reveal_strlit("1");
        reveal_strlit("2");
        reveal_strlit("3");
        reveal_strlit("4");
        reveal_strlit("5");
        reveal_strlit("6");
        reveal_strlit("7");
        reveal_strlit("8");
        reveal_strlit("9");
        reveal_strlit("a");
        reveal_strlit("b");
        reveal_strlit("c");
        reveal_strlit("d");
        reveal_strlit("e");
        reveal_strlit("f");
    }
    let digit: &'static str = match n {
        0 => "0",
        1 => "1",
        2 => "2",
        3 => "3",
        4 => "4",
        5 => "5",
        6 => "6",
        7 => "7",
        8 => "8",
        9 => "9",
        10 => "a",
        11 => "b",
        12 => "c",
        13 => "d",
        14 => "e",
        _ => "f",
    };
    assert(digit@ =~= seq![hex_digit(n as int)]);
    digit
}

/// Writes a byte string in hexadecimal.
pub fn to_hex(bytes: &[u8]) -> (text: String)
    ensures
        text@ == hex(bytes@),
{
    let mut text: String = String::new();
    let mut i: usize = 0;
    while i < bytes.len()
        invariant
            i <= bytes@.len(),
            text@ == hex(bytes@.take(i as int)),
        decreases bytes@.len() - i,
    {
        let byte: u8 = bytes[i];
        text.append(hex_digit_text(byte / 16));
        text.append(hex_digit_text(byte % 16));
        assert(text@ =~= hex(bytes@.take(i + 1)));
        i = i + 1;
    }
    assert(bytes@.take(bytes@.len() as int) =~= bytes@);
    text
}

/// Different keys have different file names.
pub proof fn hex_is_injective(a: Seq<u8>, b: Seq<u8>)
    ensures
        hex(a) == hex(b) <==> a == b,
{
    if hex(a) == hex(b) {
        assert(hex(a).len() == 2 * a.len());
        assert(a.len() == b.len());
        assert forall|i: int| 0 <= i < a.len() implies a[i] == b[i] by {
            assert(hex(a)[2 * i] == hex(b)[2 * i]);
            assert(hex(a)[2 * i + 1] == hex(b)[2 * i + 1]);
            assert((2 * i) / 2 == i && (2 * i + 1) / 2 == i);
            assert(a[i] / 16 < 16 && b[i] / 16 < 16);
        }
        assert(a =~= b);
    }
}

/// A byte string reads back from its file name: the name consists of lower case hexadecimal
/// digits alone, two for each byte, and the values of the two, the first taken sixteen times,
/// give the byte.
pub proof fn hex_reads_back(bytes: Seq<u8>)
    ensures
        hex(bytes).len() == 2 * bytes.len(),
        forall|i: int|
            0 <= i < hex(bytes).len() ==> '0' <= #[trigger] hex(bytes)[i] <= '9' || 'a' <= hex(
                bytes,
            )[i] <= 'f',
        forall|i: int|
            0 <= i < bytes.len() ==> #[trigger] bytes[i] == 16 * digit_value(hex(bytes)[2 * i])
                + digit_value(hex(bytes)[2 * i + 1]),
{
    assert forall|i: int| 0 <= i < bytes.len() implies #[trigger] bytes[i] == 16 * digit_value(
        hex(bytes)[2 * i],
    ) + digit_value(hex(bytes)[2 * i + 1]) by {
        assert((2 * i) / 2 == i && (2 * i + 1) / 2 == i);
        assert((2 * i) % 2 == 0 && (2 * i + 1) % 2 == 1);
    }
}

/// The number that a decimal or a lower case hexadecimal digit stands for.
pub open spec fn digit_value(digit: char) -> int {
    if digit <= '9' {
        digit as int - '0' as int
    } else {
        digit as int - 'a' as int + 10
    }
}

} // verus!
