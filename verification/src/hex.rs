//! Byte strings in lower-case hexadecimal, for showing opaque values such as
//! names, sealed blobs and attestations.

use vstd::prelude::*;
use vstd::string::StringExecFns;

verus! {

/// The sixteen digits, by value.
pub open spec fn hex_digits() -> Seq<char> {
    seq!['0', '1', '2', '3', '4', '5', '6', '7', '8', '9', 'a', 'b', 'c', 'd', 'e', 'f']
}

/// Two digits for each byte, the high half first.
pub open spec fn hexencoded(input: Seq<u8>) -> Seq<char> {
    Seq::new(
        2 * input.len(),
        |i: int|
            if i % 2 == 0 {
                hex_digits()[input[i / 2] as int / 16]
            } else {
                hex_digits()[input[i / 2] as int % 16]
            },
    )
}

/// The digit for a value below sixteen.
fn digit(value: u8) -> (text: &'static str)
    requires
        value < 16,
    ensures
        text@ == seq![hex_digits()[value as int]],
{
    proof {
        reveal_strlit("0");
        reveal_strlit("1");
        reveal_strlit("2");
        reveal_strlit("3");
        reveal_strlit("4");
        reveal_strlit("5");
        reveal_strlit("6");
        reveal_strlit("7");
        reveal_strlit("8");
        reveal_strlit("9");
        reveal_strlit("a");
        reveal_strlit("b");
        reveal_strlit("c");
        reveal_strlit("d");
        reveal_strlit("e");
        reveal_strlit("f");
    }
    let text = match value {
        0 => "0",
        1 => "1",
        2 => "2",
        3 => "3",
        4 => "4",
        5 => "5",
        6 => "6",
        7 => "7",
        8 => "8",
        9 => "9",
        10 => "a",
        11 => "b",
        12 => "c",
        13 => "d",
        14 => "e",
        _ => "f",
    };
    assert(text@ =~= seq![hex_digits()[value as int]]);
    text
}

/// Writes `input` in lower-case hexadecimal.
pub fn hexencode(input: &[u8]) -> (output: String)
    ensures
        output@ == hexencoded(input@),
{
    let mut output = String::new();
    let mut i: usize = 0;
    while i < input.len()
        invariant
            i <= input@.len(),
            output@ == hexencoded(input@.take(i as int)),
        decreases input@.len() - i,
    {
        let byte = input[i];
        let ghost before = output@;
        output.append(digit(byte / 16));
        output.append(digit(byte % 16));
        proof {
            let high = seq![hex_digits()[byte as int / 16]];
            let low = seq![hex_digits()[byte as int % 16]];
            assert(output@ == before + high + low);
            assert(input@.take(i + 1) =~= input@.take(i as int).push(byte));
            assert(before + high + low =~= hexencoded(input@.take(i + 1)));
        }
        i += 1;
    }
    assert(input@.take(i as int) =~= input@);
    output
}

} // verus!
