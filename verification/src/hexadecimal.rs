//! Bytes as lowercase hexadecimal text.

use vstd::prelude::*;

verus! {

/// The sixteen digits, in order of their worth.
pub open spec fn hex_digits() -> Seq<char> {
    seq!['0', '1', '2', '3', '4', '5', '6', '7', '8', '9', 'a', 'b', 'c', 'd', 'e', 'f']
}

/// The text of `bytes`: two digits for each byte, the high half first, with
/// nothing before, between or after.
pub open spec fn hex_chars(bytes: Seq<u8>) -> Seq<char> {
    Seq::new(
        2 * bytes.len(),
        |i: int|
            if i % 2 == 0 {
                hex_digits()[bytes[i / 2] as int / 16]
            } else {
                hex_digits()[bytes[i / 2] as int % 16]
            },
    )
}

/// Calls `hex::encode`. Believed without proof: each byte comes back as two
/// characters of `0123456789abcdef`, the one for its high half first.
#[verifier::external_body]
pub(crate) fn hex_encode(bytes: &[u8]) -> (text: String)
    ensures
        text@ == hex_chars(bytes@),
{
    hex::encode(bytes)
}

/// The text of the digit that is worth `nibble`.
pub(crate) fn digit_text(nibble: u8) -> (text: &'static str)
    requires
        nibble < 16,
    ensures
        text@ == seq![hex_digits()[nibble as int]],
{
    let text = match nibble {
        0 => "0",
        1 => "1",
        2 => "2",
        3 => "3",
        4 => "4",
        5 => "5",
        6 => "6",
        7 => "7",
        8 => "8",
        9 => "9",
        10 => "a",
        11 => "b",
        12 => "c",
        13 => "d",
        14 => "e",
        _ => "f",
    };
    proof {
        reveal_strlit("0");
        reveal_strlit("1");
        reveal_strlit("2");
        reveal_strlit("3");
        reveal_strlit("4");
        reveal_strlit("5");
        reveal_strlit("6");
        reveal_strlit("7");
        reveal_strlit("8");
        reveal_strlit("9");
        reveal_strlit("a");
        reveal_strlit("b");
        reveal_strlit("c");
        reveal_strlit("d");
        reveal_strlit("e");
        reveal_strlit("f");
        assert(text@.len() == 1);
        assert(text@ =~= seq![hex_digits()[nibble as int]]);
    }
    text
}

/// The text of a byte string grows by two digits with each byte.
pub proof fn lemma_hex_chars_push(bytes: Seq<u8>, byte: u8)
    ensures
        hex_chars(bytes.push(byte)) == hex_chars(bytes) + seq![
            hex_digits()[byte as int / 16],
            hex_digits()[byte as int % 16],
        ],
{
    let whole = hex_chars(bytes.push(byte));
    let parts = hex_chars(bytes) + seq![
        hex_digits()[byte as int / 16],
        hex_digits()[byte as int % 16],
    ];
    assert(whole.len() == parts.len());
    assert forall|i: int| 0 <= i < whole.len() implies whole[i] == parts[i] by {
        if i < 2 * bytes.len() {
            assert(bytes.push(byte)[i / 2] == bytes[i / 2]);
        } else {
            assert(i / 2 == bytes.len());
            assert(bytes.push(byte)[i / 2] == byte);
        }
    }
    assert(whole =~= parts);
}

} // verus!
