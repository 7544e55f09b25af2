//! Hexadecimal digits and the pairing of bytes with two-digit groups.

use vstd::prelude::*;

verus! {

/// A character that may appear in the body of a record: `0-9`, `a-f` or `A-F`.
pub open spec fn is_hex_digit(c: char) -> bool {
    let u = c as u32;
    (48 <= u && u <= 57) || (65 <= u && u <= 70) || (97 <= u && u <= 102)
}

/// Numeric value of a hexadecimal digit character.
pub open spec fn hex_val(c: char) -> u8 {
    let u = c as u32;
    if 48 <= u && u <= 57 {
        (u - 48) as u8
    } else if 65 <= u && u <= 70 {
        (u - 55) as u8
    } else {
        (u - 87) as u8
    }
}

/// The uppercase hexadecimal digit character for a value below 16.
pub open spec fn hex_char(d: u8) -> char {
    if d < 10 {
        ((48 + d) as u8) as char
    } else {
        ((55 + d) as u8) as char
    }
}

/// Every character of `s` is a hexadecimal digit.
pub open spec fn all_hex(s: Seq<char>) -> bool {
    forall|i: int| 0 <= i < s.len() ==> is_hex_digit(#[trigger] s[i])
}

/// The bytes denoted by a sequence of hexadecimal digit pairs.
pub open spec fn bytes_of_hex(s: Seq<char>) -> Seq<u8> {
    Seq::new(s.len() / 2, |k: int| (16 * hex_val(s[2 * k]) + hex_val(s[2 * k + 1])) as u8)
}

/// The uppercase two-digit rendering of each byte of `b`, concatenated.
pub open spec fn hex_of_bytes(b: Seq<u8>) -> Seq<char> {
    Seq::new(
        2 * b.len(),
        |i: int|
            if i % 2 == 0 {
                hex_char(b[i / 2] / 16)
            } else {
                hex_char(b[i / 2] % 16)
            },
    )
}

/// An uppercase digit renders as a hexadecimal digit and decodes back to its value.
pub proof fn lemma_hex_char_val(d: u8)
    requires
        d < 16,
    ensures
        is_hex_digit(hex_char(d)),
        hex_val(hex_char(d)) == d,
{
}

/// Rendering bytes as digit pairs yields only hexadecimal digits.
pub proof fn lemma_hex_of_bytes_all_hex(b: Seq<u8>)
    ensures
        all_hex(hex_of_bytes(b)),
{
    assert forall|i: int| 0 <= i < hex_of_bytes(b).len() implies is_hex_digit(
        #[trigger] hex_of_bytes(b)[i],
    ) by {
        if i % 2 == 0 {
            lemma_hex_char_val(b[i / 2] / 16);
        } else {
            lemma_hex_char_val(b[i / 2] % 16);
        }
    }
}

/// Decoding the rendering of a byte sequence gives the sequence back.
pub proof fn lemma_bytes_of_hex_of_bytes(b: Seq<u8>)
    ensures
        bytes_of_hex(hex_of_bytes(b)) == b,
{
    let s = hex_of_bytes(b);
    assert forall|k: int| 0 <= k < b.len() implies #[trigger] bytes_of_hex(s)[k] == b[k] by {
        assert(s[2 * k] == hex_char(b[k] / 16));
        assert(s[2 * k + 1] == hex_char(b[k] % 16));
        lemma_hex_char_val(b[k] / 16);
        lemma_hex_char_val(b[k] % 16);
    }
    assert(bytes_of_hex(s) =~= b);
}

/// Replacing the digit at position `i` replaces exactly the byte of its pair.
pub proof fn lemma_bytes_of_hex_update(s: Seq<char>, i: int, c: char)
    requires
        0 <= i < s.len(),
        s.len() % 2 == 0,
    ensures
        bytes_of_hex(s.update(i, c)) == bytes_of_hex(s).update(
            i / 2,
            if i % 2 == 0 {
                (16 * hex_val(c) + hex_val(s[2 * (i / 2) + 1])) as u8
            } else {
                (16 * hex_val(s[2 * (i / 2)]) + hex_val(c)) as u8
            },
        ),
{
    let nb = if i % 2 == 0 {
        (16 * hex_val(c) + hex_val(s[2 * (i / 2) + 1])) as u8
    } else {
        (16 * hex_val(s[2 * (i / 2)]) + hex_val(c)) as u8
    };
    let b1 = bytes_of_hex(s);
    let b2 = bytes_of_hex(s.update(i, c));
    assert forall|k: int| 0 <= k < b1.len() implies b2[k] == b1.update(i / 2, nb)[k] by {
        if k != i / 2 {
            assert(2 * k != i && 2 * k + 1 != i);
        }
    }
    assert(b2 =~= b1.update(i / 2, nb));
}

/// Decode one character as a hexadecimal digit, if it is one.
pub fn hex_digit_value(c: char) -> (r: Option<u8>)
    ensures
        r is Some <==> is_hex_digit(c),
        r matches Some(v) ==> v == hex_val(c) && v < 16,
{
    let u = c as u32;
    if 48 <= u && u <= 57 {
        Some((u - 48) as u8)
    } else if 65 <= u && u <= 70 {
        Some((u - 55) as u8)
    } else if 97 <= u && u <= 102 {
        Some((u - 87) as u8)
    } else {
        None
    }
}

/// The uppercase hexadecimal digit for a value below 16, as a one-character string.
pub fn hex_char_str(d: u8) -> (r: &'static str)
    requires
        d < 16,
    ensures
        r@ == seq![hex_char(d)],
{
    match d {
        0 => {
            proof {
                reveal_strlit("0");
                assert("0"@ =~= seq![hex_char(0u8)]);
            }
            "0"
        },
        1 => {
            proof {
                reveal_strlit("1");
                assert("1"@ =~= seq![hex_char(1u8)]);
            }
            "1"
        },
        2 => {
            proof {
                reveal_strlit("2");
                assert("2"@ =~= seq![hex_char(2u8)]);
            }
            "2"
        },
        3 => {
            proof {
                reveal_strlit("3");
                assert("3"@ =~= seq![hex_char(3u8)]);
            }
            "3"
        },
        4 => {
            proof {
                reveal_strlit("4");
                assert("4"@ =~= seq![hex_char(4u8)]);
            }
            "4"
        },
        5 => {
            proof {
                reveal_strlit("5");
                assert("5"@ =~= seq![hex_char(5u8)]);
            }
            "5"
        },
        6 => {
            proof {
                reveal_strlit("6");
                assert("6"@ =~= seq![hex_char(6u8)]);
            }
            "6"
        },
        7 => {
            proof {
                reveal_strlit("7");
                assert("7"@ =~= seq![hex_char(7u8)]);
            }
            "7"
        },
        8 => {
            proof {
                reveal_strlit("8");
                assert("8"@ =~= seq![hex_char(8u8)]);
            }
            "8"
        },
        9 => {
            proof {
                reveal_strlit("9");
                assert("9"@ =~= seq![hex_char(9u8)]);
            }
            "9"
        },
        10 => {
            proof {
                reveal_strlit("A");
                assert("A"@ =~= seq![hex_char(10u8)]);
            }
            "A"
        },
        11 => {
            proof {
                reveal_strlit("B");
                assert("B"@ =~= seq![hex_char(11u8)]);
            }
            "B"
        },
        12 => {
            proof {
                reveal_strlit("C");
                assert("C"@ =~= seq![hex_char(12u8)]);
            }
            "C"
        },
        13 => {
            proof {
                reveal_strlit("D");
                assert("D"@ =~= seq![hex_char(13u8)]);
            }
            "D"
        },
        14 => {
            proof {
                reveal_strlit("E");
                assert("E"@ =~= seq![hex_char(14u8)]);
            }
            "E"
        },
        _ => {
            proof {
                reveal_strlit("F");
                assert("F"@ =~= seq![hex_char(15u8)]);
            }
            "F"
        },
    }
}

} // verus!
