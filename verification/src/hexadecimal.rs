//! Hexadecimal text.

use vstd::prelude::*;

verus! {

/// A lowercase hexadecimal digit.
pub open spec fn hex_digit(d: nat) -> char {
    if d < 10 {
        (48 + d) as char
    } else {
        (87 + d) as char
    }
}

/// Two lowercase hexadecimal digits for each byte, the high one first.
pub open spec fn lower_hex(bytes: Seq<u8>) -> Seq<char>
    decreases bytes.len(),
{
    if bytes.len() == 0 {
        Seq::empty()
    } else {
        lower_hex(bytes.drop_last()) + seq![
            hex_digit((bytes.last() / 16) as nat),
            hex_digit((bytes.last() % 16) as nat),
        ]
    }
}

/// A hexadecimal digit in either case.
pub open spec fn is_hex_digit(c: char) -> bool {
    '0' <= c <= '9' || 'a' <= c <= 'f' || 'A' <= c <= 'F'
}

/// What a hexadecimal digit counts.
pub open spec fn hex_value(c: char) -> int {
    if '0' <= c <= '9' {
        c as int - 48
    } else if 'a' <= c <= 'f' {
        c as int - 87
    } else {
        c as int - 55
    }
}

/// Text made of pairs of hexadecimal digits.
pub open spec fn is_hex(text: Seq<char>) -> bool {
    text.len() % 2 == 0 && forall|i: int| 0 <= i < text.len() ==> is_hex_digit(#[trigger] text[i])
}

/// The bytes that pairs of hexadecimal digits stand for.
pub open spec fn hex_bytes(text: Seq<char>) -> Seq<u8> {
    Seq::new(
        text.len() / 2,
        |i: int| (16 * hex_value(text[2 * i]) + hex_value(text[2 * i + 1])) as u8,
    )
}

/// Encoding doubles the length and yields lowercase digits only.
pub proof fn lemma_lower_hex_shape(bytes: Seq<u8>)
    ensures
        lower_hex(bytes).len() == 2 * bytes.len(),
        forall|i: int|
            0 <= i < bytes.len() ==> {
                &&& (#[trigger] lower_hex(bytes)[2 * i]) == hex_digit((bytes[i] / 16) as nat)
                &&& lower_hex(bytes)[2 * i + 1] == hex_digit((bytes[i] % 16) as nat)
            },
        forall|i: int|
            0 <= i < lower_hex(bytes).len() ==> {
                let c = #[trigger] lower_hex(bytes)[i];
                '0' <= c <= '9' || 'a' <= c <= 'f'
            },
    decreases bytes.len(),
{
    if bytes.len() > 0 {
        let front = bytes.drop_last();
        lemma_lower_hex_shape(front);
        assert forall|i: int| 0 <= i < bytes.len() implies {
            &&& (#[trigger] lower_hex(bytes)[2 * i]) == hex_digit((bytes[i] / 16) as nat)
            &&& lower_hex(bytes)[2 * i + 1] == hex_digit((bytes[i] % 16) as nat)
        } by {
            if i < front.len() {
                assert(lower_hex(front)[2 * i] == hex_digit((front[i] / 16) as nat));
            }
        }
        assert forall|i: int| 0 <= i < lower_hex(bytes).len() implies {
            let c = #[trigger] lower_hex(bytes)[i];
            '0' <= c <= '9' || 'a' <= c <= 'f'
        } by {
            if i < lower_hex(front).len() {
                assert(lower_hex(bytes)[i] == lower_hex(front)[i]);
            }
        }
    }
}

/// Decoding gives back what was encoded.
pub proof fn hex_round_trip(bytes: Seq<u8>)
    ensures
        is_hex(lower_hex(bytes)),
        hex_bytes(lower_hex(bytes)) == bytes,
{
    lemma_lower_hex_shape(bytes);
    let text = lower_hex(bytes);
    assert forall|i: int| 0 <= i < bytes.len() implies hex_bytes(text)[i] == bytes[i] by {
        assert(text[2 * i] == hex_digit((bytes[i] / 16) as nat));
    }
    assert(hex_bytes(text) =~= bytes);
}

/// Each byte is written as two digits, the one that counts sixteens first; the digits are `0` to
/// `9` and `a` to `f`.
pub proof fn bytes_are_written_in_two_digits(bytes: Seq<u8>, at: int)
    requires
        0 <= at < bytes.len(),
    ensures
        lower_hex(bytes).len() == 2 * bytes.len(),
        ({
            let high = lower_hex(bytes)[2 * at] as int;
            let low = lower_hex(bytes)[2 * at + 1] as int;
            let counted = |code: int|
                if code <= 57 {
                    code - 48
                } else {
                    code - 87
                };
            &&& 48 <= high <= 57 || 97 <= high <= 102
            &&& 48 <= low <= 57 || 97 <= low <= 102
            &&& 16 * counted(high) + counted(low) == bytes[at]
        }),
{
    lemma_lower_hex_shape(bytes);
    assert(lower_hex(bytes)[2 * at] == hex_digit((bytes[at] / 16) as nat));
}

} // verus!
