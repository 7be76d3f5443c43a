//! Identifiers as text.
//!
//! An identifier is a 128-bit value, a UUID. Its text is the one that UUIDs
//! are commonly written in.

use vstd::prelude::*;
use vstd::string::{StrSliceExecFns, StringExecFns};

verus! {

/// Whether a hyphen stands at a place of an identifier written with
/// hyphens: after the 8th, the 12th, the 16th and the 20th digit.
pub open spec fn is_hyphen_place(at: int) -> bool {
    at == 8 || at == 13 || at == 18 || at == 23
}

/// The number of hyphens before a place.
pub open spec fn hyphens_before(at: int) -> int {
    if at > 23 {
        4
    } else if at > 18 {
        3
    } else if at > 13 {
        2
    } else if at > 8 {
        1
    } else {
        0
    }
}

/// The digit of an identifier at a place from the left, from 0 to 31: four
/// bits of it, the highest first.
pub open spec fn digit_value(id: u128, digit: int) -> u128 {
    (id >> ((4 * (31 - digit)) as u128)) & 0xf
}

/// An identifier as text: its 32 hexadecimal digits in lower case, the
/// highest first, in groups of 8, 4, 4, 4 and 12 with a hyphen between each
/// two.
pub open spec fn hyphenated_text(id: u128) -> Seq<char> {
    Seq::new(
        36,
        |at: int|
            if is_hyphen_place(at) {
                '-'
            } else {
                "0123456789abcdef"@[digit_value(id, at - hyphens_before(at)) as int]
            },
    )
}

/// An identifier as text, the way a UUID is commonly written:
/// `550e8400-e29b-41d4-a716-446655440000`.
pub fn hyphenated(id: u128) -> (r: String)
    ensures
        r@ == hyphenated_text(id),
{
    let digits = "0123456789abcdef";
    proof {
        reveal_strlit("0123456789abcdef");
        reveal_strlit("-");
    }
    let mut out = String::new();
    let mut at: usize = 0;
    let mut digit: u32 = 0;
    while at < 36
        invariant
            at <= 36,
            digit == at - hyphens_before(at as int),
            digits@ == "0123456789abcdef"@,
            digits@.len() == 16,
            "-"@ == seq!['-'],
            out@ == hyphenated_text(id).subrange(0, at as int),
        decreases 36 - at,
    {
        if at == 8 || at == 13 || at == 18 || at == 23 {
            out.append("-");
        } else {
            let shift: u32 = 4 * (31 - digit);
            let value: u128 = (id >> shift) & 0xf;
            assert(value < 16) by (bit_vector)
                requires
                    value == (id >> shift) & 0xf,
            ;
            assert(value == digit_value(id, digit as int));
            let index: usize = value as usize;
            out.append(digits.substring_char(index, index + 1));
            digit += 1;
        }
        assert(out@ =~= hyphenated_text(id).subrange(0, at + 1));
        at += 1;
    }
    assert(out@ =~= hyphenated_text(id));
    out
}

} // verus!
