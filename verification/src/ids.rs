//! Session identifiers: 128-bit values, minted at random and written as
//! hyphenated lower-case hexadecimal.

use vstd::prelude::*;

verus! {

/// The bits of an identifier that hold its version and its variant.
pub const VERSION_AND_VARIANT_BITS: u128 = 0x0000_0000_0000_f000_c000_0000_0000_0000;

/// Those bits in an identifier made at random: version 4, variant RFC 4122.
pub const RANDOM_VERSION_AND_VARIANT: u128 = 0x0000_0000_0000_4000_8000_0000_0000_0000;

/// The hexadecimal digit for a value below 16, in lower case.
pub open spec fn hex_digit(value: u128) -> char {
    "0123456789abcdef"@[value as int]
}

/// Which of the 32 hexadecimal digits of an identifier, counted from the most
/// significant, stands at place `i` of its text. Places 8, 13, 18 and 23 hold
/// hyphens.
pub open spec fn digit_at(i: int) -> int {
    if i < 8 {
        i
    } else if i < 13 {
        i - 1
    } else if i < 18 {
        i - 2
    } else if i < 23 {
        i - 3
    } else {
        i - 4
    }
}

/// The text of an identifier: its 32 hexadecimal digits in lower case, most
/// significant first, in groups of 8, 4, 4, 4 and 12 with hyphens between.
pub open spec fn hyphenated(id: u128) -> Seq<char> {
    Seq::new(
        36,
        |i: int|
            if i == 8 || i == 13 || i == 18 || i == 23 {
                '-'
            } else {
                hex_digit((id >> ((4 * (31 - digit_at(i))) as u128)) & 0xf)
            },
    )
}

/// A new identifier, drawn at random.
///
/// Trusted: the body calls `uuid::Uuid::new_v4` and hands the identifier out
/// as the 128-bit value that `uuid::Uuid::as_u128` gives for it. Nothing is
/// claimed of the value but the version and variant bits that `new_v4` sets
/// in every identifier it makes. `new_v4` panics where the operating system
/// has no random bytes to give.
#[verifier::external_body]
pub(crate) fn fresh_session_id() -> (id: u128)
    ensures
        id & VERSION_AND_VARIANT_BITS == RANDOM_VERSION_AND_VARIANT,
{
    uuid::Uuid::new_v4().as_u128()
}

/// The text of an identifier.
///
/// Trusted: the body calls `uuid::Uuid::from_u128` and the `to_string` that
/// the `Display` of `uuid::Uuid` provides, which writes the hyphenated
/// lower-case form.
#[verifier::external_body]
pub(crate) fn session_id_text(id: u128) -> (text: String)
    ensures
        text@ == hyphenated(id),
{
    uuid::Uuid::from_u128(id).to_string()
}

} // verus!
