//! Stream identities: 128-bit UUID values and their text forms.

use vstd::prelude::*;
use vstd::arithmetic::power::pow;

verus! {

/// How many hexadecimal digits stand before position `i` of the hyphenated form.
pub open spec fn digits_before(i: int) -> int {
    if i < 8 {
        i
    } else if i < 13 {
        i - 1
    } else if i < 18 {
        i - 2
    } else if i < 23 {
        i - 3
    } else {
        i - 4
    }
}

/// The `k`-th of the 32 hexadecimal digits of `id`, most significant first.
pub open spec fn nibble(id: u128, k: int) -> int {
    (id as int / pow(16, (31 - k) as nat)) % 16
}

/// The hyphenated form of a UUID: 32 lower-case hexadecimal digits in groups of
/// 8, 4, 4, 4 and 12.
pub open spec fn hyphenated(id: u128) -> Seq<char> {
    Seq::new(
        36,
        |i: int|
            if i == 8 || i == 13 || i == 18 || i == 23 {
                '-'
            } else {
                "0123456789abcdef"@[nibble(id, digits_before(i))]
            },
    )
}

/// What `uuid::Uuid::parse_str` makes of a text: the identity, or its error's text.
pub uninterp spec fn parsed_uuid(text: Seq<char>) -> Result<u128, Seq<char>>;

/// Calls `uuid::Uuid::parse_str`: the result is a function of the text alone.
/// Which of the UUID notations it takes is not restated here.
#[verifier::external_body]
pub(crate) fn parse_uuid(text: &str) -> (r: Result<u128, String>)
    ensures
        match r {
            Ok(id) => parsed_uuid(text@) == Ok::<u128, Seq<char>>(id),
            Err(e) => parsed_uuid(text@) == Err::<u128, Seq<char>>(e@),
        },
{
    match uuid::Uuid::parse_str(text) {
        Ok(u) => Ok(u.as_u128()),
        Err(e) => Err(e.to_string()),
    }
}

/// Calls `uuid::Uuid::to_string`: the result is the hyphenated lower-case form,
/// which `uuid::Uuid::parse_str` reads back as the same identity.
#[verifier::external_body]
pub(crate) fn uuid_to_string(id: u128) -> (r: String)
    ensures
        r@ == hyphenated(id),
        (parsed_uuid(r@) == Ok::<u128, Seq<char>>(id)),
{
    uuid::Uuid::from_u128(id).to_string()
}

/// The bits that mark a random UUID: version four, and the variant of RFC 9562.
pub open spec fn marked_random(id: u128) -> bool {
    &&& (id as int / pow(2, 76)) % 16 == 4
    &&& (id as int / pow(2, 62)) % 4 == 2
}

/// Calls `uuid::Uuid::new_v4`: a random identity with the marks of one. The other
/// bits are left to chance.
#[verifier::external_body]
pub(crate) fn random_uuid() -> (r: u128)
    ensures
        marked_random(r),
{
    uuid::Uuid::new_v4().as_u128()
}

/// A fresh stream identity.
pub fn new_id() -> (r: u128)
    ensures
        marked_random(r),
{
    random_uuid()
}

/// Reads a stream identity from its text form.
pub fn id_from_text(text: &str) -> (r: Result<u128, String>)
    ensures
        match r {
            Ok(id) => parsed_uuid(text@) == Ok::<u128, Seq<char>>(id),
            Err(e) => parsed_uuid(text@) == Err::<u128, Seq<char>>(e@),
        },
{
    parse_uuid(text)
}

/// The text form of a stream identity; [`id_from_text`] reads it back.
pub fn id_to_text(id: u128) -> (r: String)
    ensures
        r@ == hyphenated(id),
        (parsed_uuid(r@) == Ok::<u128, Seq<char>>(id)),
{
    uuid_to_string(id)
}

} // verus!
