use vstd::arithmetic::power::pow;
use vstd::prelude::*;

verus! {

/// The UUID that `uuid::Uuid::try_parse_ascii` reads from `text`, as its
/// 128-bit value.
pub uninterp spec fn uuid_from_ascii(text: Seq<u8>) -> Option<u128>;

/// The bytes of a text of ASCII characters.
pub open spec fn ascii_bytes(s: Seq<char>) -> Seq<u8> {
    s.map_values(|c: char| c as u8)
}

/// Calls `uuid::Uuid::try_parse_ascii`, the parser behind `Uuid::from_str`,
/// and gives the UUID's 128-bit value. The contract names the result, and
/// states that the hyphenated lower-case text of a UUID, which the parser
/// accepts, reads back as that UUID.
#[verifier::external_body]
pub(crate) fn parse_uuid(text: &[u8]) -> (r: Option<u128>)
    ensures
        r == uuid_from_ascii(text@),
        forall|v: u128| #[trigger] ascii_bytes(uuid_text(v)) == text@ ==> r == Some(v),
{
    match uuid::Uuid::try_parse_ascii(text) {
        Ok(u) => Some(u.as_u128()),
        Err(_) => None,
    }
}

/// The lower-case hexadecimal digit of `d`, which is below 16.
pub open spec fn hex_digit(d: int) -> char {
    if d < 10 {
        (d + 48) as char
    } else {
        (d + 87) as char
    }
}

/// The `k`-th hexadecimal digit of `id`, counting from the most significant
/// one.
pub open spec fn nibble(id: u128, k: int) -> int {
    (id as int / pow(16, (31 - k) as nat)) % 16
}

/// Which digit of the value position `i` of the hyphenated text shows.
pub open spec fn digit_index(i: int) -> int {
    if i < 8 {
        i
    } else if i < 13 {
        i - 1
    } else if i < 18 {
        i - 2
    } else if i < 23 {
        i - 3
    } else {
        i - 4
    }
}

/// The hyphenated lower-case text of the UUID with this 128-bit value, as
/// `uuid::Uuid`'s `Display` writes it: its 32 hexadecimal digits, most
/// significant first, in groups of 8, 4, 4, 4 and 12 joined by hyphens.
pub open spec fn uuid_text(id: u128) -> Seq<char> {
    Seq::new(
        36,
        |i: int|
            if i == 8 || i == 13 || i == 18 || i == 23 {
                '-'
            } else {
                hex_digit(nibble(id, digit_index(i)))
            },
    )
}

/// The hyphenated text of a UUID is made of hexadecimal digits and
/// hyphens, all visible ASCII.
pub proof fn lemma_uuid_text_bytes(v: u128)
    ensures
        ascii_bytes(uuid_text(v)).len() == 36,
        forall|i: int|
            0 <= i < 36 ==> 45 <= #[trigger] ascii_bytes(uuid_text(v))[i] <= 102,
{
    assert forall|i: int| 0 <= i < 36 implies 45 <= #[trigger] ascii_bytes(uuid_text(v))[i]
        <= 102 by {
        if !(i == 8 || i == 13 || i == 18 || i == 23) {
            let d = nibble(v, digit_index(i));
            assert(0 <= d < 16);
            let c = hex_digit(d);
            if d < 10 {
                assert(c as u8 == d + 48);
            } else {
                assert(c as u8 == d + 87);
            }
        }
    }
}

/// Calls `uuid::Uuid::from_u128` and writes the UUID with `to_string`,
/// whose `Display` writes the hyphenated lower-case form.
#[verifier::external_body]
pub(crate) fn uuid_to_string(id: u128) -> (r: String)
    ensures
        r@ == uuid_text(id),
{
    uuid::Uuid::from_u128(id).to_string()
}

} // verus!
