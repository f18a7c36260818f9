//! Object addresses: the lowercase hexadecimal spelling of a 20-byte digest.
use vstd::prelude::*;

verus! {

#[verifier::external_type_specification]
#[verifier::external_body]
pub struct ExFromHexError(hex::FromHexError);

/// The number of bytes in a content digest.
pub const DIGEST_LEN: usize = 20;

/// The number of characters in an object address.
pub const ADDRESS_LEN: usize = 40;

/// The lowercase hexadecimal digit of a value below 16.
pub open spec fn hex_digit(v: u8) -> char {
    if v < 10 {
        ((0x30 + v) as u8) as char
    } else {
        ((0x57 + v) as u8) as char
    }
}

/// Two lowercase hexadecimal digits for each byte, high nibble first.
pub open spec fn hex_lower(b: Seq<u8>) -> Seq<char> {
    Seq::new(
        2 * b.len(),
        |i: int|
            if i % 2 == 0 {
                hex_digit(b[i / 2] / 16)
            } else {
                hex_digit(b[i / 2] % 16)
            },
    )
}

pub open spec fn is_hex_char(c: char) -> bool {
    ('0' <= c <= '9') || ('a' <= c <= 'f') || ('A' <= c <= 'F')
}

/// The value of a hexadecimal digit, in either case.
pub open spec fn hex_value(c: char) -> nat {
    if '0' <= c <= '9' {
        (c as nat - '0' as nat) as nat
    } else if 'a' <= c <= 'f' {
        (c as nat - 'a' as nat + 10) as nat
    } else {
        (c as nat - 'A' as nat + 10) as nat
    }
}

/// An address is exactly 40 hexadecimal characters.
pub open spec fn valid_address(s: Seq<char>) -> bool {
    s.len() == ADDRESS_LEN && forall|i: int| 0 <= i < s.len() ==> #[trigger] is_hex_char(s[i])
}

/// The bytes that a string of hexadecimal digit pairs spells.
pub open spec fn hex_bytes(s: Seq<char>) -> Seq<u8> {
    Seq::new(s.len() / 2, |i: int| (hex_value(s[2 * i]) * 16 + hex_value(s[2 * i + 1])) as u8)
}

/// Relies on `hex::encode`: two lowercase digits per byte, in order.
#[verifier::external_body]
fn encode(data: &[u8]) -> (r: String)
    ensures
        r@ == hex_lower(data@),
{
    hex::encode(data)
}

/// Relies on `hex::decode_to_slice`: forty hexadecimal digits fill the
/// twenty bytes of the output, two digits per byte.
#[verifier::external_body]
fn decode_to_slice(data: &str) -> (r: Result<[u8; 20], hex::FromHexError>)
    requires
        valid_address(data@),
    ensures
        r is Ok,
        r matches Ok(d) ==> d@ == hex_bytes(data@),
{
    let mut out = [0u8; 20];
    hex::decode_to_slice(data, &mut out)?;
    Ok(out)
}

/// The address of a digest.
pub fn digest_hex(digest: &[u8; 20]) -> (r: String)
    ensures
        r@ == hex_lower(digest@),
        valid_address(r@),
{
    let r = encode(digest.as_slice());
    proof {
        assert forall|i: int| 0 <= i < r@.len() implies #[trigger] is_hex_char(r@[i]) by {
            let b = digest@[i / 2];
            assert(b / 16 < 16 && b % 16 < 16);
        }
    }
    r
}

/// Tells whether `s` is exactly 40 hexadecimal characters.
pub fn is_valid_address(s: &str) -> (r: bool)
    ensures
        r == valid_address(s@),
{
    if s.unicode_len() != ADDRESS_LEN {
        return false;
    }
    let mut i: usize = 0;
    while i < ADDRESS_LEN
        invariant
            s@.len() == ADDRESS_LEN,
            i <= ADDRESS_LEN,
            forall|k: int| 0 <= k < i ==> #[trigger] is_hex_char(s@[k]),
        decreases ADDRESS_LEN - i,
    {
        let c = s.get_char(i);
        if !(('0' <= c && c <= '9') || ('a' <= c && c <= 'f') || ('A' <= c && c <= 'F')) {
            assert(!is_hex_char(s@[i as int]));
            return false;
        }
        i = i + 1;
    }
    true
}

/// Reads an address back into the digest it spells.
pub fn parse_digest(s: &str) -> (r: Option<[u8; 20]>)
    ensures
        r is Some <==> valid_address(s@),
        r matches Some(d) ==> d@ == hex_bytes(s@),
{
    if !is_valid_address(s) {
        return None;
    }
    match decode_to_slice(s) {
        Ok(d) => Some(d),
        Err(_) => None,
    }
}

} // verus!
