//! Cache keys and the encodings that put URLs inside query strings.
use vstd::prelude::*;
use crate::text::string_from;
use vstd::string::StringSliceAdditionalSpecFns;

verus! {

/// The value SeaHash gives to a byte string.
pub uninterp spec fn seahash_of(b: Seq<u8>) -> u64;

/// The standard, padded Base64 text of a byte string.
pub uninterp spec fn base64_of(b: Seq<u8>) -> Seq<char>;

/// Relies on `seahash::hash`: a fixed-seed hash of the bytes alone.
#[verifier::external_body]
fn seahash_bytes(b: &[u8]) -> (r: u64)
    ensures
        r == seahash_of(b@),
{
    seahash::hash(b)
}

/// Relies on `base64::engine::general_purpose::STANDARD.encode`: the padded
/// Base64 text of the bytes, empty for no bytes.
#[verifier::external_body]
fn base64_standard(b: &[u8]) -> (r: String)
    ensures
        r@ == base64_of(b@),
        b@.len() == 0 ==> r@.len() == 0,
{
    base64::Engine::encode(&base64::engine::general_purpose::STANDARD, b)
}

/// Base64 text of the UTF-8 bytes of `s`.
pub fn base64_encode(s: &str) -> (r: String)
    ensures
        r@ == base64_of(s.spec_bytes()),
{
    base64_standard(s.as_bytes())
}

/// The lowercase hexadecimal digit for `d`.
pub open spec fn hex_lower(d: nat) -> char {
    if d < 10 {
        ((d + 48) as u8) as char
    } else {
        ((d + 87) as u8) as char
    }
}

/// The lowercase hexadecimal numeral of `n`, without leading zeros.
pub open spec fn hex_numeral(n: nat) -> Seq<char>
    decreases n,
{
    if n < 16 {
        seq![hex_lower(n)]
    } else {
        hex_numeral(n / 16).push(hex_lower(n % 16))
    }
}

fn hex_digit(d: u64) -> (c: char)
    requires
        d < 16,
    ensures
        c == hex_lower(d as nat),
{
    if d < 10 {
        ((d + 48) as u8) as char
    } else {
        ((d + 87) as u8) as char
    }
}

/// Formats `n` as a lowercase hexadecimal numeral.
pub fn to_hex(n: u64) -> (r: String)
    ensures
        r@ == hex_numeral(n as nat),
{
    if n == 0 {
        let zero: Vec<char> = vec![hex_digit(0)];
        assert(zero@ =~= hex_numeral(0));
        return string_from(zero.as_slice());
    }
    let mut digits: Vec<char> = Vec::new();
    let mut m: u64 = n;
    assert(hex_numeral(n as nat) + digits@ =~= hex_numeral(n as nat));
    while m > 0
        invariant
            m > 0 ==> hex_numeral(n as nat) == hex_numeral(m as nat) + digits@,
            m == 0 ==> hex_numeral(n as nat) == digits@,
        decreases m,
    {
        let ghost old_digits = digits@;
        digits.insert(0, hex_digit(m % 16));
        if m < 16 {
            assert(hex_numeral(m as nat) + old_digits =~= digits@);
            m = 0;
        } else {
            assert(hex_numeral(m as nat) == hex_numeral((m / 16) as nat).push(
                hex_lower((m % 16) as nat),
            ));
            assert(hex_numeral(m as nat) + old_digits =~= hex_numeral((m / 16) as nat) + digits@);
            m = m / 16;
        }
    }
    string_from(digits.as_slice())
}

/// The cache key of a link: the SeaHash of its UTF-8 bytes, in lowercase hex.
pub open spec fn link_key(link: Seq<char>) -> Seq<char> {
    hex_numeral(seahash_of(vstd::utf8::encode_utf8(link)) as nat)
}

/// The cache key of a source link: the SeaHash of its bytes, in lowercase hex.
pub fn hash(input: &str) -> (r: String)
    ensures
        r@ == link_key(input@),
{
    to_hex(seahash_bytes(input.as_bytes()))
}

/// Bytes that form encoding leaves as they are.
pub open spec fn unreserved(b: u8) -> bool {
    b == 42 || b == 45 || b == 46 || (48 <= b <= 57) || (65 <= b <= 90) || b == 95 || (97 <= b
        <= 122)
}

/// The uppercase hexadecimal digit for `d`.
pub open spec fn hex_upper(d: nat) -> char {
    if d < 10 {
        ((d + 48) as u8) as char
    } else {
        ((d + 55) as u8) as char
    }
}

/// The value of a hexadecimal digit (either case).
pub open spec fn hex_value(c: char) -> int {
    if '0' <= c <= '9' {
        c as int - 48
    } else if 'A' <= c <= 'F' {
        c as int - 55
    } else if 'a' <= c <= 'f' {
        c as int - 87
    } else {
        0
    }
}

/// The form encoding of one byte.
pub open spec fn form_encode_byte(b: u8) -> Seq<char> {
    if unreserved(b) {
        seq![b as char]
    } else if b == 32 {
        seq!['+']
    } else {
        seq!['%', hex_upper((b / 16) as nat), hex_upper((b % 16) as nat)]
    }
}

/// The `application/x-www-form-urlencoded` serialization of a byte string.
pub open spec fn form_encode(bs: Seq<u8>) -> Seq<char>
    decreases bs.len(),
{
    if bs.len() == 0 {
        seq![]
    } else {
        form_encode_byte(bs[0]) + form_encode(bs.drop_first())
    }
}

/// Reading form-encoded text back into bytes: `+` is a space, `%XY` is the
/// byte with hexadecimal value XY, any other character stands for itself.
pub open spec fn form_decode(cs: Seq<char>) -> Seq<u8>
    decreases cs.len(),
{
    if cs.len() == 0 {
        seq![]
    } else if cs[0] == '+' {
        seq![32u8] + form_decode(cs.drop_first())
    } else if cs[0] == '%' && cs.len() >= 3 {
        seq![(hex_value(cs[1]) * 16 + hex_value(cs[2])) as u8] + form_decode(
            cs.subrange(3, cs.len() as int),
        )
    } else {
        seq![cs[0] as u8] + form_decode(cs.drop_first())
    }
}

/// Relies on `form_urlencoded::byte_serialize`: unreserved bytes
/// (`*-._`, digits, letters) as they are, a space as `+`, any other byte as
/// `%` and two uppercase hexadecimal digits.
#[verifier::external_body]
fn form_serialize(b: &[u8]) -> (r: String)
    ensures
        r@ == form_encode(b@),
{
    form_urlencoded::byte_serialize(b).collect()
}

/// Encodes a value for use inside a query string.
pub fn encode_uri_component(input: &str) -> (r: String)
    ensures
        r@ == form_encode(input.spec_bytes()),
{
    form_serialize(input.as_bytes())
}

proof fn lemma_hex_upper_value(d: nat)
    requires
        d < 16,
    ensures
        hex_value(hex_upper(d)) == d,
{
}

/// Decoding the form encoding of any byte string gives that byte string back.
pub proof fn lemma_form_round_trip(bs: Seq<u8>)
    ensures
        form_decode(form_encode(bs)) == bs,
    decreases bs.len(),
{
    if bs.len() > 0 {
        let b = bs[0];
        let rest = form_encode(bs.drop_first());
        lemma_form_round_trip(bs.drop_first());
        let e = form_encode_byte(b) + rest;
        if unreserved(b) {
            assert(e.drop_first() =~= rest);
        } else if b == 32 {
            assert(e.drop_first() =~= rest);
        } else {
            lemma_hex_upper_value((b / 16) as nat);
            lemma_hex_upper_value((b % 16) as nat);
            assert(e.subrange(3, e.len() as int) =~= rest);
        }
        assert(bs =~= seq![b] + bs.drop_first());
    }
}

} // verus!
