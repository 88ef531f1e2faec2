//! Task identifiers: 128-bit numbers, written as UUIDs.

use vstd::arithmetic::div_mod::{lemma_basic_div, lemma_div_denominator, lemma_fundamental_div_mod};
use vstd::arithmetic::power::{lemma_pow_adds, lemma_pow_positive, pow};
use vstd::prelude::*;

verus! {

/// The identifier that the uuid crate reads from a text, if it reads one.
pub uninterp spec fn uuid_of_text(s: Seq<char>) -> Option<u128>;

/// The digit of base sixteen that stands at place `k` of the 32 digits of
/// `id`, counted from the most significant.
pub open spec fn hex_digit_at(id: u128, k: int) -> int {
    (id as int / pow(16, (31 - k) as nat)) % 16
}

/// The character at place `i` of the text of an identifier.
pub open spec fn uuid_char(id: u128, i: int) -> char {
    if i == 8 || i == 13 || i == 18 || i == 23 {
        '-'
    } else {
        let hyphens: int = if i > 23 {
            4
        } else if i > 18 {
            3
        } else if i > 13 {
            2
        } else if i > 8 {
            1
        } else {
            0
        };
        let d = hex_digit_at(id, i - hyphens);
        if d < 10 {
            (d + '0' as int) as char
        } else {
            (d - 10 + 'a' as int) as char
        }
    }
}

/// The text of an identifier: its 32 digits of base sixteen in lower case,
/// most significant first, in groups of 8, 4, 4, 4 and 12 with a hyphen
/// between them.
pub open spec fn uuid_text(id: u128) -> Seq<char> {
    Seq::new(36, |i: int| uuid_char(id, i))
}

/// Calls uuid's `Uuid::new_v4`, which draws a random identifier. Nothing is
/// claimed of the number that comes back.
#[verifier::external_body]
pub(crate) fn fresh_id() -> u128 {
    uuid::Uuid::new_v4().as_u128()
}

/// The identifier that a text denotes: the one whose text it is, where it
/// is the text of an identifier, and what the uuid crate reads otherwise.
pub open spec fn id_of_text(s: Seq<char>) -> Option<u128> {
    if exists|id: u128| s == uuid_text(id) {
        Some(choose|id: u128| s == uuid_text(id))
    } else {
        uuid_of_text(s)
    }
}

/// Calls uuid's `Uuid::parse_str`. Trusted: whether an identifier is read,
/// and which, depends on the text alone; and the text that `Display` writes
/// for an identifier is read as that identifier.
#[verifier::external_body]
fn uuid_parse(s: &str) -> (r: Option<u128>)
    ensures
        r == uuid_of_text(s@),
        forall|id: u128| s@ == uuid_text(id) ==> r == Some(id),
{
    match uuid::Uuid::parse_str(s) {
        Ok(id) => Some(id.as_u128()),
        Err(_) => None,
    }
}

/// Calls uuid's `Display` for `Uuid`, which writes the hyphenated form in
/// lower case. Trusted: the text is the 36 characters of that form.
#[verifier::external_body]
fn uuid_format(id: u128) -> (s: String)
    ensures
        s@ == uuid_text(id),
{
    uuid::Uuid::from_u128(id).to_string()
}

/// Reads an identifier from its text, if the text is a UUID.
pub fn parse_id(s: &str) -> (r: Option<u128>)
    ensures
        r == id_of_text(s@),
{
    uuid_parse(s)
}

/// Writes an identifier as a UUID.
pub fn format_id(id: u128) -> (s: String)
    ensures
        s@ == uuid_text(id),
{
    uuid_format(id)
}

/// The number made of the `k` most significant of the 32 digits of `id`.
pub open spec fn leading_digits(id: u128, k: nat) -> int {
    id as int / pow(16, (32 - k) as nat)
}

/// Sixteen to the power of 32 is two to the power of 128.
proof fn lemma_pow16_32()
    ensures
        pow(16, 32) == 0x1_0000_0000_0000_0000_0000_0000_0000_0000,
{
    reveal_with_fuel(pow, 5);
    assert(pow(16, 4) == 0x1_0000);
    lemma_pow_adds(16, 4, 4);
    assert(pow(16, 8) == 0x1_0000_0000) by (nonlinear_arith)
        requires
            pow(16, 8) == pow(16, 4) * pow(16, 4),
            pow(16, 4) == 0x1_0000,
    ;
    lemma_pow_adds(16, 8, 8);
    assert(pow(16, 16) == 0x1_0000_0000_0000_0000) by (nonlinear_arith)
        requires
            pow(16, 16) == pow(16, 8) * pow(16, 8),
            pow(16, 8) == 0x1_0000_0000,
    ;
    lemma_pow_adds(16, 16, 16);
    assert(pow(16, 32) == 0x1_0000_0000_0000_0000_0000_0000_0000_0000) by (nonlinear_arith)
        requires
            pow(16, 32) == pow(16, 16) * pow(16, 16),
            pow(16, 16) == 0x1_0000_0000_0000_0000,
    ;
}

/// One more digit: sixteen times the number so far, and the digit.
proof fn lemma_leading_digits_step(id: u128, k: nat)
    requires
        k < 32,
    ensures
        leading_digits(id, k + 1) == 16 * leading_digits(id, k) + hex_digit_at(id, k as int),
{
    let m = pow(16, (31 - k) as nat);
    let x = id as int / m;
    lemma_pow_positive(16, (31 - k) as nat);
    assert(pow(16, (32 - k) as nat) == 16 * m) by {
        reveal_with_fuel(pow, 2);
    }
    assert(m * 16 == 16 * m);
    lemma_div_denominator(id as int, m, 16);
    lemma_fundamental_div_mod(x, 16);
}

/// Two identifiers with the same 32 digits are the same.
proof fn lemma_same_digits(a: u128, b: u128, k: nat)
    requires
        k <= 32,
        forall|j: int| 0 <= j < 32 ==> hex_digit_at(a, j) == hex_digit_at(b, j),
    ensures
        leading_digits(a, k) == leading_digits(b, k),
    decreases k,
{
    if k == 0 {
        lemma_pow16_32();
        lemma_basic_div(a as int, pow(16, 32));
        lemma_basic_div(b as int, pow(16, 32));
    } else {
        lemma_same_digits(a, b, (k - 1) as nat);
        lemma_leading_digits_step(a, (k - 1) as nat);
        lemma_leading_digits_step(b, (k - 1) as nat);
    }
}

/// Two identifiers with the same text are the same.
pub proof fn lemma_uuid_text_injective(a: u128, b: u128)
    requires
        uuid_text(a) == uuid_text(b),
    ensures
        a == b,
{
    assert forall|j: int| 0 <= j < 32 implies hex_digit_at(a, j) == hex_digit_at(b, j) by {
        let hyphens: int = if j < 8 {
            0
        } else if j < 12 {
            1
        } else if j < 16 {
            2
        } else if j < 20 {
            3
        } else {
            4
        };
        let i = j + hyphens;
        assert(uuid_text(a)[i] == uuid_char(a, i));
        assert(uuid_text(b)[i] == uuid_char(b, i));
        assert(0 <= hex_digit_at(a, j) < 16);
        assert(0 <= hex_digit_at(b, j) < 16);
    }
    lemma_same_digits(a, b, 32);
    assert(pow(16, 0) == 1) by {
        reveal_with_fuel(pow, 1);
    }
}

/// The text written for an identifier reads back as that identifier.
pub proof fn lemma_uuid_text_reads_back(id: u128)
    ensures
        id_of_text(uuid_text(id)) == Some(id),
{
    let back = choose|other: u128| uuid_text(id) == uuid_text(other);
    lemma_uuid_text_injective(id, back);
}

} // verus!
