//! Session identifiers: eight random bytes, written as sixteen upper-case
//! hexadecimal digits.

use vstd::prelude::*;

verus! {

/// `getrandom::Error`, the failure of the random source. It is told apart
/// from success and looked at no further.
#[verifier::external_type_specification]
#[verifier::external_body]
pub struct ExRandomError(getrandom::Error);

/// The upper-case hexadecimal digit for a value below sixteen.
pub open spec fn hex_digit(n: int) -> char {
    seq!['0', '1', '2', '3', '4', '5', '6', '7', '8', '9', 'A', 'B', 'C', 'D', 'E', 'F'][n]
}

/// The text of an identifier: two digits for each byte, the high half first.
pub open spec fn id_text(bytes: Seq<u8>) -> Seq<char> {
    Seq::new(
        2 * bytes.len(),
        |i: int|
            if i % 2 == 0 {
                hex_digit(bytes[i / 2] as int / 16)
            } else {
                hex_digit(bytes[i / 2] as int % 16)
            },
    )
}

/// Whether `c` is one of the sixteen upper-case hexadecimal digits.
pub open spec fn is_hex_digit(c: char) -> bool {
    exists|n: int| 0 <= n < 16 && c == hex_digit(n)
}

/// An identifier has two characters for each byte, all of them upper-case
/// hexadecimal digits.
pub proof fn lemma_id_text_shape(bytes: Seq<u8>)
    ensures
        id_text(bytes).len() == 2 * bytes.len(),
        forall|i: int| 0 <= i < id_text(bytes).len() ==> is_hex_digit(#[trigger] id_text(bytes)[i]),
{
    assert forall|i: int| 0 <= i < id_text(bytes).len() implies is_hex_digit(
        #[trigger] id_text(bytes)[i],
    ) by {
        let b = bytes[i / 2] as int;
        if i % 2 == 0 {
            assert(0 <= b / 16 < 16 && id_text(bytes)[i] == hex_digit(b / 16));
        } else {
            assert(0 <= b % 16 < 16 && id_text(bytes)[i] == hex_digit(b % 16));
        }
    }
}

/// Different digits stand for different values.
proof fn lemma_hex_digit_distinct(a: int, b: int)
    requires
        0 <= a < 16,
        0 <= b < 16,
        hex_digit(a) == hex_digit(b),
    ensures
        a == b,
{
}

/// Different bytes give different identifiers.
pub proof fn lemma_id_text_injective(a: Seq<u8>, b: Seq<u8>)
    requires
        id_text(a) == id_text(b),
    ensures
        a == b,
{
    assert(id_text(a).len() == 2 * a.len());
    assert(id_text(b).len() == 2 * b.len());
    assert forall|k: int| 0 <= k < a.len() implies a[k] == b[k] by {
        let x = a[k] as int;
        let y = b[k] as int;
        assert(id_text(a)[2 * k] == hex_digit(x / 16));
        assert(id_text(b)[2 * k] == hex_digit(y / 16));
        assert(id_text(a)[2 * k + 1] == hex_digit(x % 16));
        assert(id_text(b)[2 * k + 1] == hex_digit(y % 16));
        lemma_hex_digit_distinct(x / 16, y / 16);
        lemma_hex_digit_distinct(x % 16, y % 16);
    }
    assert(a =~= b);
}

/// Returns the upper-case hexadecimal digit for `n`.
fn digit_of(n: u8) -> (c: char)
    requires
        n < 16,
    ensures
        c == hex_digit(n as int),
{
    match n {
        0 => '0',
        1 => '1',
        2 => '2',
        3 => '3',
        4 => '4',
        5 => '5',
        6 => '6',
        7 => '7',
        8 => '8',
        9 => '9',
        10 => 'A',
        11 => 'B',
        12 => 'C',
        13 => 'D',
        14 => 'E',
        _ => 'F',
    }
}

/// Writes the identifier that the eight bytes stand for.
pub fn format_id(bytes: &[u8; 8]) -> (id: String)
    ensures
        id@ == id_text(bytes@),
        id@.len() == 16,
{
    let mut id = String::new();
    let mut i: usize = 0;
    while i < 8
        invariant
            i <= 8,
            id@ == id_text(bytes@).take(2 * i),
        decreases 8 - i,
    {
        let b: u8 = bytes[i];
        id.push(digit_of(b / 16));
        id.push(digit_of(b % 16));
        assert(id@ =~= id_text(bytes@).take(2 * (i + 1)));
        i += 1;
    }
    assert(id_text(bytes@).take(16) =~= id_text(bytes@));
    id
}

/// `getrandom::getrandom` fills the buffer with bytes from the random source
/// of the operating system, or fails. Nothing is known of the bytes.
#[verifier::external_body]
pub(crate) fn random_bytes() -> Result<[u8; 8], getrandom::Error> {
    let mut bytes = [0u8; 8];
    getrandom::getrandom(&mut bytes).map(|_| bytes)
}

} // verus!
