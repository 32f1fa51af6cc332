//! SHA-256 digests of resource contents and their hexadecimal text.
use crate::resource::{all_ascii, ascii_chars, ascii_string, text_bytes};
use sha2::{Digest, Sha256};
use vstd::prelude::*;

verus! {

/// The SHA-256 digest of `bytes`, as the sha2 crate computes it.
pub uninterp spec fn sha256_of(bytes: Seq<u8>) -> Seq<u8>;

/// `Sha256::digest` (sha2): the 32-byte SHA-256 digest of `bytes`.
#[verifier::external_body]
pub(crate) fn sha256_digest(bytes: &[u8]) -> (digest: Vec<u8>)
    ensures
        digest@ == sha256_of(bytes@),
        digest@.len() == 32,
{
    Sha256::digest(bytes).to_vec()
}

/// A lower-case hexadecimal digit.
pub open spec fn lower_hex_digit(value: int) -> u8 {
    if value < 10 {
        (48 + value) as u8
    } else {
        (87 + value) as u8
    }
}

/// Two lower-case hexadecimal digits per byte.
pub open spec fn lower_hex(bytes: Seq<u8>) -> Seq<u8>
    decreases bytes.len(),
{
    if bytes.len() == 0 {
        seq![]
    } else {
        lower_hex(bytes.drop_last()) + seq![
            lower_hex_digit(bytes.last() as int / 16),
            lower_hex_digit(bytes.last() as int % 16),
        ]
    }
}

proof fn lemma_lower_hex_ascii(bytes: Seq<u8>)
    ensures
        all_ascii(lower_hex(bytes)),
        lower_hex(bytes).len() == 2 * bytes.len(),
    decreases bytes.len(),
{
    if bytes.len() > 0 {
        lemma_lower_hex_ascii(bytes.drop_last());
        let a = lower_hex(bytes.drop_last());
        let b = seq![
            lower_hex_digit(bytes.last() as int / 16),
            lower_hex_digit(bytes.last() as int % 16),
        ];
        assert forall|i: int| 0 <= i < (a + b).len() implies #[trigger] (a + b)[i] < 128 by {
            if i < a.len() {
                assert((a + b)[i] == a[i]);
            } else {
                assert((a + b)[i] == b[i - a.len()]);
            }
        }
    }
}

/// The lower-case hexadecimal text of `bytes`.
pub fn hex_text(bytes: &[u8]) -> (text: String)
    ensures
        text@ == ascii_chars(lower_hex(bytes@)),
{
    let mut output: Vec<u8> = Vec::new();
    let mut index: usize = 0;
    while index < bytes.len()
        invariant
            index <= bytes@.len(),
            output@ == lower_hex(bytes@.take(index as int)),
        decreases bytes@.len() - index,
    {
        let b = bytes[index];
        let high = b / 16;
        let low = b % 16;
        output.push(
            if high < 10 {
                48 + high
            } else {
                87 + high
            },
        );
        output.push(
            if low < 10 {
                48 + low
            } else {
                87 + low
            },
        );
        proof {
            let next = bytes@.take(index + 1);
            assert(next.drop_last() =~= bytes@.take(index as int));
            assert(output@ =~= lower_hex(next));
        }
        index += 1;
    }
    proof {
        assert(bytes@.take(bytes@.len() as int) =~= bytes@);
        lemma_lower_hex_ascii(bytes@);
    }
    ascii_string(output)
}

/// The lower-case hexadecimal SHA-256 digest of `bytes`.
pub open spec fn sha256_hex(bytes: Seq<u8>) -> Seq<char> {
    ascii_chars(lower_hex(sha256_of(bytes)))
}

/// The lower-case hexadecimal SHA-256 digest of `bytes`.
pub fn sha256_bytes(bytes: &[u8]) -> (text: String)
    ensures
        text@ == sha256_hex(bytes@),
        text@.len() == 64,
{
    let digest = sha256_digest(bytes);
    proof {
        lemma_lower_hex_ascii(digest@);
    }
    hex_text(digest.as_slice())
}

pub open spec fn hex_digit_byte(b: u8) -> bool {
    (48 <= b <= 57) || (97 <= b <= 102) || (65 <= b <= 70)
}

/// Text that spells a SHA-256 digest: 64 hexadecimal digits of either case.
pub open spec fn is_sha256_text(value: Seq<char>) -> bool {
    let bytes = text_bytes(value);
    &&& bytes.len() == 64
    &&& forall|i: int| 0 <= i < bytes.len() ==> hex_digit_byte(#[trigger] bytes[i])
}

/// Whether every byte of `bytes` is a hexadecimal digit.
fn all_hex_digits(bytes: &[u8]) -> (all: bool)
    ensures
        all == (forall|i: int| 0 <= i < bytes@.len() ==> hex_digit_byte(#[trigger] bytes@[i])),
{
    let mut index: usize = 0;
    while index < bytes.len()
        invariant
            index <= bytes@.len(),
            forall|i: int| 0 <= i < index ==> hex_digit_byte(#[trigger] bytes@[i]),
        decreases bytes@.len() - index,
    {
        let b = bytes[index];
        if !((48 <= b && b <= 57) || (97 <= b && b <= 102) || (65 <= b && b <= 70)) {
            assert(!hex_digit_byte(bytes@[index as int]));
            return false;
        }
        index += 1;
    }
    true
}

/// Whether `value` spells a SHA-256 digest.
pub fn valid_sha256(value: &str) -> (valid: bool)
    ensures
        valid == is_sha256_text(value@),
{
    let bytes = value.as_bytes();
    bytes.len() == 64 && all_hex_digits(bytes)
}

/// Whether `value` spells a SHA-256 digest.
pub fn is_sha256(value: &str) -> (valid: bool)
    ensures
        valid == is_sha256_text(value@),
{
    valid_sha256(value)
}

} // verus!
