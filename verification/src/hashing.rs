//! SHA-256 digests and their hexadecimal text.

use sha2::Digest;
use vstd::prelude::*;
use vstd::utf8::{encode_utf8, is_ascii_chars, is_ascii_chars_encode_utf8};

verus! {

/// The SHA-256 digest of `data`: 32 bytes.
pub uninterp spec fn sha256_digest(data: Seq<u8>) -> Seq<u8>;

/// The error of the hexadecimal decoder.
#[verifier::external_type_specification]
#[verifier::external_body]
pub struct ExFromHexError(hex::FromHexError);

/// The lower-case hexadecimal digit for `nibble`, which is below 16.
pub open spec fn hex_digit(nibble: int) -> char {
    if nibble < 10 {
        (nibble + 48) as char
    } else {
        (nibble + 87) as char
    }
}

/// Lower-case hexadecimal text of `data`: two digits per byte, high nibble first.
pub open spec fn hex_text(data: Seq<u8>) -> Seq<char> {
    Seq::new(
        2 * data.len(),
        |i: int|
            if i % 2 == 0 {
                hex_digit(data[i / 2] as int / 16)
            } else {
                hex_digit(data[i / 2] as int % 16)
            },
    )
}

/// The value of the hexadecimal digit `c`, in either case, if it is one.
pub open spec fn hex_value(c: u8) -> Option<int> {
    if 48 <= c <= 57 {
        Some(c - 48)
    } else if 97 <= c <= 102 {
        Some(c - 87)
    } else if 65 <= c <= 70 {
        Some(c - 55)
    } else {
        None
    }
}

/// Whether `text` is an even number of hexadecimal digits.
pub open spec fn is_hex(text: Seq<u8>) -> bool {
    &&& text.len() % 2 == 0
    &&& forall|i: int| 0 <= i < text.len() ==> (#[trigger] hex_value(text[i])) is Some
}

/// The bytes that the hexadecimal digits `text` stand for, if `text` is well formed.
pub open spec fn hex_bytes(text: Seq<u8>) -> Option<Seq<u8>> {
    if is_hex(text) {
        Some(
            Seq::new(
                text.len() / 2,
                |i: int| (16 * hex_value(text[2 * i])->0 + hex_value(text[2 * i + 1])->0) as u8,
            ),
        )
    } else {
        None
    }
}

/// Hexadecimal text is ASCII: it encodes to one byte per digit.
pub proof fn lemma_hex_text_is_ascii(data: Seq<u8>)
    ensures
        is_ascii_chars(hex_text(data)),
        encode_utf8(hex_text(data)).len() == 2 * data.len(),
        forall|i: int|
            0 <= i < 2 * data.len() ==> hex_value(#[trigger] encode_utf8(hex_text(data))[i])
                == Some(
                if i % 2 == 0 {
                    data[i / 2] as int / 16
                } else {
                    data[i / 2] as int % 16
                },
            ),
{
    let text = hex_text(data);
    assert forall|i: int| 0 <= i < text.len() implies '\0' <= #[trigger] text[i] <= '\u{7f}' by {
        let nibble = if i % 2 == 0 {
            data[i / 2] as int / 16
        } else {
            data[i / 2] as int % 16
        };
        assert(0 <= nibble < 16);
        assert(text[i] == hex_digit(nibble));
    }
    assert(is_ascii_chars(text));
    is_ascii_chars_encode_utf8(text);
    let bytes = encode_utf8(text);
    assert forall|i: int| 0 <= i < 2 * data.len() implies hex_value(#[trigger] bytes[i]) == Some(
        if i % 2 == 0 {
            data[i / 2] as int / 16
        } else {
            data[i / 2] as int % 16
        },
    ) by {
        let nibble = if i % 2 == 0 {
            data[i / 2] as int / 16
        } else {
            data[i / 2] as int % 16
        };
        assert(0 <= nibble < 16);
        assert(text[i] == hex_digit(nibble));
        assert(bytes[i] == text[i] as u8);
    }
}

/// Hexadecimal text stands for the bytes it was written from.
pub proof fn lemma_hex_text_round_trip(data: Seq<u8>)
    ensures
        hex_bytes(encode_utf8(hex_text(data))) == Some(data),
{
    lemma_hex_text_is_ascii(data);
    let bytes = encode_utf8(hex_text(data));
    assert(is_hex(bytes));
    let decoded = hex_bytes(bytes)->0;
    assert forall|k: int| 0 <= k < data.len() implies decoded[k] == data[k] by {
        assert(hex_value(bytes[2 * k]) == Some(data[(2 * k) / 2] as int / 16));
        assert(hex_value(bytes[2 * k + 1]) == Some(data[(2 * k + 1) / 2] as int % 16));
    }
    assert(decoded =~= data);
}

/// Whether `text` is the hexadecimal text of 32 bytes, as that of a digest
/// is.
pub open spec fn is_digest_text(text: Seq<char>) -> bool {
    exists|digest: Seq<u8>| digest.len() == 32 && text == #[trigger] hex_text(digest)
}

/// The text of a digest has 64 digits, and encodes to 64 bytes.
pub proof fn lemma_digest_text_len(text: Seq<char>)
    requires
        is_digest_text(text),
    ensures
        text.len() == 64,
        encode_utf8(text).len() == 64,
{
    let digest = choose|digest: Seq<u8>| digest.len() == 32 && text == #[trigger] hex_text(digest);
    lemma_hex_text_is_ascii(digest);
}

/// Two byte strings have two hexadecimal texts.
pub proof fn lemma_hex_text_tells_apart(first: Seq<u8>, second: Seq<u8>)
    requires
        first != second,
    ensures
        hex_text(first) != hex_text(second),
{
    lemma_hex_text_round_trip(first);
    lemma_hex_text_round_trip(second);
}

/// Whether SHA-256 gives one digest for two different byte strings.
pub open spec fn sha256_collides(first: Seq<u8>, second: Seq<u8>) -> bool {
    first != second && sha256_digest(first) == sha256_digest(second)
}

/// Calls `Sha256::digest` of the `sha2` crate. Trusted: the result is the
/// SHA-256 digest of exactly the bytes given, and is 32 bytes long.
#[verifier::external_body]
pub(crate) fn sha256(data: &[u8]) -> (digest: Vec<u8>)
    ensures
        digest@ == sha256_digest(data@),
        digest@.len() == 32,
{
    sha2::Sha256::digest(data).to_vec()
}

/// Calls `hex::encode`. Trusted: the result holds two lower-case digits per
/// byte, the high nibble first.
#[verifier::external_body]
pub(crate) fn hex_encode(data: &[u8]) -> (text: String)
    ensures
        text@ == hex_text(data@),
{
    hex::encode(data)
}

/// Calls `hex::decode`. Trusted: it succeeds exactly on an even number of
/// hexadecimal digits of either case, and then yields one byte per pair.
#[verifier::external_body]
pub(crate) fn hex_decode(text: &str) -> (bytes: Result<Vec<u8>, hex::FromHexError>)
    ensures
        match bytes {
            Ok(b) => hex_bytes(encode_utf8(text@)) == Some(b@),
            Err(_) => hex_bytes(encode_utf8(text@)) is None,
        },
{
    hex::decode(text)
}

/// Calls the `Display` of `hex::FromHexError`: what the decoder says of its
/// error.
#[verifier::external_body]
pub(crate) fn hex_error_text(error: &hex::FromHexError) -> (text: String) {
    format!("{}", error)
}

/// Appends `tail` to `bytes`.
pub fn append_bytes(bytes: &mut Vec<u8>, tail: &[u8])
    ensures
        final(bytes)@ == old(bytes)@ + tail@,
{
    let mut i: usize = 0;
    while i < tail.len()
        invariant
            i <= tail.len(),
            bytes@ == old(bytes)@ + tail@.take(i as int),
        decreases tail.len() - i,
    {
        bytes.push(tail[i]);
        i += 1;
        assert(bytes@ =~= old(bytes)@ + tail@.take(i as int));
    }
    assert(tail@.take(i as int) =~= tail@);
}

/// Hexadecimal text of the SHA-256 digest of `data`: 64 digits.
pub fn sha256_hex(data: &[u8]) -> (text: String)
    ensures
        text@ == hex_text(sha256_digest(data@)),
        is_digest_text(text@),
        text@.len() == 64,
{
    let digest = sha256(data);
    hex_encode(digest.as_slice())
}

} // verus!
