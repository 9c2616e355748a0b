//! Endpoint ids and their text forms.
//!
//! An endpoint id is the 32 bytes of an iroh public key. It is written in
//! z-base-32 or in 64 hex digits. What iroh's own parser reads besides, plain
//! base32, is accepted where it is not z-base-32 too.
use vstd::prelude::*;
use vstd::utf8::encode_utf8;

verus! {

/// The bytes of an endpoint's public key.
pub type EndpointId = [u8; 32];

/// The endpoint id that `iroh::EndpointId`'s `FromStr` reads from a text, or the text
/// of its error.
pub uninterp spec fn iroh_parsed(text: Seq<char>) -> Result<Seq<u8>, Seq<char>>;

/// The endpoint id that iroh's own parser reads from a text.
pub open spec fn iroh_id(text: Seq<char>) -> Option<Seq<u8>> {
    match iroh_parsed(text) {
        Ok(id) => Some(id),
        Err(_) => None,
    }
}

/// The endpoint id that `iroh::PublicKey::from_z32` reads from a text.
pub uninterp spec fn z32_id(text: Seq<char>) -> Option<Seq<u8>>;

/// The text that `iroh::PublicKey::to_z32` writes for the bytes of a key.
pub uninterp spec fn z32_text(bytes: Seq<u8>) -> Seq<char>;

/// Whether `iroh::PublicKey::from_bytes` accepts 32 bytes as a key.
pub uninterp spec fn is_public_key(bytes: Seq<u8>) -> bool;

/// An optional id, with its bytes viewed.
pub open spec fn id_option(id: Option<EndpointId>) -> Option<Seq<u8>> {
    match id {
        Some(b) => Some(b@),
        None => None,
    }
}

/// Calls `str::parse` for `iroh::EndpointId`, and formats its error with `Display`.
/// What it reads or reports is a function of the text alone; what it reads is a
/// public key.
#[verifier::external_body]
pub(crate) fn parse_iroh_id(text: &str) -> (id: Result<EndpointId, String>)
    ensures
        match id {
            Ok(key) => iroh_parsed(text@) == Ok::<Seq<u8>, Seq<char>>(key@) && is_public_key(key@),
            Err(e) => iroh_parsed(text@) == Err::<Seq<u8>, Seq<char>>(e@),
        },
{
    text.parse::<iroh::EndpointId>().map(|id| *id.as_bytes()).map_err(|e| e.to_string())
}

/// Calls `iroh::PublicKey::from_z32`. What it reads is a function of the text alone,
/// and a public key.
#[verifier::external_body]
fn parse_z32(text: &str) -> (id: Option<EndpointId>)
    ensures
        id_option(id) == z32_id(text@),
        id matches Some(key) ==> is_public_key(key@),
{
    iroh::PublicKey::from_z32(text).ok().map(|key| *key.as_bytes())
}

/// Prints the key that `iroh::PublicKey::from_bytes` makes of the bytes with
/// `to_z32`. The text is a function of the bytes alone, and `from_z32` reads the
/// same key from it.
#[verifier::external_body]
fn key_in_z32(bytes: &[u8; 32]) -> (text: Option<String>)
    ensures
        text is Some <==> is_public_key(bytes@),
        text matches Some(t) ==> t@ == z32_text(bytes@) && z32_id(t@) == Some(bytes@),
{
    iroh::PublicKey::from_bytes(bytes).ok().map(|key| key.to_z32())
}

/// Calls `iroh::PublicKey::from_bytes`. Whether it accepts depends on the bytes
/// alone, and a key keeps the bytes that it was made from.
#[verifier::external_body]
fn public_key(bytes: &[u8; 32]) -> (key: Option<EndpointId>)
    ensures
        key is Some <==> is_public_key(bytes@),
        key matches Some(k) ==> k@ == bytes@,
{
    iroh::PublicKey::from_bytes(bytes).ok().map(|key| *key.as_bytes())
}

/// Prints the key that `iroh::PublicKey::from_bytes` makes of the bytes with
/// iroh's `Display`: lower-case hex digits of the bytes, a text that iroh parses
/// back to the same key. It is no key in z-base-32, where its 64 characters would be
/// 40 bytes.
#[verifier::external_body]
fn public_key_text(bytes: &[u8; 32]) -> (text: Option<String>)
    ensures
        text is Some <==> is_public_key(bytes@),
        text matches Some(t) ==> t@ == lower_hex(bytes@) && iroh_id(t@) == Some(bytes@)
            && z32_id(t@) is None,
{
    iroh::PublicKey::from_bytes(bytes).ok().map(|key| key.to_string())
}

/// Calls `hex::decode`: pairs of hex digits of either case, and an error on
/// anything else.
#[verifier::external_body]
fn hex_decode(text: &str) -> (bytes: Option<Vec<u8>>)
    ensures
        bytes is Some <==> hex_bytes(encode_utf8(text@)) is Some,
        bytes matches Some(b) ==> hex_bytes(encode_utf8(text@)) == Some(b@),
{
    hex::decode(text).ok()
}

/// Calls `hex::encode`: two lower-case hex digits for each byte.
#[verifier::external_body]
fn hex_encode(bytes: &[u8]) -> (text: String)
    ensures
        text@ == lower_hex(bytes@),
{
    hex::encode(bytes)
}

/// The value of an ASCII hex digit of either case.
pub open spec fn hex_value(c: u8) -> Option<int> {
    if 0x30 <= c <= 0x39 {
        Some(c - 0x30)
    } else if 0x41 <= c <= 0x46 {
        Some(c - 0x41 + 10)
    } else if 0x61 <= c <= 0x66 {
        Some(c - 0x61 + 10)
    } else {
        None
    }
}

/// The bytes that an even number of hex digits stand for.
pub open spec fn hex_bytes(text: Seq<u8>) -> Option<Seq<u8>> {
    if text.len() % 2 == 0 && forall|i: int|
        0 <= i < text.len() ==> hex_value(#[trigger] text[i]) is Some {
        Some(
            Seq::new(
                text.len() / 2,
                |i: int| (16 * hex_value(text[2 * i])->0 + hex_value(text[2 * i + 1])->0) as u8,
            ),
        )
    } else {
        None
    }
}

/// The lower-case digit for a number below sixteen.
pub open spec fn hex_digit(n: int) -> char {
    if n < 10 {
        (('0' as int) + n) as char
    } else {
        (('a' as int) + n - 10) as char
    }
}

/// Two lower-case hex digits for each byte.
pub open spec fn lower_hex(bytes: Seq<u8>) -> Seq<char> {
    Seq::new(
        2 * bytes.len(),
        |i: int|
            if i % 2 == 0 {
                hex_digit(bytes[i / 2] as int / 16)
            } else {
                hex_digit(bytes[i / 2] as int % 16)
            },
    )
}

/// The 32 bytes that a text of 64 hex digits stands for.
pub open spec fn hex_key(text: Seq<char>) -> Option<Seq<u8>> {
    match hex_bytes(encode_utf8(text)) {
        Some(bytes) => if bytes.len() == 32 {
            Some(bytes)
        } else {
            None
        },
        None => None,
    }
}

/// The endpoint id in a text: a key in z-base-32, and else what iroh's own parser
/// reads, and else a key in hex digits.
pub open spec fn endpoint_id(text: Seq<char>) -> Option<Seq<u8>> {
    match (z32_id(text), iroh_id(text)) {
        (Some(id), _) => Some(id),
        (None, Some(id)) => Some(id),
        (None, None) => match hex_key(text) {
            Some(bytes) => if is_public_key(bytes) {
                Some(bytes)
            } else {
                None
            },
            None => None,
        },
    }
}

/// The canonical text of `id` is read back by every parser of ids, where `id` is a
/// public key.
pub open spec fn text_reads_back(id: Seq<u8>) -> bool {
    is_public_key(id) ==> iroh_id(lower_hex(id)) == Some(id) && endpoint_id(lower_hex(id)) == Some(
        id,
    )
}

/// Reads 64 hex digits.
pub fn parse_hex_key(text: &str) -> (key: Option<[u8; 32]>)
    ensures
        id_option(key) == hex_key(text@),
{
    match hex_decode(text) {
        Some(bytes) => if bytes.len() == 32 {
            let key = crate::protocol::array32(bytes.as_slice(), 0);
            assert(key@ =~= bytes@);
            Some(key)
        } else {
            None
        },
        None => None,
    }
}

/// Parses an endpoint id from its z-base-32 form, from a form that iroh parses or
/// from its 64-digit hex form. Returns `None` for any other shape.
pub fn parse_endpoint_id(s: &str) -> (id: Option<EndpointId>)
    ensures
        id_option(id) == endpoint_id(s@),
        id matches Some(key) ==> is_public_key(key@),
{
    if let Some(id) = parse_z32(s) {
        return Some(id);
    }
    match parse_iroh_id(s) {
        Ok(id) => Some(id),
        Err(_) => match parse_hex_key(s) {
            Some(bytes) => public_key(&bytes),
            None => None,
        },
    }
}

/// The z-base-32 text of an endpoint id, where the id is a public key. It parses
/// back to the id.
pub fn endpoint_z32(id: &EndpointId) -> (text: Option<String>)
    ensures
        text is Some <==> is_public_key(id@),
        text matches Some(t) ==> t@ == z32_text(id@) && endpoint_id(t@) == Some(id@),
{
    key_in_z32(id)
}

/// The canonical text of an endpoint id. It parses back to the id, where the id
/// is a public key.
pub fn endpoint_text(id: &EndpointId) -> (text: String)
    ensures
        text@ == lower_hex(id@),
        text_reads_back(id@),
{
    match public_key_text(id) {
        Some(text) => text,
        None => hex_encode(id.as_slice()),
    }
}

/// Whether two ids are the same.
pub fn same_id(a: &EndpointId, b: &EndpointId) -> (same: bool)
    ensures
        same == (a@ == b@),
        same == (*a == *b),
{
    let mut i: usize = 0;
    while i < 32
        invariant
            i <= 32,
            forall|j: int| 0 <= j < i ==> a@[j] == b@[j],
        decreases 32 - i,
    {
        if a[i] != b[i] {
            assert(a@[i as int] != b@[i as int]);
            return false;
        }
        i = i + 1;
    }
    assert(a@ =~= b@);
    assert(*a =~= *b);
    true
}

/// What is written in hex digits is read back: two digits for each byte.
pub proof fn law_hex_reads_back(bytes: Seq<u8>)
    ensures
        lower_hex(bytes).len() == 2 * bytes.len(),
        hex_bytes(encode_utf8(lower_hex(bytes))) == Some(bytes),
        bytes.len() == 32 ==> hex_key(lower_hex(bytes)) == Some(bytes),
        forall|i: int|
            0 <= i < lower_hex(bytes).len() ==> '0' <= #[trigger] lower_hex(bytes)[i] <= '9' || 'a'
                <= lower_hex(bytes)[i] <= 'f',
{
    let text = lower_hex(bytes);
    assert forall|i: int| 0 <= i < text.len() implies '0' <= #[trigger] text[i] <= '9' || 'a'
        <= text[i] <= 'f' by {
        let b = bytes[i / 2] as int;
        assert(0 <= b / 16 < 16 && 0 <= b % 16 < 16);
    }
    assert(vstd::utf8::is_ascii_chars(text)) by {
        assert forall|i: int| 0 <= i < text.len() implies '\0' <= #[trigger] text[i] <= '\u{7f}' by {
            assert('0' <= text[i] <= '9' || 'a' <= text[i] <= 'f');
        }
    }
    vstd::utf8::is_ascii_chars_encode_utf8(text);
    let raw = encode_utf8(text);
    assert forall|i: int| 0 <= i < raw.len() implies hex_value(#[trigger] raw[i]) is Some by {
        assert(text[i] as u8 == raw[i]);
        assert('0' <= text[i] <= '9' || 'a' <= text[i] <= 'f');
    }
    assert(raw.len() % 2 == 0);
    let read = hex_bytes(raw)->0;
    assert forall|i: int| 0 <= i < bytes.len() implies read[i] == bytes[i] by {
        let b = bytes[i] as int;
        assert(text[2 * i] == hex_digit(b / 16));
        assert(text[2 * i + 1] == hex_digit(b % 16)) by {
            assert((2 * i + 1) / 2 == i && (2 * i + 1) % 2 == 1);
        }
        assert(text[2 * i] as u8 == raw[2 * i]);
        assert(text[2 * i + 1] as u8 == raw[2 * i + 1]);
        assert(hex_value(raw[2 * i]) == Some(b / 16));
        assert(hex_value(raw[2 * i + 1]) == Some(b % 16));
    }
    assert(read =~= bytes);
}

/// Hex digits stand for bytes in pairs, the high one first, in either case; an odd
/// number of them and any other character stand for nothing.
pub proof fn law_hex_digits_come_in_pairs(text: Seq<u8>, i: int)
    ensures
        hex_bytes(text) is Some <==> text.len() % 2 == 0 && forall|k: int|
            0 <= k < text.len() ==> 48 <= #[trigger] text[k] <= 57 || 65 <= text[k] <= 70 || 97
                <= text[k] <= 102,
        hex_bytes(text) matches Some(bytes) ==> 2 * bytes.len() == text.len(),
        hex_bytes(text) is Some && 0 <= i < text.len() / 2 ==> hex_bytes(text)->0[i] as int == 16
            * hex_value(text[2 * i])->0 + hex_value(text[2 * i + 1])->0,
        forall|c: u8| 48 <= c <= 57 ==> #[trigger] hex_value(c) == Some(c - 48),
        forall|c: u8| 65 <= c <= 70 ==> #[trigger] hex_value(c) == Some(c - 55),
        forall|c: u8| 97 <= c <= 102 ==> #[trigger] hex_value(c) == Some(c - 87),
{
    if text.len() % 2 == 0 && forall|k: int|
        0 <= k < text.len() ==> 48 <= #[trigger] text[k] <= 57 || 65 <= text[k] <= 70 || 97
            <= text[k] <= 102 {
        assert forall|k: int| 0 <= k < text.len() implies hex_value(#[trigger] text[k]) is Some by {
        }
    }
    if hex_bytes(text) is Some {
        assert forall|k: int| 0 <= k < text.len() implies 48 <= #[trigger] text[k] <= 57 || 65
            <= text[k] <= 70 || 97 <= text[k] <= 102 by {
            assert(hex_value(text[k]) is Some);
        }
        if 0 <= i < text.len() / 2 {
            assert(hex_value(text[2 * i]) is Some);
            assert(hex_value(text[2 * i + 1]) is Some);
        }
    }
}

/// An id is read as z-base-32 before anything else, then as iroh reads it, and then as
/// 64 hex digits of a public key; what none of them reads is no id.
pub proof fn law_forms_of_an_id(text: Seq<char>)
    ensures
        z32_id(text) is Some ==> endpoint_id(text) == z32_id(text),
        z32_id(text) is None && iroh_id(text) is Some ==> endpoint_id(text) == iroh_id(text),
        z32_id(text) is None && iroh_id(text) is None ==> match hex_bytes(encode_utf8(text)) {
            Some(bytes) => if bytes.len() == 32 && is_public_key(bytes) {
                endpoint_id(text) == Some(bytes)
            } else {
                endpoint_id(text) is None
            },
            None => endpoint_id(text) is None,
        },
        iroh_id(text) is Some <==> iroh_parsed(text) is Ok,
        iroh_id(text) matches Some(id) ==> iroh_parsed(text) == Ok::<Seq<u8>, Seq<char>>(id),
{
}

} // verus!
