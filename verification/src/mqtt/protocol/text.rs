//! Length-prefixed fields of MQTT packets: UTF-8 strings and binary data, each led
//! by its length in two big-endian bytes.
use vstd::prelude::*;
use vstd::utf8::*;

use super::super::error::MqttProtocolError;
use super::wire::{
    be_u16_at, be_u16_bytes, lemma_u16_roundtrip, put_slice, put_u16, read_bytes, read_u16,
};

verus! {

broadcast use vstd::utf8::group_utf8_lib;

/// The text that a byte string stands for, when it is valid UTF-8.
pub open spec fn utf8_text(b: Seq<u8>) -> Option<Seq<char>> {
    if valid_utf8(b) {
        Some(decode_utf8(b))
    } else {
        None
    }
}

/// What `String::from_utf8_lossy` makes of a byte string: its text, with each
/// invalid sequence replaced by U+FFFD.
pub uninterp spec fn utf8_lossy(b: Seq<u8>) -> Seq<char>;

/// The bytes of the length-prefixed field at `i` and the position after it, or `None`
/// when the packet ends before the field does.
pub open spec fn field_at(s: Seq<u8>, i: int) -> Option<(Seq<u8>, int)> {
    if i + 2 > s.len() {
        None
    } else {
        let n = be_u16_at(s, i) as int;
        if i + 2 + n > s.len() {
            None
        } else {
            Some((s.subrange(i + 2, i + 2 + n), i + 2 + n))
        }
    }
}

/// A length-prefixed field that holds `b`; the length keeps its low sixteen bits.
pub open spec fn field_bytes(b: Seq<u8>) -> Seq<u8> {
    be_u16_bytes((b.len() % 65536) as u16) + b
}

/// A length-prefixed field that holds the UTF-8 encoding of `t`.
pub open spec fn text_bytes(t: Seq<char>) -> Seq<u8> {
    field_bytes(encode_utf8(t))
}

/// Calls std's `String::from_utf8`, which gives the string whose bytes are `bytes`
/// when they are valid UTF-8, and fails otherwise.
#[verifier::external_body]
fn string_from_utf8(bytes: Vec<u8>) -> (r: Option<String>)
    ensures
        match utf8_text(bytes@) {
            Some(t) => r matches Some(s) && s@ == t,
            None => r is None,
        },
{
    String::from_utf8(bytes).ok()
}

/// Calls std's `String::from_utf8_lossy`, which gives the text of valid UTF-8 as it
/// is and replaces each invalid sequence by U+FFFD.
#[verifier::external_body]
fn string_from_utf8_lossy(bytes: &[u8]) -> (r: String)
    ensures
        r@ == utf8_lossy(bytes@),
        valid_utf8(bytes@) ==> r@ == decode_utf8(bytes@),
{
    String::from_utf8_lossy(bytes).into_owned()
}

/// Reads the binary field at `pos`; `Disconnect` when the packet ends first.
pub fn read_binary(buf: &[u8], pos: usize) -> (r: Result<(Vec<u8>, usize), MqttProtocolError>)
    ensures
        match field_at(buf@, pos as int) {
            Some((b, j)) => r matches Ok((v, k)) && v@ == b && k == j,
            None => r == Err::<(Vec<u8>, usize), MqttProtocolError>(MqttProtocolError::Disconnect),
        },
{
    match read_u16(buf, pos) {
        Ok((n, p)) => read_bytes(buf, p, n as usize),
        Err(e) => Err(e),
    }
}

/// Reads the UTF-8 string field at `pos`: `Disconnect` when the packet ends first,
/// `invalid` when the bytes are not UTF-8.
pub fn read_text(buf: &[u8], pos: usize, invalid: MqttProtocolError) -> (r: Result<
    (String, usize),
    MqttProtocolError,
>)
    ensures
        match field_at(buf@, pos as int) {
            Some((b, j)) => match utf8_text(b) {
                Some(t) => r matches Ok((s, k)) && s@ == t && k == j,
                None => r == Err::<(String, usize), MqttProtocolError>(invalid),
            },
            None => r == Err::<(String, usize), MqttProtocolError>(MqttProtocolError::Disconnect),
        },
{
    match read_binary(buf, pos) {
        Ok((b, p)) => match string_from_utf8(b) {
            Some(s) => Ok((s, p)),
            None => Err(invalid),
        },
        Err(e) => Err(e),
    }
}

/// Reads the string field at `pos`, replacing invalid UTF-8; `Disconnect` when the
/// packet ends first.
pub fn read_text_lossy(buf: &[u8], pos: usize) -> (r: Result<(String, usize), MqttProtocolError>)
    ensures
        match field_at(buf@, pos as int) {
            Some((b, j)) => r matches Ok((s, k)) && s@ == utf8_lossy(b) && k == j && (valid_utf8(
                b,
            ) ==> s@ == decode_utf8(b)),
            None => r == Err::<(String, usize), MqttProtocolError>(MqttProtocolError::Disconnect),
        },
{
    match read_binary(buf, pos) {
        Ok((b, p)) => Ok((string_from_utf8_lossy(b.as_slice()), p)),
        Err(e) => Err(e),
    }
}

/// Appends a binary field that holds `b`.
pub fn put_binary(out: &mut Vec<u8>, b: &[u8])
    ensures
        final(out)@ == old(out)@ + field_bytes(b@),
{
    put_u16(out, (b.len() % 65536) as u16);
    put_slice(out, b);
    assert(out@ =~= old(out)@ + field_bytes(b@));
}

/// Appends a string field that holds `s`.
pub fn put_text(out: &mut Vec<u8>, s: &str)
    ensures
        final(out)@ == old(out)@ + text_bytes(s@),
{
    put_binary(out, s.as_bytes());
}

/// A field reads back as written, wherever it stands, when its length fits in
/// sixteen bits.
pub proof fn lemma_field_roundtrip(s: Seq<u8>, i: int, b: Seq<u8>)
    requires
        b.len() < 65536,
        0 <= i,
        i + field_bytes(b).len() <= s.len(),
        s.subrange(i, i + field_bytes(b).len()) == field_bytes(b),
    ensures
        field_at(s, i) == Some((b, i + field_bytes(b).len())),
{
    let f = field_bytes(b);
    assert(s.subrange(i, i + 2) =~= f.subrange(0, 2));
    assert(f.subrange(0, 2) =~= be_u16_bytes(b.len() as u16));
    lemma_u16_roundtrip(s, i, b.len() as u16);
    assert(s.subrange(i + 2, i + 2 + b.len()) =~= f.subrange(2, f.len() as int));
    assert(f.subrange(2, f.len() as int) =~= b);
}

/// A string field reads back as the same text, wherever it stands, when its
/// encoding fits in sixteen bits.
pub proof fn lemma_text_roundtrip(s: Seq<u8>, i: int, t: Seq<char>)
    requires
        encode_utf8(t).len() < 65536,
        0 <= i,
        i + text_bytes(t).len() <= s.len(),
        s.subrange(i, i + text_bytes(t).len()) == text_bytes(t),
    ensures
        field_at(s, i) == Some((encode_utf8(t), i + text_bytes(t).len())),
        utf8_text(encode_utf8(t)) == Some(t),
{
    lemma_field_roundtrip(s, i, encode_utf8(t));
}

} // verus!
