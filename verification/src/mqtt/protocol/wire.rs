//! Reading and writing the primitive fields of MQTT packets: big-endian integers,
//! byte strings and variable byte integers.
use vstd::prelude::*;

use super::super::error::MqttProtocolError;

verus! {

/// The big-endian 16-bit value of the two bytes at `i`.
pub open spec fn be_u16_at(s: Seq<u8>, i: int) -> u16 {
    (s[i] as int * 256 + s[i + 1] as int) as u16
}

/// The big-endian 32-bit value of the four bytes at `i`.
pub open spec fn be_u32_at(s: Seq<u8>, i: int) -> u32 {
    (s[i] as int * 16777216 + s[i + 1] as int * 65536 + s[i + 2] as int * 256 + s[i
        + 3] as int) as u32
}

/// The big-endian bytes of a 16-bit value.
pub open spec fn be_u16_bytes(v: u16) -> Seq<u8> {
    seq![(v / 256) as u8, (v % 256) as u8]
}

/// The big-endian bytes of a 32-bit value.
pub open spec fn be_u32_bytes(v: u32) -> Seq<u8> {
    seq![(v / 16777216) as u8, ((v / 65536) % 256) as u8, ((v / 256) % 256) as u8, (v % 256) as u8]
}

/// Reads the byte at `pos`; `Disconnect` when the packet has ended.
pub fn read_u8(buf: &[u8], pos: usize) -> (r: Result<(u8, usize), MqttProtocolError>)
    ensures
        pos < buf@.len() ==> (r matches Ok((v, p)) && v == buf@[pos as int] && p == pos + 1),
        pos >= buf@.len() ==> r == Err::<(u8, usize), MqttProtocolError>(MqttProtocolError::Disconnect),
{
    if pos < buf.len() {
        Ok((buf[pos], pos + 1))
    } else {
        Err(MqttProtocolError::Disconnect)
    }
}

/// Reads the big-endian 16-bit value at `pos`; `Disconnect` when the packet has ended.
pub fn read_u16(buf: &[u8], pos: usize) -> (r: Result<(u16, usize), MqttProtocolError>)
    ensures
        pos + 2 <= buf@.len() ==> (r matches Ok((v, p)) && v == be_u16_at(buf@, pos as int) && p
            == pos + 2),
        pos + 2 > buf@.len() ==> r == Err::<(u16, usize), MqttProtocolError>(MqttProtocolError::Disconnect),
{
    if pos < buf.len() && buf.len() - pos >= 2 {
        let v = (buf[pos] as u16) * 256 + (buf[pos + 1] as u16);
        Ok((v, pos + 2))
    } else {
        Err(MqttProtocolError::Disconnect)
    }
}

/// Reads the big-endian 32-bit value at `pos`; `Disconnect` when the packet has ended.
pub fn read_u32(buf: &[u8], pos: usize) -> (r: Result<(u32, usize), MqttProtocolError>)
    ensures
        pos + 4 <= buf@.len() ==> (r matches Ok((v, p)) && v == be_u32_at(buf@, pos as int) && p
            == pos + 4),
        pos + 4 > buf@.len() ==> r == Err::<(u32, usize), MqttProtocolError>(MqttProtocolError::Disconnect),
{
    if pos < buf.len() && buf.len() - pos >= 4 {
        let v = (buf[pos] as u32) * 16777216 + (buf[pos + 1] as u32) * 65536 + (buf[pos + 2] as u32)
            * 256 + (buf[pos + 3] as u32);
        Ok((v, pos + 4))
    } else {
        Err(MqttProtocolError::Disconnect)
    }
}

/// Copies the `n` bytes at `pos`; `Disconnect` when the packet ends before them.
pub fn read_bytes(buf: &[u8], pos: usize, n: usize) -> (r: Result<
    (Vec<u8>, usize),
    MqttProtocolError,
>)
    ensures
        pos + n <= buf@.len() ==> (r matches Ok((v, p)) && v@ == buf@.subrange(pos as int, pos + n)
            && p == pos + n),
        pos + n > buf@.len() ==> r == Err::<(Vec<u8>, usize), MqttProtocolError>(MqttProtocolError::Disconnect),
{
    if pos <= buf.len() && buf.len() - pos >= n {
        let mut v: Vec<u8> = Vec::with_capacity(n);
        let mut k: usize = 0;
        let blen = buf.len();
        while k < n
            invariant
                blen == buf@.len(),
                pos + n <= buf@.len(),
                k <= n,
                v@ == buf@.subrange(pos as int, pos + k),
            decreases n - k,
        {
            v.push(buf[pos + k]);
            k = k + 1;
            assert(v@ =~= buf@.subrange(pos as int, pos + k));
        }
        Ok((v, pos + n))
    } else {
        Err(MqttProtocolError::Disconnect)
    }
}

/// Appends one byte.
pub fn put_u8(out: &mut Vec<u8>, v: u8)
    ensures
        final(out)@ == old(out)@.push(v),
{
    out.push(v);
}

/// Appends a 16-bit value, big-endian.
pub fn put_u16(out: &mut Vec<u8>, v: u16)
    ensures
        final(out)@ == old(out)@ + be_u16_bytes(v),
{
    out.push((v / 256) as u8);
    out.push((v % 256) as u8);
    assert(out@ =~= old(out)@ + be_u16_bytes(v));
}

/// Appends a 32-bit value, big-endian.
pub fn put_u32(out: &mut Vec<u8>, v: u32)
    ensures
        final(out)@ == old(out)@ + be_u32_bytes(v),
{
    out.push((v / 16777216) as u8);
    out.push(((v / 65536) % 256) as u8);
    out.push(((v / 256) % 256) as u8);
    out.push((v % 256) as u8);
    assert(out@ =~= old(out)@ + be_u32_bytes(v));
}

/// Appends the bytes of `s`.
pub fn put_slice(out: &mut Vec<u8>, s: &[u8])
    ensures
        final(out)@ == old(out)@ + s@,
{
    let mut k: usize = 0;
    while k < s.len()
        invariant
            k <= s@.len(),
            out@ == old(out)@ + s@.subrange(0, k as int),
        decreases s.len() - k,
    {
        out.push(s[k]);
        k = k + 1;
        assert(out@ =~= old(out)@ + s@.subrange(0, k as int));
    }
    assert(s@.subrange(0, s@.len() as int) =~= s@);
}

/// A fresh copy of some bytes.
pub fn copy_bytes(v: &[u8]) -> (r: Vec<u8>)
    ensures
        r@ == v@,
{
    let mut out: Vec<u8> = Vec::new();
    put_slice(&mut out, v);
    assert(out@ =~= v@);
    out
}

/// The bytes of `buf` from `from` up to `to`.
pub fn slice_range(buf: &[u8], from: usize, to: usize) -> (r: &[u8])
    requires
        from <= to <= buf@.len(),
    ensures
        r@ == buf@.subrange(from as int, to as int),
{
    let (head, _) = buf.split_at(to);
    let (_, piece) = head.split_at(from);
    piece
}

/// A piece of a piece of a sequence is a piece of the sequence.
pub proof fn lemma_sub_subrange(s: Seq<u8>, i: int, j: int, a: int, b: int)
    requires
        0 <= i <= j <= s.len(),
        0 <= a <= b <= j - i,
    ensures
        s.subrange(i + a, i + b) == s.subrange(i, j).subrange(a, b),
{
    assert(s.subrange(i + a, i + b) =~= s.subrange(i, j).subrange(a, b));
}

/// A big-endian 16-bit value reads back as written, wherever it stands.
pub proof fn lemma_u16_roundtrip(s: Seq<u8>, i: int, v: u16)
    requires
        0 <= i,
        i + 2 <= s.len(),
        s.subrange(i, i + 2) == be_u16_bytes(v),
    ensures
        be_u16_at(s, i) == v,
{
    assert(s[i] == s.subrange(i, i + 2)[0]);
    assert(s[i + 1] == s.subrange(i, i + 2)[1]);
}

/// A big-endian 32-bit value reads back as written, wherever it stands.
pub proof fn lemma_u32_roundtrip(s: Seq<u8>, i: int, v: u32)
    requires
        0 <= i,
        i + 4 <= s.len(),
        s.subrange(i, i + 4) == be_u32_bytes(v),
    ensures
        be_u32_at(s, i) == v,
{
    let w = s.subrange(i, i + 4);
    assert(s[i] == w[0]);
    assert(s[i + 1] == w[1]);
    assert(s[i + 2] == w[2]);
    assert(s[i + 3] == w[3]);
}

/// The low seven bits of a byte.
pub fn low7(b: u8) -> (r: u32)
    ensures
        r == b % 128,
{
    assert(b & 0x7f == b % 128) by (bit_vector);
    (b & 0x7f) as u32
}

/// Whether a byte of a variable length integer announces another byte.
pub fn continues(b: u8) -> (r: bool)
    ensures
        r == (b >= 128),
{
    assert((b & 0x80 > 0) == (b >= 128)) by (bit_vector);
    b & 0x80 > 0
}

/// A byte below 128 with the continuation bit set.
fn with_continuation(b: u8) -> (r: u8)
    requires
        b < 128,
    ensures
        r == b + 128,
{
    assert(b | 0x80 == b + 128) by (bit_vector)
        requires
            b < 128,
    ;
    b | 0x80
}

/// Joins four groups of seven bits, least significant first.
fn join7(a: u32, b: u32, c: u32, d: u32) -> (r: u32)
    requires
        a < 128,
        b < 128,
        c < 128,
        d < 128,
    ensures
        r == a + b * 128 + c * 16384 + d * 2097152,
{
    assert(a | (b << 7) | (c << 14) | (d << 21) == a + b * 128 + c * 16384 + d * 2097152)
        by (bit_vector)
        requires
            a < 128,
            b < 128,
            c < 128,
            d < 128,
    ;
    a | (b << 7) | (c << 14) | (d << 21)
}

/// The encoding of a remaining length (or a property length) in one to four bytes,
/// seven bits per byte, least significant group first. Lengths from 2^28 on keep
/// only the low byte of their top group.
pub open spec fn encode_length(n: nat) -> Seq<u8> {
    if n < 128 {
        seq![n as u8]
    } else if n < 16384 {
        seq![(n % 128 + 128) as u8, (n / 128) as u8]
    } else if n < 2097152 {
        seq![(n % 128 + 128) as u8, ((n / 128) % 128 + 128) as u8, (n / 16384) as u8]
    } else {
        seq![
            (n % 128 + 128) as u8,
            ((n / 128) % 128 + 128) as u8,
            ((n / 16384) % 128 + 128) as u8,
            ((n / 2097152) % 256) as u8,
        ]
    }
}

/// Decodes the length that starts at `i`: its value and how many bytes it takes,
/// or `None` when the bytes end before it does. A fourth byte ends the length
/// whatever its top bit.
pub open spec fn decode_length(s: Seq<u8>, i: int) -> Option<(u32, int)> {
    if i >= s.len() {
        None
    } else if s[i] < 128 {
        Some((s[i] as u32, 1))
    } else if i + 1 >= s.len() {
        None
    } else if s[i + 1] < 128 {
        Some((((s[i] % 128) as u32 + (s[i + 1] as u32) * 128) as u32, 2))
    } else if i + 2 >= s.len() {
        None
    } else if s[i + 2] < 128 {
        Some(
            (((s[i] % 128) as u32 + ((s[i + 1] % 128) as u32) * 128 + (s[i + 2] as u32) * 16384) as u32, 3),
        )
    } else if i + 3 >= s.len() {
        None
    } else {
        Some(
            (
                ((s[i] % 128) as u32 + ((s[i + 1] % 128) as u32) * 128 + ((s[i + 2] % 128) as u32)
                    * 16384 + ((s[i + 3] % 128) as u32) * 2097152) as u32,
                4,
            ),
        )
    }
}

/// Appends the encoding of the length `n`.
pub fn put_length(out: &mut Vec<u8>, n: usize)
    ensures
        final(out)@ == old(out)@ + encode_length(n as nat),
{
    if n < 128 {
        out.push(n as u8);
    } else if n < 16384 {
        out.push(with_continuation((n % 128) as u8));
        out.push((n / 128) as u8);
    } else if n < 2097152 {
        out.push(with_continuation((n % 128) as u8));
        out.push(with_continuation(((n / 128) % 128) as u8));
        out.push((n / 16384) as u8);
    } else {
        out.push(with_continuation((n % 128) as u8));
        out.push(with_continuation(((n / 128) % 128) as u8));
        out.push(with_continuation(((n / 16384) % 128) as u8));
        out.push(((n / 2097152) % 256) as u8);
    }
    assert(out@ =~= old(out)@ + encode_length(n as nat));
}

/// Decodes the length that starts at `i`, as `decode_length` says.
pub fn peek_length(src: &[u8], i: usize) -> (r: Option<(u32, usize)>)
    ensures
        match decode_length(src@, i as int) {
            None => r is None,
            Some((v, k)) => r == Some((v, k as usize)),
        },
        r matches Some((v, k)) ==> 1 <= k <= 4 && i + k <= src.len(),
{
    if i >= src.len() {
        return None;
    }
    let b0 = src[i];
    if !continues(b0) {
        return Some((b0 as u32, 1));
    }
    if i + 1 >= src.len() {
        return None;
    }
    let b1 = src[i + 1];
    if !continues(b1) {
        let v = join7(low7(b0), b1 as u32, 0, 0);
        return Some((v, 2));
    }
    if i + 2 >= src.len() {
        return None;
    }
    let b2 = src[i + 2];
    if !continues(b2) {
        let v = join7(low7(b0), low7(b1), b2 as u32, 0);
        return Some((v, 3));
    }
    if i + 3 >= src.len() {
        return None;
    }
    let b3 = src[i + 3];
    let v = join7(low7(b0), low7(b1), low7(b2), low7(b3));
    Some((v, 4))
}

/// Reads the length at `pos`; `Disconnect` when the packet ends before it does.
pub fn read_length(buf: &[u8], pos: usize) -> (r: Result<(u32, usize), MqttProtocolError>)
    ensures
        match decode_length(buf@, pos as int) {
            None => r == Err::<(u32, usize), MqttProtocolError>(MqttProtocolError::Disconnect),
            Some((v, k)) => r matches Ok((w, p)) && w == v && p == pos + k,
        },
{
    match peek_length(buf, pos) {
        Some((v, k)) => Ok((v, pos + k)),
        None => Err(MqttProtocolError::Disconnect),
    }
}

/// A length below 2^28 reads back as written, wherever it stands.
pub proof fn lemma_length_roundtrip(s: Seq<u8>, i: int, n: nat)
    requires
        n < 268435456,
        0 <= i,
        i + encode_length(n).len() <= s.len(),
        s.subrange(i, i + encode_length(n).len()) == encode_length(n),
    ensures
        decode_length(s, i) == Some((n as u32, encode_length(n).len() as int)),
{
    let e = encode_length(n);
    assert forall|k: int| 0 <= k < e.len() implies s[i + k] == e[k] by {
        assert(s[i + k] == s.subrange(i, i + e.len())[k]);
    }
    if n < 128 {
        assert(s[i] == e[0]);
    } else if n < 16384 {
        assert(s[i] == e[0]);
        assert(s[i + 1] == e[1]);
        assert(s[i] % 128 == n % 128);
    } else if n < 2097152 {
        assert(s[i] == e[0]);
        assert(s[i + 1] == e[1]);
        assert(s[i + 2] == e[2]);
        assert(s[i] % 128 == n % 128);
        assert(s[i + 1] % 128 == (n / 128) % 128);
        assert(n == n % 128 + ((n / 128) % 128) * 128 + (n / 16384) * 16384) by (nonlinear_arith);
    } else {
        assert(s[i] == e[0]);
        assert(s[i + 1] == e[1]);
        assert(s[i + 2] == e[2]);
        assert(s[i + 3] == e[3]);
        assert(s[i] % 128 == n % 128);
        assert(s[i + 1] % 128 == (n / 128) % 128);
        assert(s[i + 2] % 128 == (n / 16384) % 128);
        assert(s[i + 3] % 128 == n / 2097152);
        assert(n == n % 128 + ((n / 128) % 128) * 128 + ((n / 16384) % 128) * 16384 + (n
            / 2097152) * 2097152) by (nonlinear_arith);
    }
}

/// The variable byte integer encoding of `x`: seven bits per byte, least significant
/// group first, the top bit set on every byte but the last.
pub open spec fn encode_vbi(x: nat) -> Seq<u8>
    decreases x,
{
    if x < 128 {
        seq![x as u8]
    } else {
        seq![(x % 128 + 128) as u8] + encode_vbi(x / 128)
    }
}

/// Decodes the variable byte integer at `i` and how many bytes it takes. At most four
/// bytes are read: `Disconnect` when the bytes end first, `MalformedPayload` when the
/// fourth byte still announces another.
pub open spec fn decode_vbi(s: Seq<u8>, i: int) -> Result<(u32, int), MqttProtocolError> {
    if i < 0 || i >= s.len() {
        Err(MqttProtocolError::Disconnect)
    } else if s[i] < 128 {
        Ok((s[i] as u32, 1))
    } else if i + 1 >= s.len() {
        Err(MqttProtocolError::Disconnect)
    } else if s[i + 1] < 128 {
        Ok((((s[i] % 128) as int + s[i + 1] as int * 128) as u32, 2))
    } else if i + 2 >= s.len() {
        Err(MqttProtocolError::Disconnect)
    } else if s[i + 2] < 128 {
        Ok((((s[i] % 128) as int + (s[i + 1] % 128) as int * 128 + s[i + 2] as int * 16384) as u32, 3))
    } else if i + 3 >= s.len() {
        Err(MqttProtocolError::Disconnect)
    } else if s[i + 3] < 128 {
        Ok(
            (
                ((s[i] % 128) as int + (s[i + 1] % 128) as int * 128 + (s[i + 2] % 128) as int
                    * 16384 + s[i + 3] as int * 2097152) as u32,
                4,
            ),
        )
    } else {
        Err(MqttProtocolError::MalformedPayload)
    }
}

/// Appends the variable byte integer encoding of `v`.
pub fn put_vbi(out: &mut Vec<u8>, v: u32)
    ensures
        final(out)@ == old(out)@ + encode_vbi(v as nat),
{
    let mut x = v;
    loop
        invariant_except_break
            out@ + encode_vbi(x as nat) == old(out)@ + encode_vbi(v as nat),
        ensures
            out@ == old(out)@ + encode_vbi(v as nat),
        decreases x,
    {
        let low = (x % 128) as u8;
        let rest = x / 128;
        if rest > 0 {
            let ghost before = out@;
            out.push(with_continuation(low));
            assert(before + encode_vbi(x as nat) =~= out@ + encode_vbi(rest as nat));
            x = rest;
        } else {
            let ghost before = out@;
            out.push(low);
            assert(before + encode_vbi(x as nat) =~= out@);
            break;
        }
    }
}

/// Reads the variable byte integer at `pos`, as `decode_vbi` says.
pub fn read_vbi(buf: &[u8], pos: usize) -> (r: Result<(u32, usize), MqttProtocolError>)
    ensures
        match decode_vbi(buf@, pos as int) {
            Ok((v, k)) => r matches Ok((w, p)) && w == v && p == pos + k,
            Err(e) => r == Err::<(u32, usize), MqttProtocolError>(e),
        },
        r matches Ok((w, p)) ==> pos < p <= buf@.len(),
{
    let n = buf.len();
    if pos >= n {
        return Err(MqttProtocolError::Disconnect);
    }
    let b0 = buf[pos];
    if !continues(b0) {
        return Ok((b0 as u32, pos + 1));
    }
    if pos + 1 >= n {
        return Err(MqttProtocolError::Disconnect);
    }
    let b1 = buf[pos + 1];
    if !continues(b1) {
        return Ok((join7(low7(b0), b1 as u32, 0, 0), pos + 2));
    }
    if pos + 2 >= n {
        return Err(MqttProtocolError::Disconnect);
    }
    let b2 = buf[pos + 2];
    if !continues(b2) {
        return Ok((join7(low7(b0), low7(b1), b2 as u32, 0), pos + 3));
    }
    if pos + 3 >= n {
        return Err(MqttProtocolError::Disconnect);
    }
    let b3 = buf[pos + 3];
    if !continues(b3) {
        return Ok((join7(low7(b0), low7(b1), low7(b2), b3 as u32), pos + 4));
    }
    Err(MqttProtocolError::MalformedPayload)
}

/// A variable byte integer below 2^28 reads back as written, wherever it stands.
pub proof fn lemma_vbi_roundtrip(s: Seq<u8>, i: int, x: nat)
    requires
        x < 268435456,
        0 <= i,
        i + encode_vbi(x).len() <= s.len(),
        s.subrange(i, i + encode_vbi(x).len()) == encode_vbi(x),
    ensures
        decode_vbi(s, i) == Ok::<(u32, int), MqttProtocolError>(
            (x as u32, encode_vbi(x).len() as int),
        ),
{
    reveal_with_fuel(encode_vbi, 5);
    let e = encode_vbi(x);
    assert forall|k: int| 0 <= k < e.len() implies s[i + k] == e[k] by {
        assert(s[i + k] == s.subrange(i, i + e.len())[k]);
    }
    if x < 128 {
        assert(s[i] == e[0]);
    } else if x < 16384 {
        assert(s[i] == e[0]);
        assert(s[i + 1] == e[1]);
        assert(x == x % 128 + (x / 128) * 128) by (nonlinear_arith);
    } else if x < 2097152 {
        assert(s[i] == e[0]);
        assert(s[i + 1] == e[1]);
        assert(s[i + 2] == e[2]);
        assert((x / 128) / 128 == x / 16384) by (nonlinear_arith);
        assert(x == x % 128 + ((x / 128) % 128) * 128 + (x / 16384) * 16384) by (nonlinear_arith);
    } else {
        assert(s[i] == e[0]);
        assert(s[i + 1] == e[1]);
        assert(s[i + 2] == e[2]);
        assert(s[i + 3] == e[3]);
        assert((x / 128) / 128 == x / 16384) by (nonlinear_arith);
        assert((x / 16384) / 128 == x / 2097152) by (nonlinear_arith);
        assert(x / 2097152 < 128) by (nonlinear_arith)
            requires
                x < 268435456,
        ;
        assert(x == x % 128 + ((x / 128) % 128) * 128 + ((x / 16384) % 128) * 16384 + (x
            / 2097152) * 2097152) by (nonlinear_arith);
    }
}

} // verus!
