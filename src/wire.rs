use vstd::prelude::*;
use vstd::utf8::*;

use crate::TransferError;

verus! {

/// Length of the fixed part of a header: the name length and the content
/// length, eight big-endian bytes each.
pub const PREFIX_LEN: usize = 16;

/// The eight big-endian bytes of `n`.
pub open spec fn be_bytes(n: u64) -> Seq<u8> {
    seq![
        (n >> 56u64) as u8,
        (n >> 48u64) as u8,
        (n >> 40u64) as u8,
        (n >> 32u64) as u8,
        (n >> 24u64) as u8,
        (n >> 16u64) as u8,
        (n >> 8u64) as u8,
        n as u8,
    ]
}

/// The number whose big-endian bytes are the first eight of `b`.
pub open spec fn be_value(b: Seq<u8>) -> u64
    recommends
        b.len() >= 8,
{
    ((b[0] as u64) << 56u64) | ((b[1] as u64) << 48u64) | ((b[2] as u64) << 40u64) | ((
    b[3] as u64) << 32u64) | ((b[4] as u64) << 24u64) | ((b[5] as u64) << 16u64) | ((b[6] as u64)
        << 8u64) | (b[7] as u64)
}

/// The bytes of a header for a file called `name` with `content_length`
/// bytes of content: the byte length of the UTF-8 name, the content length,
/// then the name itself.
pub open spec fn header_bytes(name: Seq<char>, content_length: u64) -> Seq<u8> {
    let name_bytes = encode_utf8(name);
    be_bytes(name_bytes.len() as u64) + be_bytes(content_length) + name_bytes
}

/// What a receiver reads off the front of `b`: the file name, the content
/// length and the number of header bytes; `None` where `b` is cut short
/// or the name is not valid UTF-8.
pub open spec fn parse_header(b: Seq<u8>) -> Option<(Seq<char>, u64, int)> {
    if b.len() < PREFIX_LEN {
        None
    } else {
        let end = PREFIX_LEN + be_value(b.subrange(0, 8));
        if b.len() < end {
            None
        } else if !valid_utf8(b.subrange(PREFIX_LEN as int, end)) {
            None
        } else {
            Some((decode_utf8(b.subrange(PREFIX_LEN as int, end)), be_value(b.subrange(8, 16)), end))
        }
    }
}

/// Reading back the eight big-endian bytes of a number gives the number.
pub proof fn lemma_be_round_trip(n: u64)
    ensures
        be_value(be_bytes(n)) == n,
{
    let b = be_bytes(n);
    assert(((((n >> 56u64) as u8) as u64) << 56u64) | ((((n >> 48u64) as u8) as u64) << 48u64)
        | ((((n >> 40u64) as u8) as u64) << 40u64) | ((((n >> 32u64) as u8) as u64) << 32u64)
        | ((((n >> 24u64) as u8) as u64) << 24u64) | ((((n >> 16u64) as u8) as u64) << 16u64)
        | ((((n >> 8u64) as u8) as u64) << 8u64) | ((n as u8) as u64) == n) by (bit_vector);
}

/// Appends the eight big-endian bytes of `n` to `out`.
pub fn push_be_u64(out: &mut Vec<u8>, n: u64)
    ensures
        final(out)@ == old(out)@ + be_bytes(n),
{
    out.push((n >> 56u64) as u8);
    out.push((n >> 48u64) as u8);
    out.push((n >> 40u64) as u8);
    out.push((n >> 32u64) as u8);
    out.push((n >> 24u64) as u8);
    out.push((n >> 16u64) as u8);
    out.push((n >> 8u64) as u8);
    out.push(n as u8);
    assert(final(out)@ =~= old(out)@ + be_bytes(n));
}

/// The number whose big-endian bytes are `b[start..start + 8]`.
pub fn read_be_u64(b: &[u8], start: usize) -> (r: u64)
    requires
        start + 8 <= b@.len(),
    ensures
        r == be_value(b@.subrange(start as int, start + 8)),
{
    ((b[start] as u64) << 56u64) | ((b[start + 1] as u64) << 48u64) | ((b[start + 2] as u64)
        << 40u64) | ((b[start + 3] as u64) << 32u64) | ((b[start + 4] as u64) << 24u64) | ((b[start
        + 5] as u64) << 16u64) | ((b[start + 6] as u64) << 8u64) | (b[start + 7] as u64)
}


/// A decoded header: the announced file name and content length.
pub struct Header {
    pub name: String,
    pub content_length: u64,
}

/// Relies on `String::from_utf8`: it accepts exactly the valid UTF-8 byte
/// sequences, and the string it returns holds the characters they encode.
#[verifier::external_body]
fn string_from_utf8(bytes: Vec<u8>) -> (r: Option<String>)
    ensures
        r is Some <==> valid_utf8(bytes@),
        r matches Some(s) ==> s@ == decode_utf8(bytes@),
{
    String::from_utf8(bytes).ok()
}

/// The header bytes for a file called `name` with `content_length` bytes
/// of content.
pub fn encode_header(name: &str, content_length: u64) -> (r: Vec<u8>)
    ensures
        r@ == header_bytes(name@, content_length),
{
    let name_bytes = name.as_bytes();
    let mut out: Vec<u8> = Vec::new();
    push_be_u64(&mut out, name_bytes.len() as u64);
    push_be_u64(&mut out, content_length);
    let mut i: usize = 0;
    while i < name_bytes.len()
        invariant
            name_bytes@ == encode_utf8(name@),
            i <= name_bytes@.len(),
            out@ == be_bytes(name_bytes@.len() as u64) + be_bytes(content_length)
                + name_bytes@.subrange(0, i as int),
        decreases name_bytes@.len() - i,
    {
        out.push(name_bytes[i]);
        i = i + 1;
        assert(name_bytes@.subrange(0, i as int) =~= name_bytes@.subrange(0, i - 1) + seq![
            name_bytes@[i - 1],
        ]);
    }
    assert(name_bytes@.subrange(0, i as int) =~= name_bytes@);
    out
}

/// Reads the fixed part of a header: the byte length of the name and the
/// content length.
pub fn decode_prefix(prefix: &[u8]) -> (r: Result<(u64, u64), TransferError>)
    ensures
        prefix@.len() < PREFIX_LEN ==> r == Err::<(u64, u64), TransferError>(TransferError::Decode),
        prefix@.len() >= PREFIX_LEN ==> r == Ok::<(u64, u64), TransferError>(
            (be_value(prefix@.subrange(0, 8)), be_value(prefix@.subrange(8, 16))),
        ),
{
    if prefix.len() < PREFIX_LEN {
        return Err(TransferError::Decode);
    }
    Ok((read_be_u64(prefix, 0), read_be_u64(prefix, 8)))
}

/// Turns the name field of a header into the file name.
pub fn decode_name(name_bytes: Vec<u8>) -> (r: Result<String, TransferError>)
    ensures
        r is Err <==> !valid_utf8(name_bytes@),
        r matches Err(e) ==> e == TransferError::Decode,
        r matches Ok(s) ==> s@ == decode_utf8(name_bytes@),
{
    match string_from_utf8(name_bytes) {
        Some(s) => Ok(s),
        None => Err(TransferError::Decode),
    }
}

/// Decodes the header at the front of `b`, giving the header and how many
/// bytes it took. Fails with `Decode` where `b` is too short or the name is
/// not valid UTF-8.
pub fn decode_header(b: &[u8]) -> (r: Result<(Header, usize), TransferError>)
    ensures
        match parse_header(b@) {
            None => r == Err::<(Header, usize), TransferError>(TransferError::Decode),
            Some((name, content_length, used)) => r matches Ok((h, n)) && h.name@ == name
                && h.content_length == content_length && n == used,
        },
{
    let (name_len, content_length) = match decode_prefix(b) {
        Ok(p) => p,
        Err(e) => return Err(e),
    };
    if ((b.len() - PREFIX_LEN) as u64) < name_len {
        return Err(TransferError::Decode);
    }
    let end: usize = PREFIX_LEN + name_len as usize;
    let mut name_bytes: Vec<u8> = Vec::new();
    let mut i: usize = PREFIX_LEN;
    while i < end
        invariant
            PREFIX_LEN <= i <= end <= b@.len(),
            name_bytes@ == b@.subrange(PREFIX_LEN as int, i as int),
        decreases end - i,
    {
        name_bytes.push(b[i]);
        i = i + 1;
        assert(name_bytes@ =~= b@.subrange(PREFIX_LEN as int, i as int));
    }
    match decode_name(name_bytes) {
        Ok(name) => Ok((Header { name, content_length }, end)),
        Err(e) => Err(e),
    }
}

/// Decoding what `encode_header` produces, with any bytes after it, gives
/// back the name and the content length, and the header ends where the
/// content begins.
pub proof fn lemma_header_round_trip(name: Seq<char>, content_length: u64, rest: Seq<u8>)
    requires
        encode_utf8(name).len() <= u64::MAX,
    ensures
        parse_header(header_bytes(name, content_length) + rest) == Some(
            (name, content_length, header_bytes(name, content_length).len() as int),
        ),
{
    let nb = encode_utf8(name);
    let h = header_bytes(name, content_length);
    let b = h + rest;
    lemma_be_round_trip(nb.len() as u64);
    lemma_be_round_trip(content_length);
    assert(b.subrange(0, 8) =~= be_bytes(nb.len() as u64));
    assert(b.subrange(8, 16) =~= be_bytes(content_length));
    assert(b.subrange(16, 16 + nb.len() as int) =~= nb);
    encode_utf8_valid_utf8(name);
    encode_utf8_decode_utf8(name);
}

} // verus!
