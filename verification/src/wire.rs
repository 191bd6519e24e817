//! Protocol Buffers wire primitives: varints, field keys, length-delimited
//! values and the fields the message types are made of.
//!
//! Varints and the skipping of unknown fields are `prost`'s, and whether
//! bytes are UTF-8 is for `std` to say. The four functions that call them
//! are marked `external_body`: their contracts are taken on trust.
//! Everything built on them is verified against the `spec` functions
//! below.
use vstd::prelude::*;
use vstd::string::StringSliceAdditionalSpecFns;
use vstd::utf8::{decode_utf8, encode_utf8, valid_utf8};

verus! {

/// Wire type of a field whose value is one varint.
pub const WIRE_VARINT: u8 = 0;

/// Wire type of a field whose value is a length followed by that many bytes.
pub const WIRE_LENGTH_DELIMITED: u8 = 2;

/// The largest wire type code there is.
pub const MAX_WIRE_TYPE: u8 = 5;

/// The largest field number a key can carry.
pub const MAX_TAG: u32 = 0x1fff_ffff;

/// The error of every decoder: the bytes are not a well-formed message.
#[derive(Clone, Copy, Debug, PartialEq, Eq)]
pub struct Malformed {}

/// The error type of `prost`'s decoding functions. Opaque here: the
/// library only tells success from failure.
#[verifier::external_type_specification]
#[verifier::external_body]
pub struct ExProstDecodeError(prost::DecodeError);

/// The LEB128 encoding of `value`: seven bits per byte, least significant
/// group first, the high bit set on every byte but the last.
pub open spec fn varint_bytes(value: nat) -> Seq<u8>
    decreases value,
{
    if value < 128 {
        seq![value as u8]
    } else {
        seq![(128 + value % 128) as u8] + varint_bytes(value / 128)
    }
}

/// The number that the LEB128 encoding at the front of `bytes` stands for,
/// and the length of that encoding; `None` where `bytes` ends before the
/// encoding does.
pub open spec fn leb128(bytes: Seq<u8>) -> Option<(nat, nat)>
    decreases bytes.len(),
{
    if bytes.len() == 0 {
        None
    } else if bytes[0] < 128 {
        Some((bytes[0] as nat, 1nat))
    } else {
        match leb128(bytes.skip(1)) {
            Some((high, len)) => Some(((bytes[0] - 128 + 128 * high) as nat, len + 1)),
            None => None,
        }
    }
}

/// What reading a varint from the front of `bytes` gives: the value and
/// the number of bytes read. The encoding may be at most ten bytes long
/// and the value must fit in 64 bits.
pub open spec fn parse_varint(bytes: Seq<u8>) -> Option<(u64, nat)> {
    match leb128(bytes) {
        Some((value, len)) => if len <= 10 && value <= u64::MAX {
            Some((value as u64, len))
        } else {
            None
        },
        None => None,
    }
}

/// The encoding of a field key: the varint of the field number shifted
/// left by three bits, with the wire type in the low three.
pub open spec fn key_bytes(tag: u32, wire: u8) -> Seq<u8> {
    varint_bytes((tag * 8 + wire) as nat)
}

/// What reading a field key from the front of `bytes` gives: field
/// number, wire type and the number of bytes read. The key must fit in 32
/// bits, name one of the six wire types and a field number other than 0.
pub open spec fn parse_key(bytes: Seq<u8>) -> Option<(u32, u8, nat)> {
    match parse_varint(bytes) {
        Some((key, len)) => if key <= u32::MAX && key % 8 <= MAX_WIRE_TYPE && key / 8 >= 1 {
            Some(((key / 8) as u32, (key % 8) as u8, len))
        } else {
            None
        },
        None => None,
    }
}

/// A payload behind its length.
pub open spec fn length_delimited_bytes(payload: Seq<u8>) -> Seq<u8> {
    varint_bytes(payload.len()) + payload
}

/// What reading a length-delimited value from the front of `bytes` gives:
/// the payload and the number of bytes read, length included. The payload
/// must lie within `bytes`.
pub open spec fn parse_length_delimited(bytes: Seq<u8>) -> Option<(Seq<u8>, nat)> {
    match parse_varint(bytes) {
        Some((size, len)) => if len + size <= bytes.len() {
            Some((bytes.subrange(len as int, len + size), (len + size) as nat))
        } else {
            None
        },
        None => None,
    }
}

/// The encoding of a `string` field.
pub open spec fn string_field_bytes(tag: u32, value: Seq<char>) -> Seq<u8> {
    key_bytes(tag, WIRE_LENGTH_DELIMITED) + length_delimited_bytes(encode_utf8(value))
}

/// What reading the value of a `string` field gives: the text and the
/// number of bytes read. The field must be length-delimited and its
/// payload UTF-8.
pub open spec fn parse_string_value(wire: u8, bytes: Seq<u8>) -> Option<(Seq<char>, nat)> {
    if wire != WIRE_LENGTH_DELIMITED {
        None
    } else {
        match parse_length_delimited(bytes) {
            Some((payload, len)) => if valid_utf8(payload) {
                Some((decode_utf8(payload), len))
            } else {
                None
            },
            None => None,
        }
    }
}

/// The encoding of an `int32` field: the value goes out as the varint of
/// its sign extension to 64 bits.
pub open spec fn int32_field_bytes(tag: u32, value: i32) -> Seq<u8> {
    key_bytes(tag, WIRE_VARINT) + varint_bytes((value as u64) as nat)
}

/// What reading the value of an `int32` field gives: the low 32 bits of
/// the varint, and the number of bytes read. The field must be a varint.
pub open spec fn parse_int32_value(wire: u8, bytes: Seq<u8>) -> Option<(i32, nat)> {
    if wire != WIRE_VARINT {
        None
    } else {
        match parse_varint(bytes) {
            Some((value, len)) => Some((value as i32, len)),
            None => None,
        }
    }
}

/// The encoding of a field that holds an embedded message, given the
/// encoding of that message.
pub open spec fn message_field_bytes(tag: u32, payload: Seq<u8>) -> Seq<u8> {
    key_bytes(tag, WIRE_LENGTH_DELIMITED) + length_delimited_bytes(payload)
}

/// What reading the value of an embedded-message field gives: the bytes
/// of the embedded message and the number of bytes read. The field must
/// be length-delimited.
pub open spec fn parse_message_value(wire: u8, bytes: Seq<u8>) -> Option<(Seq<u8>, nat)> {
    if wire != WIRE_LENGTH_DELIMITED {
        None
    } else {
        parse_length_delimited(bytes)
    }
}

/// The number of bytes that `prost::encoding::skip_field` passes over when
/// it skips the value of field `tag` with wire type `wire` at the front of
/// `bytes`; `None` where it reports an error. A group is skipped up to and
/// with its end.
pub uninterp spec fn skipped_field(wire: u8, tag: u32, bytes: Seq<u8>) -> Option<nat>;

/// What reading one field's value does to the message read so far, of
/// type `T`: given that message, the field's number and wire type and the
/// bytes behind the field's key, the message with the field merged in and
/// the number of bytes read, or `None` where the field is malformed.
pub type FieldReader<T> = spec_fn(T, u32, u8, Seq<u8>) -> Option<(T, nat)>;

/// A message body read field by field: starting from `message`, each
/// field of `bytes` in turn is merged in by `field`. `None` where a key
/// or a field is malformed or a field runs past the end of `bytes`.
pub open spec fn fold_fields<T>(bytes: Seq<u8>, message: T, field: FieldReader<T>) -> Option<T>
    decreases bytes.len(),
{
    if bytes.len() == 0 {
        Some(message)
    } else {
        match parse_key(bytes) {
            Some((tag, wire, key_len)) => {
                let body = bytes.skip(key_len as int);
                match field(message, tag, wire, body) {
                    Some((merged, len)) => if len <= body.len() {
                        proof {
                            lemma_leb128_length(bytes);
                        }
                        fold_fields(body.skip(len as int), merged, field)
                    } else {
                        None
                    },
                    None => None,
                }
            },
            None => None,
        }
    }
}

/// What skipping an unknown field does: the message stays as it is.
pub open spec fn skip_unknown<T>(message: T, tag: u32, wire: u8, body: Seq<u8>) -> Option<
    (T, nat),
> {
    match skipped_field(wire, tag, body) {
        Some(len) => Some((message, len)),
        None => None,
    }
}

/// Whether a decoder that found `parsed` at the front of `bytes` may hand
/// back `value` and, as `rest`, the bytes behind what it read.
pub open spec fn reads<T>(
    parsed: Option<(T, nat)>,
    bytes: Seq<u8>,
    value: T,
    rest: Seq<u8>,
) -> bool {
    match parsed {
        Some((v, len)) => v == value && len <= bytes.len() && rest == bytes.skip(len as int),
        None => false,
    }
}

/// Calls `prost::encoding::encode_varint`, which appends the LEB128
/// encoding of `value` to the buffer.
#[verifier::external_body]
fn put_varint(value: u64, buf: &mut Vec<u8>)
    ensures
        final(buf)@ == old(buf)@ + varint_bytes(value as nat),
{
    prost::encoding::encode_varint(value, buf)
}

/// Calls `prost::encoding::decode_varint` on the front of `bytes`. It
/// succeeds exactly where a LEB128 encoding of at most ten bytes whose
/// value fits in 64 bits stands there, and hands back that value with the
/// bytes behind the encoding.
#[verifier::external_body]
fn take_varint<'a>(bytes: &'a [u8]) -> (r: Result<(u64, &'a [u8]), prost::DecodeError>)
    ensures
        match r {
            Ok((value, rest)) => reads(parse_varint(bytes@), bytes@, value, rest@),
            Err(_) => parse_varint(bytes@) is None,
        },
{
    let mut buf = bytes;
    let value = prost::encoding::decode_varint(&mut buf)?;
    Ok((value, buf))
}

/// Calls `prost::encoding::skip_field`, with a fresh decoding context, on
/// the front of `bytes`, where the value of field `tag` with wire type
/// `wire` begins. What it hands back are the bytes behind that value, a
/// suffix of `bytes`; the length of the value has the name
/// `skipped_field`.
#[verifier::external_body]
fn skip_value<'a>(wire: u8, tag: u32, bytes: &'a [u8]) -> (r: Result<&'a [u8], prost::DecodeError>)
    requires
        wire <= MAX_WIRE_TYPE,
    ensures
        match r {
            Ok(rest) => skipped_field(wire, tag, bytes@) matches Some(len) && len <= bytes@.len()
                && rest@ == bytes@.skip(len as int),
            Err(_) => skipped_field(wire, tag, bytes@) is None,
        },
{
    let wire_type = prost::encoding::WireType::try_from(u64::from(wire))?;
    let ctx = prost::encoding::DecodeContext::default();
    let mut buf = bytes;
    prost::encoding::skip_field(wire_type, tag, &mut buf, ctx)?;
    Ok(buf)
}

/// Calls `std::str::from_utf8`, which accepts exactly the byte sequences
/// that are UTF-8 and hands them back as text.
#[verifier::external_body]
fn utf8_text<'a>(bytes: &'a [u8]) -> (r: Option<&'a str>)
    ensures
        match r {
            Some(text) => valid_utf8(bytes@) && text.spec_bytes() == bytes@,
            None => !valid_utf8(bytes@),
        },
{
    match std::str::from_utf8(bytes) {
        Ok(text) => Some(text),
        Err(_) => None,
    }
}

/// Appends the key of field `tag` with wire type `wire`.
pub(crate) fn put_key(tag: u32, wire: u8, buf: &mut Vec<u8>)
    ensures
        final(buf)@ == old(buf)@ + key_bytes(tag, wire),
{
    let key: u64 = (tag as u64) * 8 + (wire as u64);
    put_varint(key, buf);
}

/// Reads a field key from the front of `bytes`.
pub(crate) fn take_key<'a>(bytes: &'a [u8]) -> (r: Result<(u32, u8, &'a [u8]), Malformed>)
    ensures
        match r {
            Ok((tag, wire, rest)) => parse_key(bytes@) matches Some((t, w, len)) && t == tag && w
                == wire && w <= MAX_WIRE_TYPE && 1 <= len <= bytes@.len() && rest@
                == bytes@.skip(len as int),
            Err(_) => parse_key(bytes@) is None,
        },
{
    proof {
        lemma_leb128_length(bytes@);
    }
    match take_varint(bytes) {
        Ok((key, rest)) => {
            if key > u32::MAX as u64 || key % 8 > MAX_WIRE_TYPE as u64 || key / 8 < 1 {
                Err(Malformed {})
            } else {
                Ok(((key / 8) as u32, (key % 8) as u8, rest))
            }
        },
        Err(_) => Err(Malformed {}),
    }
}

/// Appends `payload` behind its length.
pub(crate) fn put_length_delimited(payload: &[u8], buf: &mut Vec<u8>)
    ensures
        final(buf)@ == old(buf)@ + length_delimited_bytes(payload@),
{
    put_varint(payload.len() as u64, buf);
    buf.extend_from_slice(payload);
}

/// Reads a length-delimited value from the front of `bytes`: the payload,
/// then the bytes behind it.
pub(crate) fn take_length_delimited<'a>(bytes: &'a [u8]) -> (r: Result<
    (&'a [u8], &'a [u8]),
    Malformed,
>)
    ensures
        match r {
            Ok((payload, rest)) => reads(parse_length_delimited(bytes@), bytes@, payload@, rest@),
            Err(_) => parse_length_delimited(bytes@) is None,
        },
{
    match take_varint(bytes) {
        Ok((size, after)) => {
            if size > after.len() as u64 {
                Err(Malformed {})
            } else {
                let (payload, rest) = after.split_at(size as usize);
                assert(payload@ =~= bytes@.subrange(
                    bytes@.len() - after@.len(),
                    bytes@.len() - after@.len() + size,
                ));
                assert(rest@ =~= bytes@.skip(bytes@.len() - after@.len() + size));
                Ok((payload, rest))
            }
        },
        Err(_) => Err(Malformed {}),
    }
}

/// Appends a `string` field.
pub(crate) fn put_string_field(tag: u32, value: &str, buf: &mut Vec<u8>)
    ensures
        final(buf)@ == old(buf)@ + string_field_bytes(tag, value@),
{
    put_key(tag, WIRE_LENGTH_DELIMITED, buf);
    put_length_delimited(value.as_bytes(), buf);
}

/// Reads the value of a `string` field of wire type `wire`.
pub(crate) fn take_string<'a>(wire: u8, bytes: &'a [u8]) -> (r: Result<
    (String, &'a [u8]),
    Malformed,
>)
    ensures
        match r {
            Ok((value, rest)) => reads(parse_string_value(wire, bytes@), bytes@, value@, rest@),
            Err(_) => parse_string_value(wire, bytes@) is None,
        },
{
    if wire != WIRE_LENGTH_DELIMITED {
        return Err(Malformed {});
    }
    match take_length_delimited(bytes) {
        Ok((payload, rest)) => match utf8_text(payload) {
            Some(text) => {
                proof {
                    vstd::utf8::encode_utf8_decode_utf8(text@);
                }
                Ok((text.to_owned(), rest))
            },
            None => Err(Malformed {}),
        },
        Err(_) => Err(Malformed {}),
    }
}

/// Appends an `int32` field.
pub(crate) fn put_int32_field(tag: u32, value: i32, buf: &mut Vec<u8>)
    ensures
        final(buf)@ == old(buf)@ + int32_field_bytes(tag, value),
{
    put_key(tag, WIRE_VARINT, buf);
    put_varint(value as u64, buf);
}

/// Reads the value of an `int32` field of wire type `wire`.
pub(crate) fn take_int32<'a>(wire: u8, bytes: &'a [u8]) -> (r: Result<(i32, &'a [u8]), Malformed>)
    ensures
        match r {
            Ok((value, rest)) => reads(parse_int32_value(wire, bytes@), bytes@, value, rest@),
            Err(_) => parse_int32_value(wire, bytes@) is None,
        },
{
    if wire != WIRE_VARINT {
        return Err(Malformed {});
    }
    match take_varint(bytes) {
        Ok((value, rest)) => Ok((value as i32, rest)),
        Err(_) => Err(Malformed {}),
    }
}

/// Appends a field that holds the embedded message encoded in `payload`.
pub(crate) fn put_message_field(tag: u32, payload: &[u8], buf: &mut Vec<u8>)
    ensures
        final(buf)@ == old(buf)@ + message_field_bytes(tag, payload@),
{
    put_key(tag, WIRE_LENGTH_DELIMITED, buf);
    put_length_delimited(payload, buf);
}

/// Reads the value of an embedded-message field of wire type `wire`: the
/// bytes of the embedded message, then the bytes behind them.
pub(crate) fn take_message<'a>(wire: u8, bytes: &'a [u8]) -> (r: Result<
    (&'a [u8], &'a [u8]),
    Malformed,
>)
    ensures
        match r {
            Ok((payload, rest)) => reads(
                parse_message_value(wire, bytes@),
                bytes@,
                payload@,
                rest@,
            ),
            Err(_) => parse_message_value(wire, bytes@) is None,
        },
{
    if wire != WIRE_LENGTH_DELIMITED {
        return Err(Malformed {});
    }
    take_length_delimited(bytes)
}

/// Passes over the value of a field that the reader does not know.
pub(crate) fn skip_field<'a>(wire: u8, tag: u32, bytes: &'a [u8]) -> (r: Result<
    &'a [u8],
    Malformed,
>)
    requires
        wire <= MAX_WIRE_TYPE,
    ensures
        match r {
            Ok(rest) => skipped_field(wire, tag, bytes@) matches Some(len) && len <= bytes@.len()
                && rest@ == bytes@.skip(len as int),
            Err(_) => skipped_field(wire, tag, bytes@) is None,
        },
{
    match skip_value(wire, tag, bytes) {
        Ok(rest) => Ok(rest),
        Err(_) => Err(Malformed {}),
    }
}

/// A complete LEB128 encoding is at least one byte long and lies within
/// the bytes it was read from.
pub proof fn lemma_leb128_length(bytes: Seq<u8>)
    ensures
        leb128(bytes) matches Some((_, len)) ==> 1 <= len <= bytes.len(),
    decreases bytes.len(),
{
    if bytes.len() > 0 && bytes[0] >= 128 {
        lemma_leb128_length(bytes.skip(1));
    }
}

/// The LEB128 encoding of a number that fits in 64 bits is at most ten
/// bytes long.
pub proof fn lemma_varint_bytes_length(value: nat)
    ensures
        1 <= varint_bytes(value).len(),
        value < 0x80 ==> varint_bytes(value).len() == 1,
        value <= u64::MAX ==> varint_bytes(value).len() <= 10,
{
    reveal_with_fuel(varint_bytes, 11);
}

/// Reading a varint back: whatever follows it, the LEB128 encoding of a
/// number is read as that number, whole and no further.
pub proof fn lemma_leb128_of_varint_bytes(value: nat, rest: Seq<u8>)
    ensures
        leb128(varint_bytes(value) + rest) == Some((value, varint_bytes(value).len())),
    decreases value,
{
    if value >= 128 {
        let bytes = varint_bytes(value) + rest;
        assert(bytes.skip(1) =~= varint_bytes(value / 128) + rest);
        lemma_leb128_of_varint_bytes(value / 128, rest);
    }
}

/// A 64-bit number written as a varint is read back as itself, whatever
/// follows it.
pub proof fn lemma_varint_round_trip(value: u64, rest: Seq<u8>)
    ensures
        parse_varint(varint_bytes(value as nat) + rest) == Some(
            (value, varint_bytes(value as nat).len()),
        ),
{
    lemma_leb128_of_varint_bytes(value as nat, rest);
    lemma_varint_bytes_length(value as nat);
}

/// A key written for a field number from 1 to `MAX_TAG` and one of the
/// six wire types is read back as that number and wire type, whatever
/// follows it.
pub proof fn lemma_key_round_trip(tag: u32, wire: u8, rest: Seq<u8>)
    requires
        1 <= tag <= MAX_TAG,
        wire <= MAX_WIRE_TYPE,
    ensures
        parse_key(key_bytes(tag, wire) + rest) == Some((tag, wire, key_bytes(tag, wire).len())),
{
    lemma_varint_round_trip((tag * 8 + wire) as u64, rest);
}

/// A payload written behind its length is read back whole, whatever
/// follows it.
pub proof fn lemma_length_delimited_round_trip(payload: Seq<u8>, rest: Seq<u8>)
    requires
        payload.len() <= u64::MAX,
    ensures
        parse_length_delimited(length_delimited_bytes(payload) + rest) == Some(
            (payload, length_delimited_bytes(payload).len()),
        ),
{
    let prefix = varint_bytes(payload.len());
    let bytes = length_delimited_bytes(payload) + rest;
    assert(bytes =~= prefix + (payload + rest));
    lemma_varint_round_trip(payload.len() as u64, payload + rest);
}

/// Reading a message whose first field is known: where `bytes` is the key
/// of field `tag`, then a value that `field` reads as `len` bytes long,
/// then `rest`, the message read from `bytes` is the one read from `rest`
/// after that field has been merged in.
pub proof fn lemma_fold_first_field<T>(
    bytes: Seq<u8>,
    message: T,
    field: FieldReader<T>,
    tag: u32,
    wire: u8,
    value: Seq<u8>,
    rest: Seq<u8>,
    merged: T,
)
    requires
        1 <= tag <= MAX_TAG,
        wire <= MAX_WIRE_TYPE,
        bytes == key_bytes(tag, wire) + value + rest,
        field(message, tag, wire, value + rest) == Some((merged, value.len())),
    ensures
        fold_fields(bytes, message, field) == fold_fields(rest, merged, field),
{
    let key = key_bytes(tag, wire);
    assert(bytes =~= key + (value + rest));
    lemma_key_round_trip(tag, wire, value + rest);
    lemma_varint_bytes_length((tag * 8 + wire) as nat);
    assert(bytes.skip(key.len() as int) =~= value + rest);
    assert((value + rest).skip(value.len() as int) =~= rest);
}

} // verus!
