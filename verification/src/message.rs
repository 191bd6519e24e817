//! The messages that clients and the server exchange, and their encoding.
//!
//! A client sends a `ClientMessage`, which holds an `EchoMessage` or an
//! `AddRequest`; the server answers with a `ServerMessage`, which holds an
//! `EchoMessage` or an `AddResponse`. On the wire each is a Protocol
//! Buffers message: the fields in any order, unknown fields passed over,
//! and of a field that occurs more than once the last occurrence merged
//! over the earlier ones.
use crate::wire::{
    fold_fields, int32_field_bytes, lemma_fold_first_field, lemma_length_delimited_round_trip,
    lemma_varint_bytes_length, lemma_varint_round_trip, parse_int32_value, parse_string_value,
    put_int32_field, put_string_field, skip_field, skip_unknown, string_field_bytes, take_int32,
    take_key, take_string, varint_bytes, Malformed, WIRE_LENGTH_DELIMITED, WIRE_VARINT,
};
use vstd::prelude::*;
use vstd::utf8::{encode_utf8, encode_utf8_decode_utf8, encode_utf8_valid_utf8};

pub mod client_message;
pub mod server_message;

pub use client_message::ClientMessage;
pub use server_message::ServerMessage;

verus! {

/// A text to be sent back as it came.
#[derive(Clone, Debug, PartialEq, Eq)]
pub struct EchoMessage {
    pub content: String,
}

impl View for EchoMessage {
    type V = Seq<char>;

    open spec fn view(&self) -> Seq<char> {
        self.content@
    }
}

impl Default for EchoMessage {
    fn default() -> (message: EchoMessage)
        ensures
            message@ == Seq::<char>::empty(),
    {
        EchoMessage { content: String::new() }
    }
}

/// The encoding of an `EchoMessage` with the given content: field 1, left
/// out where the content is empty.
pub open spec fn echo_message_bytes(content: Seq<char>) -> Seq<u8> {
    if content.len() == 0 {
        Seq::empty()
    } else {
        string_field_bytes(1, content)
    }
}

/// One field read into an `EchoMessage`: field 1 replaces the content,
/// any other field is passed over.
pub open spec fn echo_message_field(
    content: Seq<char>,
    tag: u32,
    wire: u8,
    body: Seq<u8>,
) -> Option<(Seq<char>, nat)> {
    if tag == 1 {
        parse_string_value(wire, body)
    } else {
        skip_unknown(content, tag, wire, body)
    }
}

/// The content of the `EchoMessage` that `bytes` merge into one whose
/// content was `content`; `None` where `bytes` are malformed.
pub open spec fn merged_echo_message(bytes: Seq<u8>, content: Seq<char>) -> Option<Seq<char>> {
    fold_fields(
        bytes,
        content,
        |c: Seq<char>, tag: u32, wire: u8, body: Seq<u8>| echo_message_field(c, tag, wire, body),
    )
}

/// The content of the `EchoMessage` that `bytes` encode; `None` where
/// they are malformed.
pub open spec fn decoded_echo_message(bytes: Seq<u8>) -> Option<Seq<char>> {
    merged_echo_message(bytes, Seq::empty())
}

impl EchoMessage {
    /// The encoding of the message.
    pub fn encode_to_vec(&self) -> (out: Vec<u8>)
        ensures
            out@ == echo_message_bytes(self@),
    {
        let mut out: Vec<u8> = Vec::new();
        if !self.content.as_str().is_empty() {
            put_string_field(1, self.content.as_str(), &mut out);
        }
        out
    }

    /// Merges the message that `bytes` encode into this one.
    pub(crate) fn merged(self, bytes: &[u8]) -> (r: Result<EchoMessage, Malformed>)
        ensures
            match r {
                Ok(message) => merged_echo_message(bytes@, self@) == Some(message@),
                Err(_) => merged_echo_message(bytes@, self@) is None,
            },
    {
        let mut content = self.content;
        let mut rest = bytes;
        while rest.len() > 0
            invariant
                merged_echo_message(rest@, content@) == merged_echo_message(bytes@, self@),
            decreases rest.len(),
        {
            match take_key(rest) {
                Ok((tag, wire, body)) => {
                    if tag == 1 {
                        match take_string(wire, body) {
                            Ok((value, after)) => {
                                content = value;
                                rest = after;
                            },
                            Err(e) => {
                                return Err(e);
                            },
                        }
                    } else {
                        match skip_field(wire, tag, body) {
                            Ok(after) => {
                                rest = after;
                            },
                            Err(e) => {
                                return Err(e);
                            },
                        }
                    }
                },
                Err(e) => {
                    return Err(e);
                },
            }
        }
        Ok(EchoMessage { content })
    }

    /// Decodes a message from `bytes`, all of them.
    pub fn decode(bytes: &[u8]) -> (r: Result<EchoMessage, Malformed>)
        ensures
            match r {
                Ok(message) => decoded_echo_message(bytes@) == Some(message@),
                Err(_) => decoded_echo_message(bytes@) is None,
            },
    {
        EchoMessage::default().merged(bytes)
    }
}

/// An `EchoMessage` is decoded from its encoding as it was.
pub proof fn lemma_echo_message_round_trip(content: Seq<char>)
    requires
        encode_utf8(content).len() <= u64::MAX,
    ensures
        decoded_echo_message(echo_message_bytes(content)) == Some(content),
{
    if content.len() > 0 {
        let text = encode_utf8(content);
        let value = varint_bytes(text.len()) + text;
        let none = Seq::<u8>::empty();
        lemma_length_delimited_round_trip(text, none);
        encode_utf8_valid_utf8(content);
        encode_utf8_decode_utf8(content);
        lemma_fold_first_field(
            echo_message_bytes(content),
            Seq::<char>::empty(),
            |c: Seq<char>, tag: u32, wire: u8, body: Seq<u8>|
                echo_message_field(c, tag, wire, body),
            1,
            WIRE_LENGTH_DELIMITED,
            value,
            none,
            content,
        );
    }
}

/// Two numbers to be added.
#[derive(Clone, Copy, Debug, PartialEq, Eq)]
pub struct AddRequest {
    pub a: i32,
    pub b: i32,
}

impl Default for AddRequest {
    fn default() -> (message: AddRequest)
        ensures
            message == (AddRequest { a: 0, b: 0 }),
    {
        AddRequest { a: 0, b: 0 }
    }
}

/// The encoding of an `int32` field that is left out where it is 0.
pub open spec fn optional_int32_bytes(tag: u32, value: i32) -> Seq<u8> {
    if value == 0 {
        Seq::empty()
    } else {
        int32_field_bytes(tag, value)
    }
}

/// The encoding of an `AddRequest`: `a` is field 1, `b` is field 2.
pub open spec fn add_request_bytes(message: AddRequest) -> Seq<u8> {
    optional_int32_bytes(1, message.a) + optional_int32_bytes(2, message.b)
}

/// One field read into an `AddRequest`: field 1 replaces `a`, field 2
/// replaces `b`, any other field is passed over.
pub open spec fn add_request_field(
    message: AddRequest,
    tag: u32,
    wire: u8,
    body: Seq<u8>,
) -> Option<(AddRequest, nat)> {
    if tag == 1 {
        match parse_int32_value(wire, body) {
            Some((a, len)) => Some((AddRequest { a, b: message.b }, len)),
            None => None,
        }
    } else if tag == 2 {
        match parse_int32_value(wire, body) {
            Some((b, len)) => Some((AddRequest { a: message.a, b }, len)),
            None => None,
        }
    } else {
        skip_unknown(message, tag, wire, body)
    }
}

/// The `AddRequest` that `bytes` merge into `message`; `None` where
/// `bytes` are malformed.
pub open spec fn merged_add_request(bytes: Seq<u8>, message: AddRequest) -> Option<AddRequest> {
    fold_fields(
        bytes,
        message,
        |m: AddRequest, tag: u32, wire: u8, body: Seq<u8>| add_request_field(m, tag, wire, body),
    )
}

/// The `AddRequest` that `bytes` encode; `None` where they are malformed.
pub open spec fn decoded_add_request(bytes: Seq<u8>) -> Option<AddRequest> {
    merged_add_request(bytes, AddRequest { a: 0, b: 0 })
}

impl AddRequest {
    /// The encoding of the message.
    pub fn encode_to_vec(&self) -> (out: Vec<u8>)
        ensures
            out@ == add_request_bytes(*self),
    {
        let mut out: Vec<u8> = Vec::new();
        if self.a != 0 {
            put_int32_field(1, self.a, &mut out);
        }
        if self.b != 0 {
            put_int32_field(2, self.b, &mut out);
        }
        out
    }

    /// Merges the message that `bytes` encode into this one.
    pub(crate) fn merged(self, bytes: &[u8]) -> (r: Result<AddRequest, Malformed>)
        ensures
            match r {
                Ok(message) => merged_add_request(bytes@, self) == Some(message),
                Err(_) => merged_add_request(bytes@, self) is None,
            },
    {
        let mut message = self;
        let mut rest = bytes;
        while rest.len() > 0
            invariant
                merged_add_request(rest@, message) == merged_add_request(bytes@, self),
            decreases rest.len(),
        {
            match take_key(rest) {
                Ok((tag, wire, body)) => {
                    if tag == 1 || tag == 2 {
                        match take_int32(wire, body) {
                            Ok((value, after)) => {
                                if tag == 1 {
                                    message = AddRequest { a: value, b: message.b };
                                } else {
                                    message = AddRequest { a: message.a, b: value };
                                }
                                rest = after;
                            },
                            Err(e) => {
                                return Err(e);
                            },
                        }
                    } else {
                        match skip_field(wire, tag, body) {
                            Ok(after) => {
                                rest = after;
                            },
                            Err(e) => {
                                return Err(e);
                            },
                        }
                    }
                },
                Err(e) => {
                    return Err(e);
                },
            }
        }
        Ok(message)
    }

    /// Decodes a message from `bytes`, all of them.
    pub fn decode(bytes: &[u8]) -> (r: Result<AddRequest, Malformed>)
        ensures
            match r {
                Ok(message) => decoded_add_request(bytes@) == Some(message),
                Err(_) => decoded_add_request(bytes@) is None,
            },
    {
        AddRequest::default().merged(bytes)
    }
}

/// An `int32` written as a varint is read back as itself.
pub proof fn lemma_int32_round_trip(value: i32, rest: Seq<u8>)
    ensures
        parse_int32_value(WIRE_VARINT, varint_bytes((value as u64) as nat) + rest) == Some(
            (value, varint_bytes((value as u64) as nat).len()),
        ),
{
    assert((value as u64) as i32 == value) by (bit_vector);
    lemma_varint_round_trip(value as u64, rest);
}

/// An `int32` field is at most twenty bytes long.
pub proof fn lemma_int32_field_length(tag: u32, value: i32)
    ensures
        optional_int32_bytes(tag, value).len() <= 20,
{
    lemma_varint_bytes_length((tag * 8 + WIRE_VARINT) as nat);
    lemma_varint_bytes_length((value as u64) as nat);
}

/// An encoded `AddRequest` is at most forty bytes long.
pub proof fn lemma_add_request_length(message: AddRequest)
    ensures
        add_request_bytes(message).len() <= 40,
{
    lemma_int32_field_length(1, message.a);
    lemma_int32_field_length(2, message.b);
}

/// An `AddRequest` is decoded from its encoding as it was.
pub proof fn lemma_add_request_round_trip(message: AddRequest)
    ensures
        decoded_add_request(add_request_bytes(message)) == Some(message),
{
    let field = |m: AddRequest, tag: u32, wire: u8, body: Seq<u8>|
        add_request_field(m, tag, wire, body);
    let none = Seq::<u8>::empty();
    let zero = AddRequest { a: 0, b: 0 };
    let first = optional_int32_bytes(1, message.a);
    let second = optional_int32_bytes(2, message.b);
    let half = AddRequest { a: message.a, b: 0 };
    assert(fold_fields(second, half, field) == Some(message)) by {
        if message.b != 0 {
            let value = varint_bytes((message.b as u64) as nat);
            lemma_int32_round_trip(message.b, none);
            lemma_fold_first_field(second, half, field, 2, WIRE_VARINT, value, none, message);
        }
    }
    if message.a != 0 {
        let value = varint_bytes((message.a as u64) as nat);
        lemma_int32_round_trip(message.a, second);
        lemma_fold_first_field(first + second, zero, field, 1, WIRE_VARINT, value, second, half);
    }
}

/// The sum of the two numbers of an `AddRequest`.
#[derive(Clone, Copy, Debug, PartialEq, Eq)]
pub struct AddResponse {
    pub result: i32,
}

impl Default for AddResponse {
    fn default() -> (message: AddResponse)
        ensures
            message == (AddResponse { result: 0 }),
    {
        AddResponse { result: 0 }
    }
}

/// The encoding of an `AddResponse`: `result` is field 1.
pub open spec fn add_response_bytes(message: AddResponse) -> Seq<u8> {
    optional_int32_bytes(1, message.result)
}

/// One field read into an `AddResponse`: field 1 replaces `result`, any
/// other field is passed over.
pub open spec fn add_response_field(
    message: AddResponse,
    tag: u32,
    wire: u8,
    body: Seq<u8>,
) -> Option<(AddResponse, nat)> {
    if tag == 1 {
        match parse_int32_value(wire, body) {
            Some((result, len)) => Some((AddResponse { result }, len)),
            None => None,
        }
    } else {
        skip_unknown(message, tag, wire, body)
    }
}

/// The `AddResponse` that `bytes` merge into `message`; `None` where
/// `bytes` are malformed.
pub open spec fn merged_add_response(bytes: Seq<u8>, message: AddResponse) -> Option<AddResponse> {
    fold_fields(
        bytes,
        message,
        |m: AddResponse, tag: u32, wire: u8, body: Seq<u8>| add_response_field(m, tag, wire, body),
    )
}

/// The `AddResponse` that `bytes` encode; `None` where they are malformed.
pub open spec fn decoded_add_response(bytes: Seq<u8>) -> Option<AddResponse> {
    merged_add_response(bytes, AddResponse { result: 0 })
}

impl AddResponse {
    /// The encoding of the message.
    pub fn encode_to_vec(&self) -> (out: Vec<u8>)
        ensures
            out@ == add_response_bytes(*self),
    {
        let mut out: Vec<u8> = Vec::new();
        if self.result != 0 {
            put_int32_field(1, self.result, &mut out);
        }
        out
    }

    /// Merges the message that `bytes` encode into this one.
    pub(crate) fn merged(self, bytes: &[u8]) -> (r: Result<AddResponse, Malformed>)
        ensures
            match r {
                Ok(message) => merged_add_response(bytes@, self) == Some(message),
                Err(_) => merged_add_response(bytes@, self) is None,
            },
    {
        let mut message = self;
        let mut rest = bytes;
        while rest.len() > 0
            invariant
                merged_add_response(rest@, message) == merged_add_response(bytes@, self),
            decreases rest.len(),
        {
            match take_key(rest) {
                Ok((tag, wire, body)) => {
                    if tag == 1 {
                        match take_int32(wire, body) {
                            Ok((value, after)) => {
                                message = AddResponse { result: value };
                                rest = after;
                            },
                            Err(e) => {
                                return Err(e);
                            },
                        }
                    } else {
                        match skip_field(wire, tag, body) {
                            Ok(after) => {
                                rest = after;
                            },
                            Err(e) => {
                                return Err(e);
                            },
                        }
                    }
                },
                Err(e) => {
                    return Err(e);
                },
            }
        }
        Ok(message)
    }

    /// Decodes a message from `bytes`, all of them.
    pub fn decode(bytes: &[u8]) -> (r: Result<AddResponse, Malformed>)
        ensures
            match r {
                Ok(message) => decoded_add_response(bytes@) == Some(message),
                Err(_) => decoded_add_response(bytes@) is None,
            },
    {
        AddResponse::default().merged(bytes)
    }
}

/// An encoded `AddResponse` is at most twenty bytes long.
pub proof fn lemma_add_response_length(message: AddResponse)
    ensures
        add_response_bytes(message).len() <= 20,
{
    lemma_int32_field_length(1, message.result);
}

/// An `AddResponse` is decoded from its encoding as it was.
pub proof fn lemma_add_response_round_trip(message: AddResponse)
    ensures
        decoded_add_response(add_response_bytes(message)) == Some(message),
{
    if message.result != 0 {
        let value = varint_bytes((message.result as u64) as nat);
        let none = Seq::<u8>::empty();
        lemma_int32_round_trip(message.result, none);
        lemma_fold_first_field(
            add_response_bytes(message),
            AddResponse { result: 0 },
            |m: AddResponse, tag: u32, wire: u8, body: Seq<u8>|
                add_response_field(m, tag, wire, body),
            1,
            WIRE_VARINT,
            value,
            none,
            message,
        );
    }
}

} // verus!
