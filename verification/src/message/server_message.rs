//! What the server sends: a `ServerMessage`, which holds one response or
//! none.
use crate::message::{
    add_response_bytes, echo_message_bytes, lemma_add_response_length,
    lemma_add_response_round_trip, lemma_echo_message_round_trip, merged_add_response,
    merged_echo_message, AddResponse, EchoMessage,
};
use crate::wire::{
    fold_fields, lemma_fold_first_field, lemma_length_delimited_round_trip, length_delimited_bytes,
    message_field_bytes, parse_message_value, put_message_field, skip_field, skip_unknown,
    take_key, take_message, Malformed, WIRE_LENGTH_DELIMITED,
};
use vstd::prelude::*;

verus! {

/// A response: field 1 of a `ServerMessage` holds an `EchoMessage`, field
/// 2 an `AddResponse`, and the message holds one of the two at most.
#[derive(Clone, Debug, PartialEq, Eq)]
pub enum Message {
    EchoMessage(EchoMessage),
    AddResponse(AddResponse),
}

/// What a response says: the content echoed, or the sum.
pub enum Response {
    EchoMessage(Seq<char>),
    AddResponse(AddResponse),
}

impl View for Message {
    type V = Response;

    open spec fn view(&self) -> Response {
        match self {
            Message::EchoMessage(message) => Response::EchoMessage(message@),
            Message::AddResponse(message) => Response::AddResponse(*message),
        }
    }
}

/// The encoding of a response: the field of its kind, holding the encoded
/// message.
pub open spec fn response_bytes(response: Response) -> Seq<u8> {
    match response {
        Response::EchoMessage(content) => message_field_bytes(1, echo_message_bytes(content)),
        Response::AddResponse(message) => message_field_bytes(2, add_response_bytes(message)),
    }
}

impl Message {
    /// Appends the encoding of the response to `buf`.
    pub fn encode(&self, buf: &mut Vec<u8>)
        ensures
            final(buf)@ == old(buf)@ + response_bytes(self@),
    {
        match self {
            Message::EchoMessage(message) => {
                let payload = message.encode_to_vec();
                put_message_field(1, payload.as_slice(), buf);
            },
            Message::AddResponse(message) => {
                let payload = message.encode_to_vec();
                put_message_field(2, payload.as_slice(), buf);
            },
        }
    }
}

/// What the server sends.
#[derive(Clone, Debug, PartialEq, Eq)]
pub struct ServerMessage {
    pub message: Option<Message>,
}

impl View for ServerMessage {
    type V = Option<Response>;

    open spec fn view(&self) -> Option<Response> {
        match self.message {
            Some(message) => Some(message@),
            None => None,
        }
    }
}

impl Default for ServerMessage {
    fn default() -> (message: ServerMessage)
        ensures
            message@ is None,
    {
        ServerMessage { message: None }
    }
}

/// The encoding of a `ServerMessage`: that of its response, or nothing.
pub open spec fn server_message_bytes(message: Option<Response>) -> Seq<u8> {
    match message {
        Some(response) => response_bytes(response),
        None => Seq::empty(),
    }
}

/// One field read into a `ServerMessage`. Field 1 or 2 makes the response
/// one of that field's kind: the embedded message is merged into the
/// response so far where that is of the same kind, and into an empty
/// message where it is not. Any other field is passed over.
pub open spec fn server_message_field(
    message: Option<Response>,
    tag: u32,
    wire: u8,
    body: Seq<u8>,
) -> Option<(Option<Response>, nat)> {
    if tag == 1 {
        let so_far = match message {
            Some(Response::EchoMessage(content)) => content,
            _ => Seq::empty(),
        };
        match parse_message_value(wire, body) {
            Some((payload, len)) => match merged_echo_message(payload, so_far) {
                Some(content) => Some((Some(Response::EchoMessage(content)), len)),
                None => None,
            },
            None => None,
        }
    } else if tag == 2 {
        let so_far = match message {
            Some(Response::AddResponse(response)) => response,
            _ => AddResponse { result: 0 },
        };
        match parse_message_value(wire, body) {
            Some((payload, len)) => match merged_add_response(payload, so_far) {
                Some(response) => Some((Some(Response::AddResponse(response)), len)),
                None => None,
            },
            None => None,
        }
    } else {
        skip_unknown(message, tag, wire, body)
    }
}

/// The `ServerMessage` that `bytes` merge into `message`; `None` where
/// `bytes` are malformed.
pub open spec fn merged_server_message(bytes: Seq<u8>, message: Option<Response>) -> Option<
    Option<Response>,
> {
    fold_fields(
        bytes,
        message,
        |m: Option<Response>, tag: u32, wire: u8, body: Seq<u8>|
            server_message_field(m, tag, wire, body),
    )
}

/// The `ServerMessage` that `bytes` encode; `None` where they are
/// malformed.
pub open spec fn decoded_server_message(bytes: Seq<u8>) -> Option<Option<Response>> {
    merged_server_message(bytes, None)
}

/// Whether every length in the encoding of `message` fits in 64 bits, as
/// it does for every message that memory can hold.
pub open spec fn server_message_fits(message: Option<Response>) -> bool {
    match message {
        Some(Response::EchoMessage(content)) => echo_message_bytes(content).len() <= u64::MAX,
        _ => true,
    }
}

impl ServerMessage {
    /// The encoding of the message.
    pub fn encode_to_vec(&self) -> (out: Vec<u8>)
        ensures
            out@ == server_message_bytes(self@),
    {
        let mut out: Vec<u8> = Vec::new();
        match &self.message {
            Some(message) => {
                message.encode(&mut out);
            },
            None => {},
        }
        out
    }

    /// Decodes a message from `bytes`, all of them.
    pub fn decode(bytes: &[u8]) -> (r: Result<ServerMessage, Malformed>)
        ensures
            match r {
                Ok(message) => decoded_server_message(bytes@) == Some(message@),
                Err(_) => decoded_server_message(bytes@) is None,
            },
    {
        let mut message = ServerMessage { message: None };
        let mut rest = bytes;
        while rest.len() > 0
            invariant
                merged_server_message(rest@, message@) == decoded_server_message(bytes@),
            decreases rest.len(),
        {
            match take_key(rest) {
                Ok((tag, wire, body)) => {
                    if tag == 1 {
                        match take_message(wire, body) {
                            Ok((payload, after)) => {
                                let so_far = match message.message {
                                    Some(Message::EchoMessage(echo)) => echo,
                                    _ => EchoMessage::default(),
                                };
                                match so_far.merged(payload) {
                                    Ok(echo) => {
                                        message = ServerMessage {
                                            message: Some(Message::EchoMessage(echo)),
                                        };
                                        rest = after;
                                    },
                                    Err(e) => {
                                        return Err(e);
                                    },
                                }
                            },
                            Err(e) => {
                                return Err(e);
                            },
                        }
                    } else if tag == 2 {
                        match take_message(wire, body) {
                            Ok((payload, after)) => {
                                let so_far = match message.message {
                                    Some(Message::AddResponse(response)) => response,
                                    _ => AddResponse::default(),
                                };
                                match so_far.merged(payload) {
                                    Ok(response) => {
                                        message = ServerMessage {
                                            message: Some(Message::AddResponse(response)),
                                        };
                                        rest = after;
                                    },
                                    Err(e) => {
                                        return Err(e);
                                    },
                                }
                            },
                            Err(e) => {
                                return Err(e);
                            },
                        }
                    } else {
                        match skip_field(wire, tag, body) {
                            Ok(after) => {
                                rest = after;
                            },
                            Err(e) => {
                                return Err(e);
                            },
                        }
                    }
                },
                Err(e) => {
                    return Err(e);
                },
            }
        }
        Ok(message)
    }
}

/// A `ServerMessage` is decoded from its encoding as it was.
pub proof fn lemma_server_message_round_trip(message: Option<Response>)
    requires
        server_message_fits(message),
    ensures
        decoded_server_message(server_message_bytes(message)) == Some(message),
{
    let field = |m: Option<Response>, tag: u32, wire: u8, body: Seq<u8>|
        server_message_field(m, tag, wire, body);
    let none = Seq::<u8>::empty();
    match message {
        Some(Response::EchoMessage(content)) => {
            let payload = echo_message_bytes(content);
            let value = length_delimited_bytes(payload);
            lemma_echo_message_round_trip(content);
            lemma_length_delimited_round_trip(payload, none);
            lemma_fold_first_field(
                server_message_bytes(message),
                None,
                field,
                1,
                WIRE_LENGTH_DELIMITED,
                value,
                none,
                message,
            );
        },
        Some(Response::AddResponse(response)) => {
            let payload = add_response_bytes(response);
            let value = length_delimited_bytes(payload);
            lemma_add_response_length(response);
            lemma_add_response_round_trip(response);
            lemma_length_delimited_round_trip(payload, none);
            lemma_fold_first_field(
                server_message_bytes(message),
                None,
                field,
                2,
                WIRE_LENGTH_DELIMITED,
                value,
                none,
                message,
            );
        },
        None => {},
    }
}

} // verus!
