//! What a client sends: a `ClientMessage`, which holds one request or
//! none.
use crate::message::{
    add_request_bytes, echo_message_bytes, lemma_add_request_length,
    lemma_add_request_round_trip, lemma_echo_message_round_trip, merged_add_request,
    merged_echo_message, AddRequest, EchoMessage,
};
use crate::wire::{
    fold_fields, lemma_fold_first_field, lemma_length_delimited_round_trip, length_delimited_bytes,
    message_field_bytes, parse_message_value, put_message_field, skip_field, skip_unknown,
    take_key, take_message, Malformed, WIRE_LENGTH_DELIMITED,
};
use vstd::prelude::*;

verus! {

/// A request: field 1 of a `ClientMessage` holds an `EchoMessage`, field 2
/// an `AddRequest`, and the message holds one of the two at most.
#[derive(Clone, Debug, PartialEq, Eq)]
pub enum Message {
    EchoMessage(EchoMessage),
    AddRequest(AddRequest),
}

/// What a request says: the content to echo, or the numbers to add.
pub enum Request {
    EchoMessage(Seq<char>),
    AddRequest(AddRequest),
}

impl View for Message {
    type V = Request;

    open spec fn view(&self) -> Request {
        match self {
            Message::EchoMessage(message) => Request::EchoMessage(message@),
            Message::AddRequest(message) => Request::AddRequest(*message),
        }
    }
}

/// The encoding of a request: the field of its kind, holding the encoded
/// message.
pub open spec fn request_bytes(request: Request) -> Seq<u8> {
    match request {
        Request::EchoMessage(content) => message_field_bytes(1, echo_message_bytes(content)),
        Request::AddRequest(message) => message_field_bytes(2, add_request_bytes(message)),
    }
}

impl Message {
    /// Appends the encoding of the request to `buf`.
    pub fn encode(&self, buf: &mut Vec<u8>)
        ensures
            final(buf)@ == old(buf)@ + request_bytes(self@),
    {
        match self {
            Message::EchoMessage(message) => {
                let payload = message.encode_to_vec();
                put_message_field(1, payload.as_slice(), buf);
            },
            Message::AddRequest(message) => {
                let payload = message.encode_to_vec();
                put_message_field(2, payload.as_slice(), buf);
            },
        }
    }
}

/// What a client sends.
#[derive(Clone, Debug, PartialEq, Eq)]
pub struct ClientMessage {
    pub message: Option<Message>,
}

impl View for ClientMessage {
    type V = Option<Request>;

    open spec fn view(&self) -> Option<Request> {
        match self.message {
            Some(message) => Some(message@),
            None => None,
        }
    }
}

impl Default for ClientMessage {
    fn default() -> (message: ClientMessage)
        ensures
            message@ is None,
    {
        ClientMessage { message: None }
    }
}

/// The encoding of a `ClientMessage`: that of its request, or nothing.
pub open spec fn client_message_bytes(message: Option<Request>) -> Seq<u8> {
    match message {
        Some(request) => request_bytes(request),
        None => Seq::empty(),
    }
}

/// One field read into a `ClientMessage`. Field 1 or 2 makes the request
/// one of that field's kind: the embedded message is merged into the
/// request so far where that is of the same kind, and into an empty
/// message where it is not. Any other field is passed over.
pub open spec fn client_message_field(
    message: Option<Request>,
    tag: u32,
    wire: u8,
    body: Seq<u8>,
) -> Option<(Option<Request>, nat)> {
    if tag == 1 {
        let so_far = match message {
            Some(Request::EchoMessage(content)) => content,
            _ => Seq::empty(),
        };
        match parse_message_value(wire, body) {
            Some((payload, len)) => match merged_echo_message(payload, so_far) {
                Some(content) => Some((Some(Request::EchoMessage(content)), len)),
                None => None,
            },
            None => None,
        }
    } else if tag == 2 {
        let so_far = match message {
            Some(Request::AddRequest(request)) => request,
            _ => AddRequest { a: 0, b: 0 },
        };
        match parse_message_value(wire, body) {
            Some((payload, len)) => match merged_add_request(payload, so_far) {
                Some(request) => Some((Some(Request::AddRequest(request)), len)),
                None => None,
            },
            None => None,
        }
    } else {
        skip_unknown(message, tag, wire, body)
    }
}

/// The `ClientMessage` that `bytes` merge into `message`; `None` where
/// `bytes` are malformed.
pub open spec fn merged_client_message(bytes: Seq<u8>, message: Option<Request>) -> Option<
    Option<Request>,
> {
    fold_fields(
        bytes,
        message,
        |m: Option<Request>, tag: u32, wire: u8, body: Seq<u8>|
            client_message_field(m, tag, wire, body),
    )
}

/// The `ClientMessage` that `bytes` encode; `None` where they are
/// malformed.
pub open spec fn decoded_client_message(bytes: Seq<u8>) -> Option<Option<Request>> {
    merged_client_message(bytes, None)
}

/// Whether every length in the encoding of `message` fits in 64 bits, as
/// it does for every message that memory can hold.
pub open spec fn client_message_fits(message: Option<Request>) -> bool {
    match message {
        Some(Request::EchoMessage(content)) => echo_message_bytes(content).len() <= u64::MAX,
        _ => true,
    }
}

impl ClientMessage {
    /// The encoding of the message.
    pub fn encode_to_vec(&self) -> (out: Vec<u8>)
        ensures
            out@ == client_message_bytes(self@),
    {
        let mut out: Vec<u8> = Vec::new();
        match &self.message {
            Some(message) => {
                message.encode(&mut out);
            },
            None => {},
        }
        out
    }

    /// Decodes a message from `bytes`, all of them.
    pub fn decode(bytes: &[u8]) -> (r: Result<ClientMessage, Malformed>)
        ensures
            match r {
                Ok(message) => decoded_client_message(bytes@) == Some(message@),
                Err(_) => decoded_client_message(bytes@) is None,
            },
    {
        let mut message = ClientMessage { message: None };
        let mut rest = bytes;
        while rest.len() > 0
            invariant
                merged_client_message(rest@, message@) == decoded_client_message(bytes@),
            decreases rest.len(),
        {
            match take_key(rest) {
                Ok((tag, wire, body)) => {
                    if tag == 1 {
                        match take_message(wire, body) {
                            Ok((payload, after)) => {
                                let so_far = match message.message {
                                    Some(Message::EchoMessage(echo)) => echo,
                                    _ => EchoMessage::default(),
                                };
                                match so_far.merged(payload) {
                                    Ok(echo) => {
                                        message = ClientMessage {
                                            message: Some(Message::EchoMessage(echo)),
                                        };
                                        rest = after;
                                    },
                                    Err(e) => {
                                        return Err(e);
                                    },
                                }
                            },
                            Err(e) => {
                                return Err(e);
                            },
                        }
                    } else if tag == 2 {
                        match take_message(wire, body) {
                            Ok((payload, after)) => {
                                let so_far = match message.message {
                                    Some(Message::AddRequest(request)) => request,
                                    _ => AddRequest::default(),
                                };
                                match so_far.merged(payload) {
                                    Ok(request) => {
                                        message = ClientMessage {
                                            message: Some(Message::AddRequest(request)),
                                        };
                                        rest = after;
                                    },
                                    Err(e) => {
                                        return Err(e);
                                    },
                                }
                            },
                            Err(e) => {
                                return Err(e);
                            },
                        }
                    } else {
                        match skip_field(wire, tag, body) {
                            Ok(after) => {
                                rest = after;
                            },
                            Err(e) => {
                                return Err(e);
                            },
                        }
                    }
                },
                Err(e) => {
                    return Err(e);
                },
            }
        }
        Ok(message)
    }
}

/// A `ClientMessage` is decoded from its encoding as it was.
pub proof fn lemma_client_message_round_trip(message: Option<Request>)
    requires
        client_message_fits(message),
    ensures
        decoded_client_message(client_message_bytes(message)) == Some(message),
{
    let field = |m: Option<Request>, tag: u32, wire: u8, body: Seq<u8>|
        client_message_field(m, tag, wire, body);
    let none = Seq::<u8>::empty();
    match message {
        Some(Request::EchoMessage(content)) => {
            let payload = echo_message_bytes(content);
            let value = length_delimited_bytes(payload);
            lemma_echo_message_round_trip(content);
            lemma_length_delimited_round_trip(payload, none);
            lemma_fold_first_field(
                client_message_bytes(message),
                None,
                field,
                1,
                WIRE_LENGTH_DELIMITED,
                value,
                none,
                message,
            );
        },
        Some(Request::AddRequest(request)) => {
            let payload = add_request_bytes(request);
            let value = length_delimited_bytes(payload);
            lemma_add_request_length(request);
            lemma_add_request_round_trip(request);
            lemma_length_delimited_round_trip(payload, none);
            lemma_fold_first_field(
                client_message_bytes(message),
                None,
                field,
                2,
                WIRE_LENGTH_DELIMITED,
                value,
                none,
                message,
            );
        },
        None => {},
    }
}

} // verus!
