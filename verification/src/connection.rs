//! The handler of one connection: what to do after each read and each
//! write on its socket.
//!
//! The handler owns no socket. Whoever runs it reads and writes as the
//! handler says and reports what came of it: `Client::handle` takes that
//! report and gives the next step.
use crate::message::client_message::{
    client_message_bytes, client_message_fits, decoded_client_message,
    lemma_client_message_round_trip, ClientMessage, Request,
};
use crate::message::server_message::{
    decoded_server_message, lemma_server_message_round_trip, server_message_bytes, Response,
    ServerMessage,
};
use crate::message::{client_message, echo_message_bytes, server_message, AddRequest, AddResponse};
use crate::wire::lemma_varint_bytes_length;
use vstd::prelude::*;

verus! {

/// The largest number of bytes asked of the socket in one read. A request
/// is taken to arrive whole in one read.
pub const READ_BUFFER_SIZE: usize = 4096;

/// The sum of two 32-bit numbers as a 32-bit number: the sum where it
/// fits, and else the sum brought back into range by 2^32.
pub open spec fn wrapped_sum(a: i32, b: i32) -> i32 {
    if a + b > i32::MAX {
        (a + b - 0x1_0000_0000) as i32
    } else if a + b < i32::MIN {
        (a + b + 0x1_0000_0000) as i32
    } else {
        (a + b) as i32
    }
}

/// The response that a request is owed: an echo gets its content back,
/// two numbers get their sum.
pub open spec fn response_to(request: Request) -> Response {
    match request {
        Request::EchoMessage(content) => Response::EchoMessage(content),
        Request::AddRequest(numbers) => Response::AddResponse(
            AddResponse { result: wrapped_sum(numbers.a, numbers.b) },
        ),
    }
}

/// What the handler writes back when one read gives `bytes`: the encoded
/// response to the request that `bytes` encode, or `None` where they
/// encode no request.
pub open spec fn reply(bytes: Seq<u8>) -> Option<Seq<u8>> {
    match decoded_client_message(bytes) {
        Some(Some(request)) => Some(server_message_bytes(Some(response_to(request)))),
        _ => None,
    }
}

/// Computes the response to a request.
pub fn respond(request: client_message::Message) -> (response: server_message::Message)
    ensures
        response@ == response_to(request@),
{
    match request {
        client_message::Message::EchoMessage(echo) => server_message::Message::EchoMessage(echo),
        client_message::Message::AddRequest(numbers) => server_message::Message::AddResponse(
            AddResponse { result: numbers.a.wrapping_add(numbers.b) },
        ),
    }
}

/// What came of the step that the handler asked for last.
#[derive(Debug)]
pub enum Event<'a, E> {
    /// The connection was accepted; nothing has been asked for yet.
    Opened,
    /// A read gave these bytes. None at all means that the peer has shut
    /// its side down in good order.
    Read(&'a [u8]),
    /// A read failed.
    ReadFailed(E),
    /// The response was written in full and flushed.
    Written,
    /// Writing or flushing failed, or the socket took only a part.
    WriteFailed(E),
}

/// What the handler asks for next.
#[derive(Debug, PartialEq, Eq)]
pub enum Step<E> {
    /// Read once, up to this many bytes.
    Read(usize),
    /// Write all of these bytes, then flush.
    Write(Vec<u8>),
    /// Stop: the handler has ended, with this result.
    Finish(Result<(), E>),
}

/// The handler of one connection.
pub struct Client {}

impl Client {
    /// A handler for a connection that was just accepted.
    pub fn new() -> Client {
        Client {}
    }

    /// The next step, given what came of the last one.
    ///
    /// The handler starts with a read of up to `READ_BUFFER_SIZE` bytes,
    /// and reads again after every write. A read that gave no bytes ends
    /// the handler without error, a failed read or write ends it with that
    /// error. Bytes that encode a request are answered with the encoded
    /// response; bytes that do not are dropped, and the handler reads on.
    pub fn handle<E>(&self, event: Event<'_, E>) -> (step: Step<E>)
        ensures
            match event {
                Event::Opened => step == Step::<E>::Read(READ_BUFFER_SIZE),
                Event::Read(bytes) => if bytes@.len() == 0 {
                    step == Step::<E>::Finish(Ok(()))
                } else {
                    match reply(bytes@) {
                        Some(payload) => step matches Step::Write(out) && out@ == payload,
                        None => step == Step::<E>::Read(READ_BUFFER_SIZE),
                    }
                },
                Event::ReadFailed(e) => step == Step::Finish(Err(e)),
                Event::Written => step == Step::<E>::Read(READ_BUFFER_SIZE),
                Event::WriteFailed(e) => step == Step::Finish(Err(e)),
            },
    {
        match event {
            Event::Opened => Step::Read(READ_BUFFER_SIZE),
            Event::Read(bytes) => {
                if bytes.len() == 0 {
                    return Step::Finish(Ok(()));
                }
                match ClientMessage::decode(bytes) {
                    Ok(ClientMessage { message: Some(request) }) => {
                        let response = ServerMessage { message: Some(respond(request)) };
                        Step::Write(response.encode_to_vec())
                    },
                    _ => Step::Read(READ_BUFFER_SIZE),
                }
            },
            Event::ReadFailed(e) => Step::Finish(Err(e)),
            Event::Written => Step::Read(READ_BUFFER_SIZE),
            Event::WriteFailed(e) => Step::Finish(Err(e)),
        }
    }
}

/// What the handler writes over a run of reads, each written in full
/// before the next read: the replies to the reads in their order, up to
/// the first read that gives no bytes, which ends the handler.
pub open spec fn replies(reads: Seq<Seq<u8>>) -> Seq<Seq<u8>>
    decreases reads.len(),
{
    if reads.len() == 0 || reads[0].len() == 0 {
        Seq::empty()
    } else {
        match reply(reads[0]) {
            Some(payload) => seq![payload] + replies(reads.skip(1)),
            None => replies(reads.skip(1)),
        }
    }
}

/// The requests that ask for each of `contents` to be echoed, encoded.
pub open spec fn echo_requests(contents: Seq<Seq<char>>) -> Seq<Seq<u8>> {
    Seq::new(contents.len(), |i: int| client_message_bytes(Some(Request::EchoMessage(contents[i]))))
}

/// The responses that echo each of `contents`, encoded.
pub open spec fn echo_responses(contents: Seq<Seq<char>>) -> Seq<Seq<u8>> {
    Seq::new(
        contents.len(),
        |i: int| server_message_bytes(Some(Response::EchoMessage(contents[i]))),
    )
}

/// Every request is answered with the response it is owed, and that
/// response is read by the client as what it is: the handler reads an
/// encoded request as the request that was encoded, and the client reads
/// the bytes written back as the response to it. Neither encoding is
/// empty, so that neither is taken for the end of the connection.
pub proof fn lemma_request_is_answered(request: Request)
    requires
        client_message_fits(Some(request)),
    ensures
        client_message_bytes(Some(request)).len() > 0,
        server_message_bytes(Some(response_to(request))).len() > 0,
        reply(client_message_bytes(Some(request))) == Some(
            server_message_bytes(Some(response_to(request))),
        ),
        decoded_server_message(server_message_bytes(Some(response_to(request)))) == Some(
            Some(response_to(request)),
        ),
{
    lemma_client_message_round_trip(Some(request));
    lemma_server_message_round_trip(Some(response_to(request)));
    lemma_varint_bytes_length((1 * 8 + 2) as nat);
    lemma_varint_bytes_length((2 * 8 + 2) as nat);
}

/// An echo request gets its content back, character for character.
pub proof fn lemma_echo_comes_back(content: Seq<char>)
    requires
        echo_message_bytes(content).len() <= u64::MAX,
    ensures
        reply(client_message_bytes(Some(Request::EchoMessage(content)))) == Some(
            server_message_bytes(Some(Response::EchoMessage(content))),
        ),
        decoded_server_message(server_message_bytes(Some(Response::EchoMessage(content))))
            == Some(Some(Response::EchoMessage(content))),
{
    lemma_request_is_answered(Request::EchoMessage(content));
}

/// A request to add two numbers whose sum fits in 32 bits is answered
/// with that sum.
pub proof fn lemma_sum_comes_back(a: i32, b: i32)
    requires
        i32::MIN <= a + b <= i32::MAX,
    ensures
        reply(client_message_bytes(Some(Request::AddRequest(AddRequest { a, b })))) == Some(
            server_message_bytes(
                Some(Response::AddResponse(AddResponse { result: (a + b) as i32 })),
            ),
        ),
        decoded_server_message(
            server_message_bytes(
                Some(Response::AddResponse(AddResponse { result: (a + b) as i32 })),
            ),
        ) == Some(Some(Response::AddResponse(AddResponse { result: (a + b) as i32 }))),
{
    lemma_request_is_answered(Request::AddRequest(AddRequest { a, b }));
}

/// Echo requests sent one after the other on one connection are answered
/// one for one, in the order in which they were sent.
pub proof fn lemma_echoes_come_back_in_order(contents: Seq<Seq<char>>)
    requires
        forall|i: int|
            0 <= i < contents.len() ==> (#[trigger] echo_message_bytes(contents[i])).len()
                <= u64::MAX,
    ensures
        replies(echo_requests(contents)) == echo_responses(contents),
    decreases contents.len(),
{
    if contents.len() > 0 {
        let later = contents.skip(1);
        lemma_request_is_answered(Request::EchoMessage(contents[0]));
        lemma_echoes_come_back_in_order(later);
        assert(echo_requests(contents).skip(1) =~= echo_requests(later));
    }
}

/// Every connection gets its own echoes and no other's: where `sent[i]`
/// are the contents sent on connection `i`, what is written on connection
/// `k` are the echoes of `sent[k]`, whatever the others sent.
pub proof fn lemma_each_connection_gets_its_own_echoes(sent: Seq<Seq<Seq<char>>>, k: int)
    requires
        0 <= k < sent.len(),
        forall|i: int|
            0 <= i < sent[k].len() ==> (#[trigger] echo_message_bytes(sent[k][i])).len()
                <= u64::MAX,
    ensures
        replies(echo_requests(sent[k])) == echo_responses(sent[k]),
{
    lemma_echoes_come_back_in_order(sent[k]);
}

/// Bytes that encode no request are dropped and the connection stays
/// open: what is read after them is answered as if they had never come.
pub proof fn lemma_dropped_bytes_leave_the_connection_open(bytes: Seq<u8>, later: Seq<Seq<u8>>)
    requires
        bytes.len() > 0,
        reply(bytes) is None,
    ensures
        replies(seq![bytes] + later) == replies(later),
{
    assert((seq![bytes] + later).skip(1) =~= later);
}

} // verus!
