//! The steps of a connection's handler.

use echo_server::connection::{respond, Client, Event, Step, READ_BUFFER_SIZE};
use echo_server::message::client_message;
use echo_server::message::server_message;
use echo_server::message::{AddRequest, AddResponse, ClientMessage, EchoMessage, ServerMessage};

fn echo_request(content: &str) -> Vec<u8> {
    ClientMessage {
        message: Some(client_message::Message::EchoMessage(EchoMessage {
            content: content.to_string(),
        })),
    }
    .encode_to_vec()
}

fn add_request(a: i32, b: i32) -> Vec<u8> {
    ClientMessage { message: Some(client_message::Message::AddRequest(AddRequest { a, b })) }
        .encode_to_vec()
}

/// What the handler writes when one read gives `bytes`.
fn written(bytes: &[u8]) -> Option<Vec<u8>> {
    match Client::new().handle::<String>(Event::Read(bytes)) {
        Step::Write(payload) => Some(payload),
        Step::Read(limit) => {
            assert_eq!(limit, READ_BUFFER_SIZE);
            None
        }
        Step::Finish(result) => panic!("the handler ended: {:?}", result),
    }
}

fn is_read<E>(step: Step<E>) -> bool {
    matches!(step, Step::Read(4096))
}

#[test]
fn the_read_buffer_holds_4096_bytes() {
    assert_eq!(READ_BUFFER_SIZE, 4096);
}

#[test]
fn a_handler_starts_with_a_read() {
    assert!(is_read(Client::new().handle::<String>(Event::Opened)));
}

#[test]
fn a_read_of_no_bytes_ends_the_handler_without_error() {
    match Client::new().handle::<String>(Event::Read(&[])) {
        Step::Finish(result) => assert_eq!(result, Ok(())),
        _ => panic!("the handler goes on"),
    }
}

#[test]
fn a_failed_read_ends_the_handler_with_its_error() {
    match Client::new().handle(Event::ReadFailed("connection reset".to_string())) {
        Step::Finish(result) => assert_eq!(result, Err("connection reset".to_string())),
        _ => panic!("the handler goes on"),
    }
}

#[test]
fn a_failed_write_ends_the_handler_with_its_error() {
    match Client::new().handle(Event::WriteFailed(32)) {
        Step::Finish(result) => assert_eq!(result, Err(32)),
        _ => panic!("the handler goes on"),
    }
}

#[test]
fn after_a_write_the_handler_reads_again() {
    assert!(is_read(Client::new().handle::<String>(Event::Written)));
}

#[test]
fn an_echo_is_answered_with_its_content() {
    for content in ["", "Test Echo", "Hello, World!", "grüß dich, 世界"] {
        let payload = written(&echo_request(content)).expect("no response");
        assert_eq!(
            ServerMessage::decode(&payload),
            Ok(ServerMessage {
                message: Some(server_message::Message::EchoMessage(EchoMessage {
                    content: content.to_string()
                }))
            })
        );
    }
    assert_eq!(written(&echo_request("hi")), Some(vec![0x0a, 0x04, 0x0a, 0x02, b'h', b'i']));
    assert_eq!(written(&echo_request("")), Some(vec![0x0a, 0x00]));
}

#[test]
fn two_numbers_are_answered_with_their_sum() {
    assert_eq!(written(&add_request(10, 20)), Some(vec![0x12, 0x02, 0x08, 0x1e]));
    let sums =
        [(0, 0, 0), (10, 20, 30), (-5, 3, -2), (i32::MAX, 0, i32::MAX), (i32::MIN, i32::MAX, -1)];
    for (a, b, sum) in sums {
        let payload = written(&add_request(a, b)).expect("no response");
        assert_eq!(
            ServerMessage::decode(&payload),
            Ok(ServerMessage {
                message: Some(server_message::Message::AddResponse(AddResponse { result: sum }))
            })
        );
    }
}

#[test]
fn a_sum_that_does_not_fit_wraps_around() {
    let sum = |a: i32, b: i32| respond(client_message::Message::AddRequest(AddRequest { a, b }));
    let is = |result: i32| server_message::Message::AddResponse(AddResponse { result });
    assert_eq!(sum(i32::MAX, 1), is(i32::MIN));
    assert_eq!(sum(i32::MIN, -1), is(i32::MAX));
    assert_eq!(sum(i32::MIN, i32::MIN), is(0));
    assert_eq!(sum(i32::MAX, i32::MAX), is(-2));
    assert_eq!(written(&add_request(i32::MAX, 1)), Some(is(i32::MIN)).map(|response| {
        ServerMessage { message: Some(response) }.encode_to_vec()
    }));
}

#[test]
fn respond_pairs_every_request_with_its_response() {
    let echo = EchoMessage { content: "Hello, World!".to_string() };
    assert_eq!(
        respond(client_message::Message::EchoMessage(echo.clone())),
        server_message::Message::EchoMessage(echo)
    );
    assert_eq!(
        respond(client_message::Message::AddRequest(AddRequest { a: 10, b: 20 })),
        server_message::Message::AddResponse(AddResponse { result: 30 })
    );
}

#[test]
fn bytes_that_encode_no_request_are_dropped() {
    // malformed
    assert_eq!(written(&[0xff]), None);
    assert_eq!(written(&[0x0a, 0x05, b'a']), None);
    assert_eq!(written(b"GET / HTTP/1.1\r\n\r\n"), None);
    // a well-formed message that holds no request
    assert_eq!(written(&[0x18, 0x01]), None);
    // a bare EchoMessage whose content is no message: as a ClientMessage
    // its field 1 would have to hold an EchoMessage
    assert_eq!(written(&[0x0a, 0x02, 0xff, 0xff]), None);
}

#[test]
fn a_request_whose_embedded_message_holds_unknown_fields_only_is_an_empty_request() {
    // field 1 holds the bytes "hi", which read as field 13 with the varint
    // 0x69: an EchoMessage without content
    assert_eq!(written(&[0x0a, 0x02, b'h', b'i']), Some(vec![0x0a, 0x00]));
}

#[test]
fn requests_are_answered_one_for_one_in_their_order() {
    let handler = Client::new();
    let contents = ["Hello, World!", "How are you?", "Goodbye!"];
    let mut responses = Vec::new();
    for content in contents {
        match handler.handle::<String>(Event::Read(&echo_request(content))) {
            Step::Write(payload) => responses.push(payload),
            _ => panic!("no response"),
        }
        assert!(is_read(handler.handle::<String>(Event::Written)));
    }
    let expected: Vec<Vec<u8>> = contents
        .iter()
        .map(|content| {
            ServerMessage {
                message: Some(server_message::Message::EchoMessage(EchoMessage {
                    content: content.to_string(),
                })),
            }
            .encode_to_vec()
        })
        .collect();
    assert_eq!(responses, expected);
}

#[test]
fn a_request_after_dropped_bytes_is_still_answered() {
    let handler = Client::new();
    assert!(is_read(handler.handle::<String>(Event::Read(&[0xde, 0xad, 0xbe, 0xef]))));
    match handler.handle::<String>(Event::Read(&add_request(10, 20))) {
        Step::Write(payload) => assert_eq!(payload, vec![0x12, 0x02, 0x08, 0x1e]),
        _ => panic!("no response"),
    }
}

#[test]
fn a_request_longer_than_one_read_is_answered_when_it_is_handed_over_whole() {
    let content = "x".repeat(3 * READ_BUFFER_SIZE);
    let payload = written(&echo_request(&content)).expect("no response");
    assert_eq!(
        ServerMessage::decode(&payload),
        Ok(ServerMessage {
            message: Some(server_message::Message::EchoMessage(EchoMessage { content }))
        })
    );
}

#[test]
fn a_request_cut_in_two_by_the_reads_is_dropped() {
    let request = echo_request("Hello, World!");
    let (head, tail) = request.split_at(5);
    assert_eq!(written(head), None);
    assert_eq!(written(tail), None);
}
