//! Clients talking to the server over connections held in memory: every
//! read, write and accept is played by the test, and every decision is
//! the library's.

use echo_server::connection;
use echo_server::message::client_message;
use echo_server::message::server_message;
use echo_server::message::{AddRequest, EchoMessage, ServerMessage};
use echo_server::server;

/// The server's end of one connection.
struct Peer {
    handler: connection::Client,
    /// What the handler has written and the client has not read yet.
    written: Vec<Vec<u8>>,
    /// Set once the handler has ended.
    ended: Option<Result<(), String>>,
}

/// A listening server with its connections.
struct Host {
    server: server::Server<usize>,
    port: u32,
    peers: Vec<Peer>,
    /// Set once `run` has returned.
    returned: bool,
}

impl Host {
    /// Tells the accept loop of `event` and follows it until it accepts
    /// again or returns.
    fn turn(&mut self, event: server::Event<usize>) {
        let mut action = self.server.run(event);
        loop {
            match action {
                server::Action::Accept => return,
                server::Action::Sleep(millis) => {
                    assert_eq!(millis, 100);
                    action = self.server.run(server::Event::Resumed);
                }
                server::Action::Return => {
                    self.returned = true;
                    return;
                }
            }
        }
    }

    /// A client connects: the accept under way gives a connection.
    fn accept(&mut self) -> Result<usize, String> {
        if self.returned {
            return Err("connection refused".to_string());
        }
        let id = self.peers.len();
        let handler = connection::Client::new();
        match handler.handle::<String>(connection::Event::Opened) {
            connection::Step::Read(limit) => assert_eq!(limit, 4096),
            _ => panic!("a handler starts with a read"),
        }
        self.peers.push(Peer { handler, written: Vec::new(), ended: None });
        self.turn(server::Event::Connected(id));
        Ok(id)
    }

    /// The handler of connection `id` reads `bytes` in one read.
    fn deliver(&mut self, id: usize, bytes: &[u8]) -> Result<(), String> {
        let peer = &mut self.peers[id];
        if peer.ended.is_some() {
            return Err("broken pipe".to_string());
        }
        match peer.handler.handle::<String>(connection::Event::Read(bytes)) {
            connection::Step::Read(_) => {}
            connection::Step::Write(payload) => {
                peer.written.push(payload);
                match peer.handler.handle::<String>(connection::Event::Written) {
                    connection::Step::Read(_) => {}
                    _ => panic!("after a write the handler reads"),
                }
            }
            connection::Step::Finish(result) => peer.ended = Some(result),
        }
        Ok(())
    }
}

/// Creates a new server and returns it with its port.
fn create_server() -> Result<(Host, u16), String> {
    let port: u16 = 50051;
    let server = server::Server::new(&format!("localhost:{}", port), 10000);
    let mut host = Host { server, port: port.into(), peers: Vec::new(), returned: false };
    host.turn(server::Event::Started);
    Ok((host, port))
}

/// A request to echo `content`.
fn echo_request(content: &str) -> client_message::Message {
    client_message::Message::EchoMessage(EchoMessage { content: content.to_string() })
}

/// The response that echoes `content`.
fn echo_response(content: &str) -> Option<server_message::Message> {
    Some(server_message::Message::EchoMessage(EchoMessage { content: content.to_string() }))
}

/// A client of the server.
struct Client {
    ip: String,
    port: u32,
    timeout_ms: u64,
    stream: Option<usize>,
}

impl Client {
    fn new(ip: &str, port: u32, timeout_ms: u64) -> Self {
        Client { ip: ip.to_string(), port, timeout_ms, stream: None }
    }

    fn connect(&mut self, host: &mut Host) -> Result<(), String> {
        println!("Connecting to {}:{}", self.ip, self.port);
        if self.port != host.port || self.timeout_ms == 0 {
            return Err("Invalid IP or port".to_string());
        }
        self.stream = Some(host.accept()?);
        Ok(())
    }

    fn disconnect(&mut self, host: &mut Host) -> Result<(), String> {
        if let Some(id) = self.stream.take() {
            host.deliver(id, &[])?;
        }
        Ok(())
    }

    fn send(&mut self, host: &mut Host, message: client_message::Message) -> Result<(), String> {
        match self.stream {
            Some(id) => {
                let mut buffer = Vec::new();
                message.encode(&mut buffer);
                host.deliver(id, &buffer)
            }
            None => Err("No active connection".to_string()),
        }
    }

    fn receive_with_retry(
        &mut self,
        host: &mut Host,
        retries: u32,
    ) -> Result<ServerMessage, String> {
        match self.stream {
            Some(id) => {
                for _ in 0..retries {
                    let peer = &mut host.peers[id];
                    if peer.written.is_empty() {
                        if peer.ended.is_some() {
                            return Err("Server disconnected".to_string());
                        }
                        continue;
                    }
                    let bytes = peer.written.remove(0);
                    return ServerMessage::decode(&bytes)
                        .map_err(|e| format!("Failed to decode ServerMessage: {:?}", e));
                }
                Err("Failed to receive message after retries".to_string())
            }
            None => Err("No active connection".to_string()),
        }
    }
}

#[test]
fn test_client_connection() {
    let (mut host, port) = create_server().expect("Failed to create server");
    println!("Server is listening on port: {}", port);

    let mut client = Client::new("localhost", port.into(), 1000);
    match client.connect(&mut host) {
        Ok(_) => println!("Client successfully connected to the server."),
        Err(e) => panic!("Failed to connect to the server: {}", e),
    }

    let message =
        client_message::Message::EchoMessage(EchoMessage { content: "Test Echo".to_string() });
    match client.send(&mut host, message) {
        Ok(_) => println!("Message sent to the server."),
        Err(e) => panic!("Failed to send message to the server: {}", e),
    }

    let response = client.receive_with_retry(&mut host, 3);
    match response {
        Ok(res) => println!("Received response from server: {:?}", res),
        Err(e) => panic!("Failed to receive response from server: {}", e),
    }

    match client.disconnect(&mut host) {
        Ok(_) => println!("Client successfully disconnected."),
        Err(e) => panic!("Failed to disconnect from the server: {}", e),
    }
    assert_eq!(host.peers[0].ended, Some(Ok(())));
}

#[test]
fn test_client_echo_message() {
    let (mut host, port) = create_server().expect("Failed to create server");

    let mut client = Client::new("localhost", port.into(), 1000);
    match client.connect(&mut host) {
        Ok(_) => println!("Client successfully connected to the server."),
        Err(e) => panic!("Failed to connect to the server: {}", e),
    }

    let mut echo_message = EchoMessage::default();
    echo_message.content = "Hello, World!".to_string();
    let message = client_message::Message::EchoMessage(echo_message.clone());

    match client.send(&mut host, message) {
        Ok(_) => println!("Message sent to the server."),
        Err(e) => panic!("Failed to send message to the server: {}", e),
    }

    let response = client.receive_with_retry(&mut host, 3);
    match response {
        Ok(res) => match res.message {
            Some(server_message::Message::EchoMessage(echo)) => {
                assert_eq!(
                    echo.content, echo_message.content,
                    "Echoed message content does not match"
                );
            }
            _ => panic!("Expected EchoMessage, but received a different message"),
        },
        Err(e) => panic!("Failed to receive response for EchoMessage: {}", e),
    }

    match client.disconnect(&mut host) {
        Ok(_) => println!("Client successfully disconnected."),
        Err(e) => panic!("Failed to disconnect from the server: {}", e),
    }
}

#[test]
fn test_multiple_echo_messages() {
    let (mut host, port) = create_server().expect("Failed to create server");

    let mut client = Client::new("localhost", port.into(), 1000000);
    assert!(client.connect(&mut host).is_ok(), "Failed to connect to the server");

    let messages = vec![
        "Hello, World!".to_string(),
        "How are you?".to_string(),
        "Goodbye!".to_string(),
    ];

    for message_content in messages {
        let message = client_message::Message::EchoMessage(EchoMessage {
            content: message_content.clone(),
        });
        match client.send(&mut host, message) {
            Ok(_) => println!("Message sent to the server."),
            Err(e) => panic!("Failed to send message to the server: {}", e),
        }

        let response = client.receive_with_retry(&mut host, 3);
        match response {
            Ok(res) => {
                println!("Received response from server: {:?}", res);
                assert_eq!(
                    res.message,
                    Some(server_message::Message::EchoMessage(EchoMessage {
                        content: message_content
                    }))
                );
            }
            Err(e) => panic!("Failed to receive response from server: {}", e),
        }
    }
}

#[test]
fn test_multiple_clients() {
    let (mut host, port) = create_server().expect("Failed to create server");

    let mut clients = vec![
        Client::new("localhost", port.into(), 1000),
        Client::new("localhost", port.into(), 1000),
        Client::new("localhost", port.into(), 1000),
    ];

    for client in clients.iter_mut() {
        assert!(client.connect(&mut host).is_ok(), "Failed to connect to the server");
    }

    let messages = vec![
        "Hello, World!".to_string(),
        "How are you?".to_string(),
        "Goodbye!".to_string(),
    ];

    for message_content in messages {
        let mut echo_message = EchoMessage::default();
        echo_message.content = message_content.clone();
        let message = client_message::Message::EchoMessage(echo_message.clone());

        for client in clients.iter_mut() {
            assert!(client.send(&mut host, message.clone()).is_ok(), "Failed to send message");

            let response = client.receive_with_retry(&mut host, 3);
            assert!(response.is_ok(), "Failed to receive response for EchoMessage");

            match response.unwrap().message {
                Some(server_message::Message::EchoMessage(echo)) => {
                    assert_eq!(
                        echo.content, message_content,
                        "Echoed message content does not match"
                    );
                }
                _ => panic!("Expected EchoMessage, but received a different message"),
            }
        }
    }

    for client in clients.iter_mut() {
        assert!(client.disconnect(&mut host).is_ok(), "Failed to disconnect from the server");
    }
}

#[test]
fn test_client_add_request() {
    let (mut host, port) = create_server().expect("Failed to create server");

    let mut client = Client::new("localhost", port.into(), 1000);
    assert!(client.connect(&mut host).is_ok(), "Failed to connect to the server");

    let mut add_request = AddRequest::default();
    add_request.a = 10;
    add_request.b = 20;
    let message = client_message::Message::AddRequest(add_request.clone());
    assert!(client.send(&mut host, message).is_ok(), "Failed to send message");

    let response = client.receive_with_retry(&mut host, 1);
    assert!(response.is_ok(), "Failed to receive response for AddRequest");
    match response.unwrap().message {
        Some(server_message::Message::AddResponse(add_response)) => {
            assert_eq!(
                add_response.result,
                add_request.a + add_request.b,
                "AddResponse result does not match"
            );
            assert_eq!(add_response.result, 30);
        }
        _ => panic!("Expected AddResponse, but received a different message"),
    }

    assert!(client.disconnect(&mut host).is_ok(), "Failed to disconnect from the server");

    // Stop the server: the accept loop returns at its next turn.
    assert!(host.server.stop());
    host.turn(server::Event::AcceptFailed);
    assert!(host.returned, "Server thread panicked or failed to join");
}

#[test]
fn clients_get_only_their_own_echoes() {
    let (mut host, port) = create_server().expect("Failed to create server");
    let mut clients = vec![
        Client::new("localhost", port.into(), 1000),
        Client::new("localhost", port.into(), 1000),
        Client::new("localhost", port.into(), 1000),
    ];
    for client in clients.iter_mut() {
        client.connect(&mut host).unwrap();
    }
    // Every client sends before any of them reads.
    for round in 0..3 {
        for (k, client) in clients.iter_mut().enumerate() {
            let content = format!("client {} round {}", k, round);
            client.send(&mut host, echo_request(&content)).unwrap();
        }
    }
    for (k, client) in clients.iter_mut().enumerate() {
        for round in 0..3 {
            let response = client.receive_with_retry(&mut host, 1).unwrap();
            assert_eq!(response.message, echo_response(&format!("client {} round {}", k, round)));
        }
        assert!(client.receive_with_retry(&mut host, 1).is_err());
    }
}

#[test]
fn a_disconnect_ends_one_handler_and_no_other() {
    let (mut host, port) = create_server().expect("Failed to create server");
    let mut first = Client::new("localhost", port.into(), 1000);
    let mut second = Client::new("localhost", port.into(), 1000);
    first.connect(&mut host).unwrap();
    second.connect(&mut host).unwrap();

    first.disconnect(&mut host).unwrap();
    assert_eq!(host.peers[0].ended, Some(Ok(())));
    assert_eq!(host.peers[1].ended, None);
    assert!(!host.returned);

    second.send(&mut host, echo_request("still here")).unwrap();
    let response = second.receive_with_retry(&mut host, 1).unwrap();
    assert_eq!(response.message, echo_response("still here"));
}

#[test]
fn malformed_bytes_get_no_response_and_the_connection_stays() {
    let (mut host, port) = create_server().expect("Failed to create server");
    let mut client = Client::new("localhost", port.into(), 1000);
    client.connect(&mut host).unwrap();
    let id = client.stream.unwrap();

    host.deliver(id, &[0xff, 0xff, 0xff]).unwrap();
    assert!(host.peers[id].written.is_empty());
    assert_eq!(host.peers[id].ended, None);
    assert_eq!(
        client.receive_with_retry(&mut host, 3),
        Err("Failed to receive message after retries".to_string())
    );

    client.send(&mut host, echo_request("Hello, World!")).unwrap();
    let response = client.receive_with_retry(&mut host, 1).unwrap();
    assert_eq!(response.message, echo_response("Hello, World!"));
}

#[test]
fn a_client_that_never_connected_cannot_send() {
    let (mut host, port) = create_server().expect("Failed to create server");
    let mut client = Client::new("localhost", port.into(), 1000);
    let message = client_message::Message::EchoMessage(EchoMessage::default());
    assert_eq!(client.send(&mut host, message), Err("No active connection".to_string()));
    assert_eq!(
        client.receive_with_retry(&mut host, 1),
        Err("No active connection".to_string())
    );
}
