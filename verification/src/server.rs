//! The listener: when to accept, when to wait, when to stop, and which
//! handlers are still to be joined.
//!
//! The server owns no socket and starts no handler itself. Whoever runs it
//! accepts, sleeps and starts handlers as the server says and reports what
//! came of it: `Server::run` takes that report and gives the next action.
use vstd::prelude::*;

verus! {

/// How long to wait, in milliseconds, before accepting again after an
/// accept that would have blocked.
pub const ACCEPT_RETRY_MILLIS: u64 = 100;

/// What came of the action that the server asked for last. `H` is the
/// handle by which a started handler is joined.
#[derive(Debug)]
pub enum Event<H> {
    /// `run` was entered.
    Started,
    /// A connection was accepted and its handler started.
    Connected(H),
    /// The listening socket does not block and had no connection waiting.
    WouldBlock,
    /// Accepting failed in any other way.
    AcceptFailed,
    /// The wait that the server asked for is over.
    Resumed,
}

/// What the server asks for next.
#[derive(Clone, Copy, Debug, PartialEq, Eq)]
pub enum Action {
    /// Accept a connection and start its handler.
    Accept,
    /// Wait for this many milliseconds.
    Sleep(u64),
    /// Leave `run`, without error. Handlers that were started run on.
    Return,
}

/// The listening endpoint: where it listens, whether it goes on
/// accepting, and the handlers it has started and not yet handed out to be
/// joined.
pub struct Server<H> {
    addr: String,
    max_clients: usize,
    is_running: bool,
    workers: Vec<H>,
}

/// A server as the contracts see it.
pub struct ServerView<H> {
    /// The address that the server listens on.
    pub addr: Seq<char>,
    /// How many clients the server is meant for. Nothing enforces it.
    pub max_clients: usize,
    /// Whether the server goes on accepting.
    pub is_running: bool,
    /// The handles of the handlers started and not yet handed out, oldest
    /// first.
    pub workers: Seq<H>,
}

impl<H> ServerView<H> {
    /// The server after `stop`: it accepts no more, the rest is as before.
    pub open spec fn stopped(self) -> ServerView<H> {
        ServerView { is_running: false, ..self }
    }

    /// The server after `join_workers`: no handler is left to join, the
    /// rest is as before.
    pub open spec fn joined(self) -> ServerView<H> {
        ServerView { workers: Seq::empty(), ..self }
    }

    /// The server after `run` was told of `event`: a handler that was
    /// started is kept to be joined, the rest is as before.
    pub open spec fn after(self, event: Event<H>) -> ServerView<H> {
        match event {
            Event::Connected(worker) => ServerView { workers: self.workers.push(worker), ..self },
            _ => self,
        }
    }

    /// The action that `run` asks for when told of `event`: after an
    /// accept that would have blocked it waits; otherwise it accepts
    /// again while the server is running, and returns once it is not.
    pub open spec fn action(self, event: Event<H>) -> Action {
        if event is WouldBlock {
            Action::Sleep(ACCEPT_RETRY_MILLIS)
        } else if self.is_running {
            Action::Accept
        } else {
            Action::Return
        }
    }
}

impl<H> View for Server<H> {
    type V = ServerView<H>;

    closed spec fn view(&self) -> ServerView<H> {
        ServerView {
            addr: self.addr@,
            max_clients: self.max_clients,
            is_running: self.is_running,
            workers: self.workers@,
        }
    }
}

impl<H> Server<H> {
    /// A server for the listening socket bound to `addr`: it is running
    /// and has started no handler.
    pub fn new(addr: &str, max_clients: usize) -> (server: Server<H>)
        ensures
            server@ == (ServerView {
                addr: addr@,
                max_clients,
                is_running: true,
                workers: Seq::<H>::empty(),
            }),
    {
        Server { addr: addr.to_owned(), max_clients, is_running: true, workers: Vec::new() }
    }

    /// The next action of the accept loop, given what came of the last
    /// one.
    ///
    /// The handle of a handler that was started is kept until
    /// `join_workers`. An accept that would have blocked is tried again
    /// after `ACCEPT_RETRY_MILLIS`; any other failure is tried again at
    /// once. Whether the server is still running is looked at before each
    /// accept, and nowhere else: once it is not, `run` returns.
    pub fn run(&mut self, event: Event<H>) -> (action: Action)
        ensures
            final(self)@ == old(self)@.after(event),
            action == old(self)@.action(event),
    {
        match event {
            Event::Connected(worker) => {
                self.workers.push(worker);
            },
            Event::WouldBlock => {
                return Action::Sleep(ACCEPT_RETRY_MILLIS);
            },
            _ => {},
        }
        if self.is_running {
            Action::Accept
        } else {
            Action::Return
        }
    }

    /// Asks the accept loop to end. Returns whether this call did so:
    /// `false` means that the server had been stopped before, and nothing
    /// has changed.
    pub fn stop(&mut self) -> (stopped: bool)
        ensures
            final(self)@ == old(self)@.stopped(),
            stopped == old(self)@.is_running,
    {
        let was_running = self.is_running;
        self.is_running = false;
        was_running
    }

    /// Hands out the handles of all handlers started so far, oldest first,
    /// to be joined; the server keeps none of them.
    pub fn join_workers(&mut self) -> (workers: Vec<H>)
        ensures
            workers@ == old(self)@.workers,
            final(self)@ == old(self)@.joined(),
    {
        let mut workers: Vec<H> = Vec::new();
        workers.append(&mut self.workers);
        workers
    }

    /// Whether the server goes on accepting.
    pub fn is_running(&self) -> (running: bool)
        ensures
            running == self@.is_running,
    {
        self.is_running
    }

    /// How many clients the server is meant for.
    pub fn max_clients(&self) -> (max_clients: usize)
        ensures
            max_clients == self@.max_clients,
    {
        self.max_clients
    }

    /// The address that the server listens on.
    pub fn addr(&self) -> (addr: &str)
        ensures
            addr@ == self@.addr,
    {
        self.addr.as_str()
    }
}

/// After `stop` the accept loop ends at its next turn: whatever comes of
/// the accept that was under way, `run` then returns, after the wait
/// where that accept would have blocked. A handler started by that accept
/// is still kept to be joined.
pub proof fn lemma_stop_ends_run<H>(server: ServerView<H>, event: Event<H>)
    ensures
        !(event is WouldBlock) ==> server.stopped().action(event) == Action::Return,
        event is WouldBlock ==> server.stopped().action(event) == Action::Sleep(
            ACCEPT_RETRY_MILLIS,
        ) && server.stopped().after(event).action(Event::Resumed) == Action::Return,
        !server.stopped().after(event).is_running,
        server.stopped().after(event).workers == server.after(event).workers,
{
}

/// To stop a stopped server changes nothing: a second `stop` finds the
/// server not running, which is what it returns, and leaves it as it is.
pub proof fn lemma_stop_is_idempotent<H>(server: ServerView<H>)
    ensures
        !server.stopped().is_running,
        server.stopped().stopped() == server.stopped(),
{
}

/// Only `stop` ends the accept loop: while the server is running, `run`
/// never returns, whatever the accepts come to.
pub proof fn lemma_run_goes_on_until_stopped<H>(server: ServerView<H>, event: Event<H>)
    requires
        server.is_running,
    ensures
        server.action(event) != Action::Return,
        server.after(event).is_running,
{
}

} // verus!
