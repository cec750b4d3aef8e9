//! The server side of one tunnelled connection, as a state machine: the
//! caller reads from the sockets, hands each read to `ServerSession::step`,
//! and performs the action that comes back.
//!
//! Everything that arrives from the client is cipher-encoded: the SOCKS5
//! greeting (whose first decoded byte must be 5), then a CONNECT request
//! (whose fourth decoded byte must be 3, a domain name; the name runs from
//! byte 5 to the last two bytes, which hold the port, big-endian), then the
//! tunnelled data. Replies to the client are encoded; data to the remote
//! host is decoded.

use vstd::prelude::*;
use vstd::utf8::valid_utf8;
use vstd::utf8::decode_utf8;
use crate::cipher::Cipher;
use crate::cipher::substitutable;
use crate::cipher::substitute;
use crate::trusted::get_u16_be;
use crate::trusted::str_from_utf8;

verus! {

/// Why the handshake was refused.
#[derive(Clone, Copy, Debug, PartialEq, Eq, Structural)]
pub enum HandshakeError {
    /// The greeting's version byte is not 5.
    NotSocks5,
    /// The request's address type is not 3 (a domain name).
    NotDomain,
}

impl HandshakeError {
    /// The text the server reports for this error.
    pub fn message(&self) -> (res: &'static str)
        ensures
            *self == HandshakeError::NotSocks5 ==> res@ == "only support socks5"@,
            *self == HandshakeError::NotDomain ==> res@ == "only support domain"@,
    {
        match self {
            HandshakeError::NotSocks5 => "only support socks5",
            HandshakeError::NotDomain => "only support domain",
        }
    }
}

/// Where a server session stands.
#[derive(Clone, Copy, Debug, PartialEq, Eq, Structural)]
pub enum SessionState {
    /// Waiting for the client's greeting.
    AwaitGreeting,
    /// Greeting accepted; waiting for the CONNECT request.
    AwaitRequest,
    /// Request accepted; waiting for the connection to the remote host.
    AwaitConnect,
    /// Forwarding data both ways.
    Relaying,
    /// The handshake failed; nothing more happens.
    Closed,
}

/// Something the caller observed.
pub enum SessionEvent {
    /// Bytes read from the client (for the greeting: the whole 3-byte buffer).
    FromClient(Vec<u8>),
    /// Bytes read from the remote host.
    FromRemote(Vec<u8>),
    /// The connection to the remote host is open.
    RemoteConnected,
}

/// What the caller is to do next.
pub enum SessionAction {
    /// Write these bytes to the client.
    ToClient(Vec<u8>),
    /// Open a connection to this host and port.
    Connect { host: String, port: u16 },
    /// Write these bytes to the remote host.
    ToRemote(Vec<u8>),
    /// End the connection with this error.
    Fail(HandshakeError),
    /// Nothing to do.
    Wait,
}

/// The mathematical content of a `SessionEvent`.
pub enum EventView {
    FromClient(Seq<u8>),
    FromRemote(Seq<u8>),
    RemoteConnected,
}

/// The mathematical content of a `SessionAction`.
pub enum ActionView {
    ToClient(Seq<u8>),
    Connect(Seq<char>, u16),
    ToRemote(Seq<u8>),
    Fail(HandshakeError),
    Wait,
}

impl View for SessionEvent {
    type V = EventView;

    open spec fn view(&self) -> EventView {
        match self {
            SessionEvent::FromClient(b) => EventView::FromClient(b@),
            SessionEvent::FromRemote(b) => EventView::FromRemote(b@),
            SessionEvent::RemoteConnected => EventView::RemoteConnected,
        }
    }
}

impl View for SessionAction {
    type V = ActionView;

    open spec fn view(&self) -> ActionView {
        match self {
            SessionAction::ToClient(b) => ActionView::ToClient(b@),
            SessionAction::Connect { host, port } => ActionView::Connect(host@, *port),
            SessionAction::ToRemote(b) => ActionView::ToRemote(b@),
            SessionAction::Fail(e) => ActionView::Fail(*e),
            SessionAction::Wait => ActionView::Wait,
        }
    }
}

/// The reply to an accepted greeting: version 5, no authentication.
pub open spec fn greeting_reply() -> Seq<u8> {
    seq![5u8, 0u8]
}

/// The reply once the remote host is connected: version 5, succeeded,
/// IPv4 address 0.0.0.0, port 0.
pub open spec fn connect_reply() -> Seq<u8> {
    seq![5u8, 0u8, 0u8, 1u8, 0u8, 0u8, 0u8, 0u8, 0u8, 0u8]
}

/// The host-name bytes of a decoded CONNECT request.
pub open spec fn request_host(req: Seq<u8>) -> Seq<u8> {
    req.subrange(5, req.len() - 2)
}

/// The port of a decoded CONNECT request: its last two bytes, big-endian.
pub open spec fn request_port(req: Seq<u8>) -> u16 {
    (req[req.len() - 2] as int * 256 + req[req.len() - 1] as int) as u16
}

/// The inputs on which a step is defined: every byte to be substituted has a
/// table entry, the greeting is not empty, and a request is long enough to
/// index (and, for a domain request, holds a UTF-8 host name).
pub open spec fn step_defined(
    enc: Map<u8, u8>,
    dec: Map<u8, u8>,
    state: SessionState,
    event: EventView,
) -> bool {
    match (state, event) {
        (SessionState::AwaitGreeting, EventView::FromClient(raw)) => {
            &&& raw.len() >= 1
            &&& substitutable(dec, raw)
            &&& substitute(dec, raw)[0] == 5 ==> substitutable(enc, greeting_reply())
        },
        (SessionState::AwaitRequest, EventView::FromClient(raw)) => {
            &&& raw.len() >= 4
            &&& substitutable(dec, raw)
            &&& substitute(dec, raw)[3] == 3 ==> raw.len() >= 7 && valid_utf8(
                request_host(substitute(dec, raw)),
            )
        },
        (SessionState::AwaitConnect, EventView::RemoteConnected) => substitutable(
            enc,
            connect_reply(),
        ),
        (SessionState::Relaying, EventView::FromClient(raw)) => substitutable(dec, raw),
        (SessionState::Relaying, EventView::FromRemote(raw)) => substitutable(enc, raw),
        _ => true,
    }
}

/// The next state and the action for an event.
pub open spec fn next_step(
    enc: Map<u8, u8>,
    dec: Map<u8, u8>,
    state: SessionState,
    event: EventView,
) -> (SessionState, ActionView) {
    match (state, event) {
        (SessionState::AwaitGreeting, EventView::FromClient(raw)) => {
            if substitute(dec, raw)[0] == 5 {
                (SessionState::AwaitRequest, ActionView::ToClient(substitute(enc, greeting_reply())))
            } else {
                (SessionState::Closed, ActionView::Fail(HandshakeError::NotSocks5))
            }
        },
        (SessionState::AwaitRequest, EventView::FromClient(raw)) => {
            let req = substitute(dec, raw);
            if req[3] == 3 {
                (
                    SessionState::AwaitConnect,
                    ActionView::Connect(decode_utf8(request_host(req)), request_port(req)),
                )
            } else {
                (SessionState::Closed, ActionView::Fail(HandshakeError::NotDomain))
            }
        },
        (SessionState::AwaitConnect, EventView::RemoteConnected) => (
            SessionState::Relaying,
            ActionView::ToClient(substitute(enc, connect_reply())),
        ),
        (SessionState::Relaying, EventView::FromClient(raw)) => (
            SessionState::Relaying,
            ActionView::ToRemote(substitute(dec, raw)),
        ),
        (SessionState::Relaying, EventView::FromRemote(raw)) => (
            SessionState::Relaying,
            ActionView::ToClient(substitute(enc, raw)),
        ),
        _ => (state, ActionView::Wait),
    }
}

#[derive(Clone, Copy, Debug)]
pub struct ServerSession {
    state: SessionState,
}

impl ServerSession {
    /// The state the session is in.
    pub closed spec fn current(&self) -> SessionState {
        self.state
    }

    /// A session waiting for the greeting.
    pub fn new() -> (res: ServerSession)
        ensures
            res.current() == SessionState::AwaitGreeting,
    {
        ServerSession { state: SessionState::AwaitGreeting }
    }

    /// The state the session is in.
    pub fn state(&self) -> (res: SessionState)
        ensures
            res == self.current(),
    {
        self.state
    }

    /// Whether `step` is defined on this event.
    pub fn can_step(&self, cipher: &Cipher, event: &SessionEvent) -> (res: bool)
        ensures
            res == step_defined(cipher.encode_map(), cipher.decode_map(), self.current(), event@),
    {
        match (self.state, event) {
            (SessionState::AwaitGreeting, SessionEvent::FromClient(raw)) => {
                if raw.len() < 1 || !cipher.can_decode(raw.as_slice()) {
                    return false;
                }
                let mut greeting: Vec<u8> = Vec::new();
                cipher.decode(raw.as_slice(), &mut greeting);
                if greeting[0] != 5 {
                    return true;
                }
                cipher.can_encode(&[5u8, 0u8])
            },
            (SessionState::AwaitRequest, SessionEvent::FromClient(raw)) => {
                if raw.len() < 4 || !cipher.can_decode(raw.as_slice()) {
                    return false;
                }
                let mut req: Vec<u8> = Vec::new();
                cipher.decode(raw.as_slice(), &mut req);
                if req[3] != 3 {
                    return true;
                }
                if req.len() < 7 {
                    return false;
                }
                let n = req.len();
                str_from_utf8(&req.as_slice()[5..n - 2]).is_some()
            },
            (SessionState::AwaitConnect, SessionEvent::RemoteConnected) => {
                cipher.can_encode(&[5u8, 0u8, 0u8, 1u8, 0u8, 0u8, 0u8, 0u8, 0u8, 0u8])
            },
            (SessionState::Relaying, SessionEvent::FromClient(raw)) => {
                cipher.can_decode(raw.as_slice())
            },
            (SessionState::Relaying, SessionEvent::FromRemote(raw)) => {
                cipher.can_encode(raw.as_slice())
            },
            _ => true,
        }
    }

    /// Takes one event: moves to the next state and says what to do.
    pub fn step(&mut self, cipher: &Cipher, event: &SessionEvent) -> (res: SessionAction)
        requires
            step_defined(cipher.encode_map(), cipher.decode_map(), old(self).current(), event@),
        ensures
            (final(self).current(), res@) == next_step(
                cipher.encode_map(),
                cipher.decode_map(),
                old(self).current(),
                event@,
            ),
    {
        match (self.state, event) {
            (SessionState::AwaitGreeting, SessionEvent::FromClient(raw)) => {
                let mut greeting: Vec<u8> = Vec::new();
                cipher.decode(raw.as_slice(), &mut greeting);
                if greeting[0] != 5 {
                    self.state = SessionState::Closed;
                    return SessionAction::Fail(HandshakeError::NotSocks5);
                }
                let mut reply: Vec<u8> = Vec::new();
                cipher.encode(&[5u8, 0u8], &mut reply);
                self.state = SessionState::AwaitRequest;
                SessionAction::ToClient(reply)
            },
            (SessionState::AwaitRequest, SessionEvent::FromClient(raw)) => {
                let mut req: Vec<u8> = Vec::new();
                cipher.decode(raw.as_slice(), &mut req);
                if req[3] != 3 {
                    self.state = SessionState::Closed;
                    return SessionAction::Fail(HandshakeError::NotDomain);
                }
                let n = req.len();
                let port = get_u16_be(&req.as_slice()[n - 2..n]);
                let host = str_from_utf8(&req.as_slice()[5..n - 2]).unwrap();
                self.state = SessionState::AwaitConnect;
                SessionAction::Connect { host: host.to_owned(), port }
            },
            (SessionState::AwaitConnect, SessionEvent::RemoteConnected) => {
                let mut reply: Vec<u8> = Vec::new();
                cipher.encode(&[5u8, 0u8, 0u8, 1u8, 0u8, 0u8, 0u8, 0u8, 0u8, 0u8], &mut reply);
                self.state = SessionState::Relaying;
                SessionAction::ToClient(reply)
            },
            (SessionState::Relaying, SessionEvent::FromClient(raw)) => {
                let mut data: Vec<u8> = Vec::new();
                cipher.decode(raw.as_slice(), &mut data);
                SessionAction::ToRemote(data)
            },
            (SessionState::Relaying, SessionEvent::FromRemote(raw)) => {
                let mut data: Vec<u8> = Vec::new();
                cipher.encode(raw.as_slice(), &mut data);
                SessionAction::ToClient(data)
            },
            _ => SessionAction::Wait,
        }
    }
}

} // verus!

verus! {

/// A closed session stays closed and does nothing, whatever happens.
pub proof fn lemma_closed_is_final(enc: Map<u8, u8>, dec: Map<u8, u8>, event: EventView)
    ensures
        step_defined(enc, dec, SessionState::Closed, event),
        next_step(enc, dec, SessionState::Closed, event) == (SessionState::Closed, ActionView::Wait),
{
}

/// A refused handshake closes the session, and only the greeting and the
/// request can be refused.
pub proof fn lemma_failure_closes(
    enc: Map<u8, u8>,
    dec: Map<u8, u8>,
    state: SessionState,
    event: EventView,
)
    ensures
        next_step(enc, dec, state, event).1 is Fail ==> {
            &&& next_step(enc, dec, state, event).0 == SessionState::Closed
            &&& state == SessionState::AwaitGreeting || state == SessionState::AwaitRequest
        },
{
}

/// Data is relayed only once the remote host is connected: the session
/// enters `Relaying` only from `AwaitConnect`, which it enters only from
/// `AwaitRequest`, which it enters only from `AwaitGreeting`.
pub proof fn lemma_handshake_order(
    enc: Map<u8, u8>,
    dec: Map<u8, u8>,
    state: SessionState,
    event: EventView,
)
    ensures
        ({
            let next = next_step(enc, dec, state, event).0;
            &&& next == SessionState::Relaying ==> state == SessionState::AwaitConnect || state
                == SessionState::Relaying
            &&& next == SessionState::AwaitConnect ==> state == SessionState::AwaitRequest || state
                == SessionState::AwaitConnect
            &&& next == SessionState::AwaitRequest ==> state == SessionState::AwaitGreeting || state
                == SessionState::AwaitRequest
        }),
{
}

/// With a bijective cipher, a client that encodes a SOCKS5 greeting is
/// answered with the encoded reply 5, 0, and a client that encodes a CONNECT
/// request for a UTF-8 domain name gets a connection to that name and port.
pub proof fn lemma_handshake_accepted(c: Cipher, greeting: Seq<u8>, request: Seq<u8>)
    requires
        c.is_bijective(),
        greeting.len() >= 1,
        greeting[0] == 5,
        request.len() >= 7,
        request[3] == 3,
        valid_utf8(request_host(request)),
    ensures
        ({
            let (enc, dec) = (c.encode_map(), c.decode_map());
            let g = EventView::FromClient(substitute(enc, greeting));
            let r = EventView::FromClient(substitute(enc, request));
            &&& step_defined(enc, dec, SessionState::AwaitGreeting, g)
            &&& next_step(enc, dec, SessionState::AwaitGreeting, g).0 == SessionState::AwaitRequest
            &&& next_step(enc, dec, SessionState::AwaitGreeting, g).1 matches ActionView::ToClient(
                reply,
            ) && substitute(dec, reply) == seq![5u8, 0u8]
            &&& step_defined(enc, dec, SessionState::AwaitRequest, r)
            &&& next_step(enc, dec, SessionState::AwaitRequest, r) == (
                SessionState::AwaitConnect,
                ActionView::Connect(
                    decode_utf8(request.subrange(5, request.len() - 2)),
                    (request[request.len() - 2] as int * 256 + request[request.len() - 1] as int) as u16,
                ),
            )
        }),
{
    crate::cipher::lemma_cipher_round_trip(c, greeting);
    crate::cipher::lemma_cipher_round_trip(c, request);
    crate::cipher::lemma_cipher_round_trip(c, greeting_reply());
}

/// With a bijective cipher, once relaying, what the client encodes reaches
/// the remote host as the same bytes, and what the remote host sends
/// reaches the client as bytes that decode to what it sent.
pub proof fn lemma_relay_delivers(c: Cipher, data: Seq<u8>)
    requires
        c.is_bijective(),
    ensures
        ({
            let (enc, dec) = (c.encode_map(), c.decode_map());
            let up = EventView::FromClient(substitute(enc, data));
            let down = EventView::FromRemote(data);
            &&& step_defined(enc, dec, SessionState::Relaying, up)
            &&& next_step(enc, dec, SessionState::Relaying, up) == (
                SessionState::Relaying,
                ActionView::ToRemote(data),
            )
            &&& step_defined(enc, dec, SessionState::Relaying, down)
            &&& next_step(enc, dec, SessionState::Relaying, down).1 matches ActionView::ToClient(
                sent,
            ) && substitute(dec, sent) == data
        }),
{
    crate::cipher::lemma_cipher_round_trip(c, data);
}

/// A greeting is accepted exactly when its decoded first byte is 5: any
/// other version byte (4 for SOCKS4, or the `G` of an HTTP request) closes
/// the session with `NotSocks5`, and an accepted greeting is answered with
/// the encoding of the bytes 5, 0.
pub proof fn lemma_greeting_decision(enc: Map<u8, u8>, dec: Map<u8, u8>, raw: Seq<u8>)
    requires
        raw.len() >= 1,
    ensures
        ({
            let version = substitute(dec, raw)[0];
            let (next, action) = next_step(
                enc,
                dec,
                SessionState::AwaitGreeting,
                EventView::FromClient(raw),
            );
            &&& version != 5 ==> next == SessionState::Closed && action == ActionView::Fail(
                HandshakeError::NotSocks5,
            )
            &&& version == 5 ==> next == SessionState::AwaitRequest && action == ActionView::ToClient(
                substitute(enc, seq![5u8, 0u8]),
            )
            &&& next == SessionState::AwaitRequest <==> version == 5
        }),
{
}

/// A request is served exactly when its decoded address type (byte 3) is 3:
/// any other type (1 for IPv4, 4 for IPv6, ...) closes the session with
/// `NotDomain`. A served request connects to the UTF-8 text of bytes 5 up to
/// the last two, at the port those last two bytes give, high byte first.
pub proof fn lemma_request_decision(enc: Map<u8, u8>, dec: Map<u8, u8>, raw: Seq<u8>)
    requires
        raw.len() >= 4,
    ensures
        ({
            let req = substitute(dec, raw);
            let n = req.len();
            let (next, action) = next_step(
                enc,
                dec,
                SessionState::AwaitRequest,
                EventView::FromClient(raw),
            );
            &&& req[3] != 3 ==> next == SessionState::Closed && action == ActionView::Fail(
                HandshakeError::NotDomain,
            )
            &&& req[3] == 3 ==> next == SessionState::AwaitConnect && action == ActionView::Connect(
                decode_utf8(req.subrange(5, n - 2)),
                (req[n - 2] as int * 256 + req[n - 1] as int) as u16,
            )
            &&& action is Connect ==> req[3] == 3
        }),
{
}

/// Once the remote host is connected the session relays, and the reply it
/// sends is the encoding of the SOCKS5 success reply 5, 0, 0, 1, 0, 0, 0, 0,
/// 0, 0: with a bijective cipher the client decodes it back to exactly those
/// bytes.
pub proof fn lemma_connected_reply(c: Cipher)
    ensures
        ({
            let (enc, dec) = (c.encode_map(), c.decode_map());
            let success = seq![5u8, 0u8, 0u8, 1u8, 0u8, 0u8, 0u8, 0u8, 0u8, 0u8];
            let (next, action) = next_step(
                enc,
                dec,
                SessionState::AwaitConnect,
                EventView::RemoteConnected,
            );
            &&& next == SessionState::Relaying
            &&& action == ActionView::ToClient(substitute(enc, success))
            &&& c.is_bijective() ==> step_defined(
                enc,
                dec,
                SessionState::AwaitConnect,
                EventView::RemoteConnected,
            ) && (action matches ActionView::ToClient(reply) && substitute(dec, reply) == success)
        }),
{
    let success = seq![5u8, 0u8, 0u8, 1u8, 0u8, 0u8, 0u8, 0u8, 0u8, 0u8];
    assert(connect_reply() == success);
    if c.is_bijective() {
        crate::cipher::lemma_cipher_round_trip(c, success);
    }
}

/// Relaying goes on until the caller stops it: in `Relaying` every event,
/// of any size, leaves the session in `Relaying`. Client bytes go to the
/// remote host decoded, remote bytes go to the client encoded, one output
/// byte per input byte.
pub proof fn lemma_relaying_persists(
    enc: Map<u8, u8>,
    dec: Map<u8, u8>,
    event: EventView,
)
    ensures
        next_step(enc, dec, SessionState::Relaying, event).0 == SessionState::Relaying,
        event matches EventView::FromClient(raw) ==> next_step(
            enc,
            dec,
            SessionState::Relaying,
            event,
        ).1 == ActionView::ToRemote(substitute(dec, raw)),
        event matches EventView::FromRemote(raw) ==> next_step(
            enc,
            dec,
            SessionState::Relaying,
            event,
        ).1 == ActionView::ToClient(substitute(enc, raw)),
        event matches EventView::FromClient(raw) ==> next_step(
            enc,
            dec,
            SessionState::Relaying,
            event,
        ).1 matches ActionView::ToRemote(out) && out.len() == raw.len(),
{
}

} // verus!
