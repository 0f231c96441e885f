//! The state machine of one connection.
//!
//! A connection starts by looking at its first byte, which tells the dialect.
//! A legacy client is answered at once. A modern client sends a handshake and
//! goes on to the status exchange or to a login. Every path ends in
//! [`ConnectionState::Terminal`], and no step leads back.
//!
//! The machine reads from a [`Reader`] and appends what is to be sent to a
//! vector; it touches no socket. Whoever owns the socket calls [`step`] with
//! the bytes that have arrived, sends what the step wrote, and hands in the
//! bytes behind the reader's position with the next call. Where a step found
//! the input truncated and the peer may still send, the caller keeps the old
//! state and calls again with more.
use vstd::prelude::*;
use vstd::utf8::encode_utf8;
use crate::formats::{login_event, LoginEvent, LoginEventView};
use crate::packets::{
    handshake_bytes, handshake_read, header_bytes, legacy_ping_read, lemma_handshake_round_trip,
    login_start_bytes, login_start_read, ping_bytes, Handshake, HandshakeView, LegacyPing,
    LegacyPingView, LoginStart, LoginStartView, PacketHeader, LEGACY_PING_ID,
    LEGACY_PING_RESPONSE, NEXT_STATE_LOGIN, NEXT_STATE_STATUS, PACKET_ID_PING, PACKET_ID_ZERO,
};
use crate::protocol::{
    accept_login, answer_ping, answer_status_request, lemma_login_start_is_accepted,
    lemma_ping_is_echoed, lemma_status_request_is_answered, login_exchange, ping_exchange,
    send_legacy_ping, status_exchange,
};
use crate::reader::{Input, Reader};
use crate::scalar::be_value;
use crate::status::status_response;
use crate::text::MAX_STRING_BYTES;
use crate::varint::{lemma_varint_len, varint_bytes};
use crate::versions::modern_version_name;

verus! {

/// How a connection ended.
#[derive(Clone, Debug, PartialEq, Eq)]
pub enum Ending {
    /// A legacy ping was answered.
    LegacyPing(LegacyPing),
    /// The status exchange ran to the pong.
    Status(Handshake),
    /// A client logged in.
    Login(Handshake, LoginStart),
    /// The client broke the protocol, or left in the middle of a packet.
    Aborted,
}

/// An [`Ending`] as a value of specifications.
pub enum EndingView {
    LegacyPing(LegacyPingView),
    Status(HandshakeView),
    Login(HandshakeView, LoginStartView),
    Aborted,
}

impl View for Ending {
    type V = EndingView;

    open spec fn view(&self) -> EndingView {
        match self {
            Ending::LegacyPing(ping) => EndingView::LegacyPing(ping@),
            Ending::Status(handshake) => EndingView::Status(handshake@),
            Ending::Login(handshake, login) => EndingView::Login(handshake@, login@),
            Ending::Aborted => EndingView::Aborted,
        }
    }
}

/// The record that an ending leaves behind: that of the login, where the
/// connection ended as one, and none otherwise.
pub open spec fn record_of(ending: EndingView, ip: Seq<char>, timestamp: i64) -> Option<
    LoginEventView,
> {
    match ending {
        EndingView::Login(handshake, login) => Some(login_event(ip, handshake, login, timestamp)),
        _ => None,
    }
}

impl Ending {
    /// The record that the ending leaves behind, for a client at the address
    /// `ip` and an ending at the time `timestamp`. Only a login leaves one.
    pub fn login_event(&self, ip: String, timestamp: i64) -> (event: Option<LoginEvent>)
        ensures
            match event {
                Some(event) => record_of(self@, ip@, timestamp) == Some(event@),
                None => record_of(self@, ip@, timestamp) is None,
            },
    {
        match self {
            Ending::Login(handshake, login) => Some(
                LoginEvent::new(ip, handshake, login, timestamp),
            ),
            _ => None,
        }
    }
}

/// Where a connection stands.
#[derive(Clone, Debug, PartialEq, Eq)]
pub enum ConnectionState {
    /// Nothing has been read.
    Start,
    /// The first byte announced a legacy ping.
    LegacyPing,
    /// The first byte announced a modern client; its handshake is next.
    Handshaking,
    /// The handshake asked for the status; the request is next.
    Status(Handshake),
    /// The status has been sent; the ping is next.
    Ping(Handshake),
    /// The handshake asked to log in; the login start is next.
    Login(Handshake),
    /// The connection is over.
    Terminal(Ending),
}

/// A [`ConnectionState`] as a value of specifications.
pub enum ConnectionStateView {
    Start,
    LegacyPing,
    Handshaking,
    Status(HandshakeView),
    Ping(HandshakeView),
    Login(HandshakeView),
    Terminal(EndingView),
}

impl View for ConnectionState {
    type V = ConnectionStateView;

    open spec fn view(&self) -> ConnectionStateView {
        match self {
            ConnectionState::Start => ConnectionStateView::Start,
            ConnectionState::LegacyPing => ConnectionStateView::LegacyPing,
            ConnectionState::Handshaking => ConnectionStateView::Handshaking,
            ConnectionState::Status(handshake) => ConnectionStateView::Status(handshake@),
            ConnectionState::Ping(handshake) => ConnectionStateView::Ping(handshake@),
            ConnectionState::Login(handshake) => ConnectionStateView::Login(handshake@),
            ConnectionState::Terminal(ending) => ConnectionStateView::Terminal(ending@),
        }
    }
}

impl ConnectionState {
    /// Whether the connection is over.
    pub fn is_terminal(&self) -> (over: bool)
        ensures
            over == (self@ is Terminal),
    {
        match self {
            ConnectionState::Terminal(_) => true,
            _ => false,
        }
    }
}

impl ConnectionStateView {
    /// Whether the connection ended as a login.
    pub open spec fn ended_as_login(self) -> bool {
        self matches ConnectionStateView::Terminal(ending) && ending is Login
    }

    /// Whether the connection ended as a status exchange.
    pub open spec fn ended_as_status(self) -> bool {
        self matches ConnectionStateView::Terminal(ending) && ending is Status
    }

    /// The most steps that a connection in this state can still take.
    pub open spec fn rank(self) -> nat {
        match self {
            ConnectionStateView::Start => 4,
            ConnectionStateView::LegacyPing => 1,
            ConnectionStateView::Handshaking => 3,
            ConnectionStateView::Status(_) => 2,
            ConnectionStateView::Ping(_) => 1,
            ConnectionStateView::Login(_) => 1,
            ConnectionStateView::Terminal(_) => 0,
        }
    }
}

/// What one step comes to.
#[verifier::ext_equal]
pub struct Step {
    /// The state after the step.
    pub next: ConnectionStateView,
    /// The input after the step.
    pub rest: Input,
    /// The bytes to send.
    pub reply: Seq<u8>,
}

/// The state that follows a handshake: the exchange that it asks for, if it
/// is a handshake by its id, was all there, and asks for one of the two.
pub open spec fn after_handshake(handshake: HandshakeView, intact: bool) -> ConnectionStateView {
    if handshake.header.id != PACKET_ID_ZERO || !intact {
        ConnectionStateView::Terminal(EndingView::Aborted)
    } else if handshake.state == NEXT_STATE_STATUS {
        ConnectionStateView::Status(handshake)
    } else if handshake.state == NEXT_STATE_LOGIN {
        ConnectionStateView::Login(handshake)
    } else {
        ConnectionStateView::Terminal(EndingView::Aborted)
    }
}

/// One step of a connection in `state` on `input`.
#[verifier::opaque]
pub open spec fn step_of(state: ConnectionStateView, input: Input) -> Step {
    match state {
        ConnectionStateView::Start => Step {
            next: if input.first() == Some(LEGACY_PING_ID) {
                ConnectionStateView::LegacyPing
            } else {
                ConnectionStateView::Handshaking
            },
            rest: input,
            reply: Seq::empty(),
        },
        ConnectionStateView::LegacyPing => {
            let (ping, rest) = legacy_ping_read(input);
            Step {
                next: ConnectionStateView::Terminal(EndingView::LegacyPing(ping)),
                rest,
                reply: LEGACY_PING_RESPONSE@,
            }
        },
        ConnectionStateView::Handshaking => {
            let (handshake, rest) = handshake_read(input);
            Step { next: after_handshake(handshake, rest.intact()), rest, reply: Seq::empty() }
        },
        ConnectionStateView::Status(handshake) => {
            let (answered, rest, reply) = status_exchange(input, handshake.version);
            Step {
                next: if answered {
                    ConnectionStateView::Ping(handshake)
                } else {
                    ConnectionStateView::Terminal(EndingView::Aborted)
                },
                rest,
                reply,
            }
        },
        ConnectionStateView::Ping(handshake) => {
            let (answered, rest, reply) = ping_exchange(input);
            Step {
                next: ConnectionStateView::Terminal(
                    if answered {
                        EndingView::Status(handshake)
                    } else {
                        EndingView::Aborted
                    },
                ),
                rest,
                reply,
            }
        },
        ConnectionStateView::Login(handshake) => {
            let (login, rest) = login_exchange(input);
            Step {
                next: ConnectionStateView::Terminal(
                    match login {
                        Some(login) => EndingView::Login(handshake, login),
                        None => EndingView::Aborted,
                    },
                ),
                rest,
                reply: Seq::empty(),
            }
        },
        ConnectionStateView::Terminal(_) => Step { next: state, rest: input, reply: Seq::empty() },
    }
}

/// A connection in `state` on `input`, taken through at most `steps` steps:
/// the state it reaches, the input that is left, and all that was sent.
pub open spec fn run_of(state: ConnectionStateView, input: Input, steps: nat) -> Step
    decreases steps,
{
    if steps == 0 {
        Step { next: state, rest: input, reply: Seq::empty() }
    } else {
        let first = step_of(state, input);
        let then = run_of(first.next, first.rest, (steps - 1) as nat);
        Step { next: then.next, rest: then.rest, reply: first.reply + then.reply }
    }
}

/// A whole connection on `input`, from the first byte to the end.
pub open spec fn connection_of(input: Input) -> Step {
    run_of(ConnectionStateView::Start, input, 4)
}

/// Takes one step: reads what the state expects from `r`, appends the answer
/// to `w`, and gives the state that follows.
pub fn step(state: ConnectionState, r: &mut Reader, w: &mut Vec<u8>) -> (next: ConnectionState)
    ensures
        next@ == step_of(state@, old(r)@).next,
        final(r)@ == step_of(state@, old(r)@).rest,
        final(w)@ == old(w)@ + step_of(state@, old(r)@).reply,
{
    proof {
        reveal(step_of);
        assert(w@ == w@ + Seq::<u8>::empty());
    }
    match state {
        ConnectionState::Start => {
            match r.peek() {
                Some(byte) => {
                    if byte == LEGACY_PING_ID {
                        ConnectionState::LegacyPing
                    } else {
                        ConnectionState::Handshaking
                    }
                },
                None => ConnectionState::Handshaking,
            }
        },
        ConnectionState::LegacyPing => {
            let ping = send_legacy_ping(r, w);
            ConnectionState::Terminal(Ending::LegacyPing(ping))
        },
        ConnectionState::Handshaking => {
            let handshake = Handshake::new(r);
            if handshake._header.id != PACKET_ID_ZERO || !r.is_intact() {
                ConnectionState::Terminal(Ending::Aborted)
            } else if handshake.state == NEXT_STATE_STATUS {
                ConnectionState::Status(handshake)
            } else if handshake.state == NEXT_STATE_LOGIN {
                ConnectionState::Login(handshake)
            } else {
                ConnectionState::Terminal(Ending::Aborted)
            }
        },
        ConnectionState::Status(handshake) => {
            if answer_status_request(r, w, handshake.version) {
                ConnectionState::Ping(handshake)
            } else {
                ConnectionState::Terminal(Ending::Aborted)
            }
        },
        ConnectionState::Ping(handshake) => {
            if answer_ping(r, w) {
                ConnectionState::Terminal(Ending::Status(handshake))
            } else {
                ConnectionState::Terminal(Ending::Aborted)
            }
        },
        ConnectionState::Login(handshake) => {
            match accept_login(r) {
                Some(login) => ConnectionState::Terminal(Ending::Login(handshake, login)),
                None => ConnectionState::Terminal(Ending::Aborted),
            }
        },
        ConnectionState::Terminal(ending) => ConnectionState::Terminal(ending),
    }
}

/// No step leads back: each one brings a connection that is not over closer
/// to its end, and one that is over stays as it is.
pub proof fn lemma_step_advances(state: ConnectionStateView, input: Input)
    ensures
        state is Terminal ==> step_of(state, input) == (Step {
            next: state,
            rest: input,
            reply: Seq::empty(),
        }),
        !(state is Terminal) ==> step_of(state, input).next.rank() < state.rank(),
{
    reveal(step_of);
}

/// Once a connection is over, further steps change nothing.
pub proof fn lemma_run_of_terminal(state: ConnectionStateView, input: Input, steps: nat)
    requires
        state is Terminal,
    ensures
        run_of(state, input, steps) == (Step { next: state, rest: input, reply: Seq::empty() }),
    decreases steps,
{
    if steps > 0 {
        lemma_step_advances(state, input);
        lemma_run_of_terminal(state, input, (steps - 1) as nat);
        assert(Seq::<u8>::empty() + Seq::<u8>::empty() == Seq::<u8>::empty());
    }
}

/// A connection is over after as many steps as its rank says.
pub proof fn lemma_run_ends(state: ConnectionStateView, input: Input, steps: nat)
    requires
        state.rank() <= steps,
    ensures
        run_of(state, input, steps).next is Terminal,
    decreases steps,
{
    if steps > 0 {
        let first = step_of(state, input);
        lemma_step_advances(state, input);
        lemma_run_ends(first.next, first.rest, (steps - 1) as nat);
    }
}

/// Every connection ends: four steps bring any input to a terminal state.
pub proof fn lemma_connection_ends(input: Input)
    ensures
        connection_of(input).next is Terminal,
{
    lemma_run_ends(ConnectionStateView::Start, input, 4);
}

/// The first step tells the dialect by the first byte and consumes nothing.
pub proof fn lemma_step_start(input: Input)
    ensures
        step_of(ConnectionStateView::Start, input) == (Step {
            next: if input.first() == Some(LEGACY_PING_ID) {
                ConnectionStateView::LegacyPing
            } else {
                ConnectionStateView::Handshaking
            },
            rest: input,
            reply: Seq::empty(),
        }),
{
    reveal(step_of);
}

/// The step of a legacy client reads the ping and answers it.
pub proof fn lemma_step_legacy_ping(input: Input)
    ensures
        step_of(ConnectionStateView::LegacyPing, input) == (Step {
            next: ConnectionStateView::Terminal(
                EndingView::LegacyPing(legacy_ping_read(input).0),
            ),
            rest: legacy_ping_read(input).1,
            reply: LEGACY_PING_RESPONSE@,
        }),
{
    reveal(step_of);
}

/// The step of a modern client reads the handshake and answers nothing.
pub proof fn lemma_step_handshaking(input: Input)
    ensures
        step_of(ConnectionStateView::Handshaking, input) == (Step {
            next: after_handshake(handshake_read(input).0, handshake_read(input).1.intact()),
            rest: handshake_read(input).1,
            reply: Seq::empty(),
        }),
{
    reveal(step_of);
}

/// The step of a client that logs in reads the login start and answers
/// nothing.
pub proof fn lemma_step_login(handshake: HandshakeView, input: Input)
    ensures
        step_of(ConnectionStateView::Login(handshake), input) == (Step {
            next: ConnectionStateView::Terminal(
                match login_exchange(input).0 {
                    Some(login) => EndingView::Login(handshake, login),
                    None => EndingView::Aborted,
                },
            ),
            rest: login_exchange(input).1,
            reply: Seq::empty(),
        }),
{
    reveal(step_of);
}

/// The step of a client that asked for the status reads the request and
/// answers it.
pub proof fn lemma_step_status(handshake: HandshakeView, input: Input)
    ensures
        step_of(ConnectionStateView::Status(handshake), input) == (Step {
            next: if status_exchange(input, handshake.version).0 {
                ConnectionStateView::Ping(handshake)
            } else {
                ConnectionStateView::Terminal(EndingView::Aborted)
            },
            rest: status_exchange(input, handshake.version).1,
            reply: status_exchange(input, handshake.version).2,
        }),
{
    reveal(step_of);
}

/// The step of a client that has its status reads the ping and echoes it.
pub proof fn lemma_step_ping(handshake: HandshakeView, input: Input)
    ensures
        step_of(ConnectionStateView::Ping(handshake), input) == (Step {
            next: ConnectionStateView::Terminal(
                if ping_exchange(input).0 {
                    EndingView::Status(handshake)
                } else {
                    EndingView::Aborted
                },
            ),
            rest: ping_exchange(input).1,
            reply: ping_exchange(input).2,
        }),
{
    reveal(step_of);
}

proof fn lemma_login_is_no_status(handshake: HandshakeView, input: Input, steps: nat)
    ensures
        !run_of(ConnectionStateView::Login(handshake), input, steps).next.ended_as_status(),
{
    if steps > 0 {
        lemma_step_login(handshake, input);
        let first = step_of(ConnectionStateView::Login(handshake), input);
        lemma_run_of_terminal(first.next, first.rest, (steps - 1) as nat);
    }
}

proof fn lemma_ping_is_no_login(handshake: HandshakeView, input: Input, steps: nat)
    ensures
        !run_of(ConnectionStateView::Ping(handshake), input, steps).next.ended_as_login(),
{
    if steps > 0 {
        let first = step_of(ConnectionStateView::Ping(handshake), input);
        lemma_step_ping(handshake, input);
        lemma_run_of_terminal(first.next, first.rest, (steps - 1) as nat);
    }
}

proof fn lemma_status_is_no_login(handshake: HandshakeView, input: Input, steps: nat)
    ensures
        !run_of(ConnectionStateView::Status(handshake), input, steps).next.ended_as_login(),
{
    if steps > 0 {
        let first = step_of(ConnectionStateView::Status(handshake), input);
        lemma_step_status(handshake, input);
        if first.next is Terminal {
            lemma_run_of_terminal(first.next, first.rest, (steps - 1) as nat);
        } else {
            lemma_ping_is_no_login(handshake, first.rest, (steps - 1) as nat);
        }
    }
}

/// A first byte of `0xFE` is answered with the legacy response and with
/// nothing else, whatever follows that byte and however little of it there
/// is. The connection ends as a legacy ping, which leaves no login behind.
pub proof fn lemma_legacy_ping_is_always_answered(input: Input)
    requires
        input.first() == Some(LEGACY_PING_ID),
    ensures
        connection_of(input).reply == LEGACY_PING_RESPONSE@,
        connection_of(input).next == ConnectionStateView::Terminal(
            EndingView::LegacyPing(legacy_ping_read(input).0),
        ),
        connection_of(input).rest == legacy_ping_read(input).1,
{
    let rest = legacy_ping_read(input).1;
    let end = ConnectionStateView::Terminal(EndingView::LegacyPing(legacy_ping_read(input).0));
    lemma_step_start(input);
    lemma_step_legacy_ping(input);
    lemma_run_of_terminal(end, rest, 2);
    let third = run_of(end, rest, 2);
    let second = run_of(ConnectionStateView::LegacyPing, input, 3);
    assert(second == (Step {
        next: third.next,
        rest: third.rest,
        reply: LEGACY_PING_RESPONSE@ + third.reply,
    }));
    assert(Seq::<u8>::empty() + (LEGACY_PING_RESPONSE@ + Seq::<u8>::empty())
        == LEGACY_PING_RESPONSE@);
}

/// A modern client whose handshake does not ask for the status or for a
/// login, has the wrong id, or did not arrive whole, is sent nothing: the
/// connection is given up behind the handshake, with no byte written and no
/// further packet read.
pub proof fn lemma_bad_handshake_is_not_answered(input: Input)
    requires
        input.first() != Some(LEGACY_PING_ID),
        ({
            let (handshake, rest) = handshake_read(input);
            ||| handshake.header.id != PACKET_ID_ZERO
            ||| !rest.intact()
            ||| (handshake.state != NEXT_STATE_STATUS && handshake.state != NEXT_STATE_LOGIN)
        }),
    ensures
        connection_of(input).reply == Seq::<u8>::empty(),
        connection_of(input).next == ConnectionStateView::Terminal(EndingView::Aborted),
        connection_of(input).rest == handshake_read(input).1,
{
    let rest = handshake_read(input).1;
    let end = ConnectionStateView::Terminal(EndingView::Aborted);
    lemma_step_start(input);
    lemma_step_handshaking(input);
    lemma_run_of_terminal(end, rest, 2);
    let third = run_of(end, rest, 2);
    let second = run_of(ConnectionStateView::Handshaking, input, 3);
    assert(second == (Step {
        next: third.next,
        rest: third.rest,
        reply: Seq::<u8>::empty() + third.reply,
    }));
    assert(Seq::<u8>::empty() + (Seq::<u8>::empty() + Seq::<u8>::empty()) == Seq::<u8>::empty());
}

/// A connection ends as a login only after a whole, well-formed login
/// sequence: a modern first byte; a handshake with the right id that arrived
/// whole and asks for a login; and a login start with the right id behind
/// which the input is still intact. Nothing is sent on the way.
pub proof fn lemma_login_is_well_formed(input: Input)
    requires
        connection_of(input).next.ended_as_login(),
    ensures
        input.first() != Some(LEGACY_PING_ID),
        ({
            let (handshake, behind) = handshake_read(input);
            let (login, rest) = login_start_read(behind);
            &&& handshake.header.id == PACKET_ID_ZERO
            &&& handshake.state == NEXT_STATE_LOGIN
            &&& behind.intact()
            &&& login.header.id == PACKET_ID_ZERO
            &&& rest.intact()
            &&& connection_of(input).next == ConnectionStateView::Terminal(
                EndingView::Login(handshake, login),
            )
            &&& connection_of(input).rest == rest
            &&& connection_of(input).reply == Seq::<u8>::empty()
        }),
{
    let (handshake, behind) = handshake_read(input);
    lemma_step_start(input);
    if input.first() == Some(LEGACY_PING_ID) {
        lemma_legacy_ping_is_always_answered(input);
    } else {
        lemma_step_handshaking(input);
        let second = run_of(ConnectionStateView::Handshaking, input, 3);
        let next = after_handshake(handshake, behind.intact());
        let third = run_of(next, behind, 2);
        assert(second == (Step {
            next: third.next,
            rest: third.rest,
            reply: Seq::<u8>::empty() + third.reply,
        }));
        assert(connection_of(input) == (Step {
            next: second.next,
            rest: second.rest,
            reply: Seq::<u8>::empty() + second.reply,
        }));
        match next {
            ConnectionStateView::Status(_) => {
                lemma_status_is_no_login(handshake, behind, 2);
            },
            ConnectionStateView::Login(_) => {
                lemma_step_login(handshake, behind);
                let last = step_of(next, behind);
                lemma_run_of_terminal(last.next, last.rest, 1);
                let fourth = run_of(last.next, last.rest, 1);
                assert(third == (Step {
                    next: fourth.next,
                    rest: fourth.rest,
                    reply: Seq::<u8>::empty() + fourth.reply,
                }));
                assert(Seq::<u8>::empty() + (Seq::<u8>::empty() + (Seq::<u8>::empty()
                    + Seq::<u8>::empty())) == Seq::<u8>::empty());
            },
            _ => {
                lemma_run_of_terminal(next, behind, 2);
            },
        }
    }
}

/// A connection ends as a status exchange only after a whole, well-formed
/// one: a modern first byte; a handshake with the right id that arrived whole
/// and asks for the status; a status request that was answered; and a ping
/// that was echoed. What was sent is the status response and the pong, in
/// that order, and nothing else.
pub proof fn lemma_status_is_well_formed(input: Input)
    requires
        connection_of(input).next.ended_as_status(),
    ensures
        input.first() != Some(LEGACY_PING_ID),
        ({
            let (handshake, behind) = handshake_read(input);
            let (answered, between, response) = status_exchange(behind, handshake.version);
            let (echoed, rest, pong) = ping_exchange(between);
            &&& handshake.header.id == PACKET_ID_ZERO
            &&& handshake.state == NEXT_STATE_STATUS
            &&& behind.intact()
            &&& answered
            &&& echoed
            &&& connection_of(input).next == ConnectionStateView::Terminal(
                EndingView::Status(handshake),
            )
            &&& connection_of(input).rest == rest
            &&& connection_of(input).reply == response + pong
        }),
{
    let (handshake, behind) = handshake_read(input);
    lemma_step_start(input);
    if input.first() == Some(LEGACY_PING_ID) {
        lemma_legacy_ping_is_always_answered(input);
    } else {
        lemma_step_handshaking(input);
        let second = run_of(ConnectionStateView::Handshaking, input, 3);
        let next = after_handshake(handshake, behind.intact());
        let third = run_of(next, behind, 2);
        assert(second == (Step {
            next: third.next,
            rest: third.rest,
            reply: Seq::<u8>::empty() + third.reply,
        }));
        assert(connection_of(input) == (Step {
            next: second.next,
            rest: second.rest,
            reply: Seq::<u8>::empty() + second.reply,
        }));
        match next {
            ConnectionStateView::Status(_) => {
                lemma_step_status(handshake, behind);
                let (answered, between, response) = status_exchange(behind, handshake.version);
                let after_status = step_of(next, behind);
                let fourth = run_of(after_status.next, between, 1);
                assert(third == (Step {
                    next: fourth.next,
                    rest: fourth.rest,
                    reply: response + fourth.reply,
                }));
                if answered {
                    lemma_step_ping(handshake, between);
                    let (echoed, rest, pong) = ping_exchange(between);
                    let after_ping = step_of(after_status.next, between);
                    let fifth = run_of(after_ping.next, rest, 0);
                    assert(fourth == (Step {
                        next: fifth.next,
                        rest: fifth.rest,
                        reply: pong + fifth.reply,
                    }));
                    assert(Seq::<u8>::empty() + (Seq::<u8>::empty() + (response + (pong
                        + Seq::<u8>::empty()))) == response + pong);
                } else {
                    lemma_run_of_terminal(after_status.next, between, 1);
                }
            },
            ConnectionStateView::Login(_) => {
                lemma_login_is_no_status(handshake, behind, 2);
            },
            _ => {
                lemma_run_of_terminal(next, behind, 2);
            },
        }
    }
}

proof fn lemma_run_unfolds(state: ConnectionStateView, input: Input, steps: nat)
    requires
        steps > 0,
    ensures
        run_of(state, input, steps) == ({
            let first = step_of(state, input);
            let then = run_of(first.next, first.rest, (steps - 1) as nat);
            Step { next: then.next, rest: then.rest, reply: first.reply + then.reply }
        }),
{
}

proof fn lemma_modern_opening(handshake: HandshakeView, behind: Input)
    requires
        varint_bytes(handshake.header._length)[0] != LEGACY_PING_ID,
        handshake.header.id == PACKET_ID_ZERO,
        handshake.state == NEXT_STATE_STATUS || handshake.state == NEXT_STATE_LOGIN,
        encode_utf8(handshake.hostname).len() <= MAX_STRING_BYTES,
        behind.intact(),
    ensures
        ({
            let input = Input { bytes: handshake_bytes(handshake) + behind.bytes, ..behind };
            let shaken = HandshakeView {
                mc_version: modern_version_name(handshake.version),
                ..handshake
            };
            let next = if handshake.state == NEXT_STATE_STATUS {
                ConnectionStateView::Status(shaken)
            } else {
                ConnectionStateView::Login(shaken)
            };
            connection_of(input) == run_of(next, behind, 2)
        }),
{
    let input = Input { bytes: handshake_bytes(handshake) + behind.bytes, ..behind };
    lemma_varint_len(handshake.header._length);
    assert(input.bytes[0] == varint_bytes(handshake.header._length)[0]);
    lemma_handshake_round_trip(handshake, behind);
    lemma_step_start(input);
    lemma_step_handshaking(input);
    lemma_run_unfolds(ConnectionStateView::Start, input, 4);
    lemma_run_unfolds(ConnectionStateView::Handshaking, input, 3);
    let then = run_of(step_of(ConnectionStateView::Handshaking, input).next, behind, 2);
    assert(Seq::<u8>::empty() + (Seq::<u8>::empty() + then.reply) == then.reply);
}

/// A well-formed login is recorded. A modern client that sends a handshake
/// which asks for a login, and behind it a login start, both with the right
/// id and with texts of at most 255 bytes, ends as a login with the fields
/// that it sent; its UUID is the number that the sixteen bytes spell when
/// read from the last to the first. Nothing is sent to it, and what it sent
/// behind the login start is not touched.
pub proof fn lemma_login_is_recorded(
    handshake: HandshakeView,
    login_header: PacketHeader,
    player_name: Seq<char>,
    uuid: Seq<u8>,
    rest: Input,
)
    requires
        varint_bytes(handshake.header._length)[0] != LEGACY_PING_ID,
        handshake.header.id == PACKET_ID_ZERO,
        handshake.state == NEXT_STATE_LOGIN,
        encode_utf8(handshake.hostname).len() <= MAX_STRING_BYTES,
        login_header.id == PACKET_ID_ZERO,
        encode_utf8(player_name).len() <= MAX_STRING_BYTES,
        uuid.len() == 16,
        rest.intact(),
    ensures
        connection_of(
            Input {
                bytes: handshake_bytes(handshake) + login_start_bytes(
                    login_header,
                    player_name,
                    uuid,
                ) + rest.bytes,
                ..rest
            },
        ) == (Step {
            next: ConnectionStateView::Terminal(
                EndingView::Login(
                    HandshakeView {
                        mc_version: modern_version_name(handshake.version),
                        ..handshake
                    },
                    LoginStartView {
                        header: login_header,
                        player_name,
                        uuid: be_value(uuid.reverse()) as u128,
                    },
                ),
            ),
            rest,
            reply: Seq::empty(),
        }),
{
    let login_bytes = login_start_bytes(login_header, player_name, uuid);
    let behind = Input { bytes: login_bytes + rest.bytes, ..rest };
    let input = Input { bytes: handshake_bytes(handshake) + behind.bytes, ..rest };
    assert(input.bytes == handshake_bytes(handshake) + login_bytes + rest.bytes);
    let shaken = HandshakeView { mc_version: modern_version_name(handshake.version), ..handshake };
    lemma_modern_opening(handshake, behind);
    lemma_login_start_is_accepted(login_header, player_name, uuid, rest);
    lemma_step_login(shaken, behind);
    lemma_run_unfolds(ConnectionStateView::Login(shaken), behind, 2);
    let end = step_of(ConnectionStateView::Login(shaken), behind).next;
    lemma_run_of_terminal(end, rest, 1);
    assert(Seq::<u8>::empty() + Seq::<u8>::empty() == Seq::<u8>::empty());
}

/// A well-formed status exchange is served. A modern client that sends a
/// handshake which asks for the status, then a status request, then a ping,
/// each with the right id, is sent the status response for the protocol
/// number that it claimed and then its ping back: the length 9, the id 1 and
/// the eight bytes of the payload as they came. Where no status response can
/// be made, it is sent nothing and the connection is given up behind the
/// status request.
pub proof fn lemma_status_is_served(
    handshake: HandshakeView,
    request: PacketHeader,
    ping: PacketHeader,
    payload: Seq<u8>,
    rest: Input,
)
    requires
        varint_bytes(handshake.header._length)[0] != LEGACY_PING_ID,
        handshake.header.id == PACKET_ID_ZERO,
        handshake.state == NEXT_STATE_STATUS,
        encode_utf8(handshake.hostname).len() <= MAX_STRING_BYTES,
        request.id == PACKET_ID_ZERO,
        ping.id == PACKET_ID_PING,
        payload.len() == 8,
        rest.intact(),
    ensures
        ({
            let pinged = Input { bytes: ping_bytes(ping, payload) + rest.bytes, ..rest };
            let input = Input {
                bytes: handshake_bytes(handshake) + header_bytes(request) + pinged.bytes,
                ..rest
            };
            let shaken = HandshakeView {
                mc_version: modern_version_name(handshake.version),
                ..handshake
            };
            connection_of(input) == match status_response(handshake.version) {
                Some(response) => Step {
                    next: ConnectionStateView::Terminal(EndingView::Status(shaken)),
                    rest,
                    reply: response + seq![9u8, 1u8] + payload,
                },
                None => Step {
                    next: ConnectionStateView::Terminal(EndingView::Aborted),
                    rest: pinged,
                    reply: Seq::empty(),
                },
            }
        }),
{
    let pinged = Input { bytes: ping_bytes(ping, payload) + rest.bytes, ..rest };
    let requested = Input { bytes: header_bytes(request) + pinged.bytes, ..rest };
    let input = Input { bytes: handshake_bytes(handshake) + requested.bytes, ..rest };
    assert(input.bytes == handshake_bytes(handshake) + header_bytes(request) + pinged.bytes);
    let shaken = HandshakeView { mc_version: modern_version_name(handshake.version), ..handshake };
    lemma_modern_opening(handshake, requested);
    lemma_status_request_is_answered(request, handshake.version, pinged);
    lemma_step_status(shaken, requested);
    lemma_run_unfolds(ConnectionStateView::Status(shaken), requested, 2);
    let after = step_of(ConnectionStateView::Status(shaken), requested);
    match status_response(handshake.version) {
        Some(response) => {
            lemma_ping_is_echoed(ping, payload, rest);
            lemma_step_ping(shaken, pinged);
            lemma_run_unfolds(ConnectionStateView::Ping(shaken), pinged, 1);
            assert(response + ((seq![9u8, 1u8] + payload) + Seq::<u8>::empty()) == response
                + seq![9u8, 1u8] + payload);
        },
        None => {
            lemma_run_of_terminal(after.next, pinged, 1);
            assert(Seq::<u8>::empty() + Seq::<u8>::empty() == Seq::<u8>::empty());
        },
    }
}

/// Runs a whole connection on the bytes in `r`: from the first byte to the
/// end, with every answer appended to `w`.
pub fn run(r: &mut Reader, w: &mut Vec<u8>) -> (ending: Ending)
    ensures
        connection_of(old(r)@).next == ConnectionStateView::Terminal(ending@),
        final(r)@ == connection_of(old(r)@).rest,
        final(w)@ == old(w)@ + connection_of(old(r)@).reply,
{
    let mut state = ConnectionState::Start;
    let mut left: usize = 4;
    let ghost mut sent = Seq::<u8>::empty();
    assert(w@ == old(w)@ + sent);
    loop
        invariant
            state@.rank() <= left <= 4,
            w@ == old(w)@ + sent,
            ({
                let rest = run_of(state@, r@, left as nat);
                connection_of(old(r)@) == (Step {
                    next: rest.next,
                    rest: rest.rest,
                    reply: sent + rest.reply,
                })
            }),
        decreases left,
    {
        match state {
            ConnectionState::Terminal(ending) => {
                proof {
                    lemma_run_of_terminal(ConnectionStateView::Terminal(ending@), r@, left as nat);
                    assert(sent + Seq::<u8>::empty() == sent);
                }
                return ending;
            },
            other => {
                proof {
                    lemma_step_advances(other@, r@);
                    let first = step_of(other@, r@);
                    let then = run_of(first.next, first.rest, (left - 1) as nat);
                    assert(sent + (first.reply + then.reply) == (sent + first.reply) + then.reply);
                    sent = sent + first.reply;
                }
                state = step(other, r, w);
                left = left - 1;
            },
        }
    }
}

} // verus!
