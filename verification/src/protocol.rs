//! The exchanges that follow a handshake, each as one call on the bytes that
//! the client has sent and the bytes that go back.
//!
//! An exchange gives up where a packet does not carry the id that its state
//! expects, or where the reader is not intact once the packet is read. It
//! then answers nothing for that packet.
use vstd::prelude::*;
use vstd::utf8::encode_utf8;
use crate::identity::{uuid_text, uuid_to_string};
use crate::packets::{
    header_bytes, legacy_ping_read, lemma_header_round_trip, lemma_login_start_round_trip,
    lemma_ping_round_trip, login_start_bytes, login_start_read, ping_bytes, ping_read,
    pong_bytes, status_request_read, LegacyPing, LegacyPingResponse, LoginStart, LoginStartView,
    PacketHeader, Ping, Pong, StatusRequest, LEGACY_PING_RESPONSE, PACKET_ID_PING,
    PACKET_ID_ZERO,
};
use crate::reader::{Input, Reader};
use crate::scalar::be_value;
use crate::status::{status_response, StatusResponse};
use crate::text::MAX_STRING_BYTES;
use crate::varint::{groups, varint_bytes};

verus! {

/// What is known of a login, as plain text and numbers.
#[derive(Clone, Debug, PartialEq, Eq)]
pub struct LoginInfo {
    pub ip: String,
    pub protocol: i32,
    pub mc_version: String,
    pub hostname: String,
    pub port: u16,
    pub player_name: String,
    pub uuid: String,
}

/// A [`LoginInfo`] as a value of specifications.
pub struct LoginInfoView {
    pub ip: Seq<char>,
    pub protocol: i32,
    pub mc_version: Seq<char>,
    pub hostname: Seq<char>,
    pub port: u16,
    pub player_name: Seq<char>,
    pub uuid: Seq<char>,
}

impl View for LoginInfo {
    type V = LoginInfoView;

    open spec fn view(&self) -> LoginInfoView {
        LoginInfoView {
            ip: self.ip@,
            protocol: self.protocol,
            mc_version: self.mc_version@,
            hostname: self.hostname@,
            port: self.port,
            player_name: self.player_name@,
            uuid: self.uuid@,
        }
    }
}

/// The record of which nothing is known yet.
pub open spec fn blank_login() -> LoginInfoView {
    LoginInfoView {
        ip: Seq::empty(),
        protocol: 0,
        mc_version: Seq::empty(),
        hostname: Seq::empty(),
        port: 0,
        player_name: Seq::empty(),
        uuid: Seq::empty(),
    }
}

impl Default for LoginInfo {
    fn default() -> (info: LoginInfo)
        ensures
            info@ == blank_login(),
    {
        LoginInfo {
            ip: String::new(),
            protocol: 0,
            mc_version: String::new(),
            hostname: String::new(),
            port: 0,
            player_name: String::new(),
            uuid: String::new(),
        }
    }
}

/// The answer to a status request from a client that claims `version`:
/// whether there is one, the input behind the request, and the bytes to send.
pub open spec fn status_exchange(input: Input, version: i32) -> (bool, Input, Seq<u8>) {
    let (request, rest) = status_request_read(input);
    if request._header.id == PACKET_ID_ZERO && rest.intact() {
        match status_response(version) {
            Some(bytes) => (true, rest, bytes),
            None => (false, rest, Seq::empty()),
        }
    } else {
        (false, rest, Seq::empty())
    }
}

/// The answer to a ping: whether there is one, the input behind the ping, and
/// the bytes to send.
pub open spec fn ping_exchange(input: Input) -> (bool, Input, Seq<u8>) {
    let (ping, rest) = ping_read(input);
    if ping._header.id == PACKET_ID_PING && rest.intact() {
        (true, rest, pong_bytes(ping.payload))
    } else {
        (false, rest, Seq::empty())
    }
}

/// The whole status exchange: the request and its answer, then, where that
/// went well, the ping and its answer.
pub open spec fn full_status_exchange(input: Input, version: i32) -> (bool, Input, Seq<u8>) {
    let (answered, rest, response) = status_exchange(input, version);
    if answered {
        let (echoed, end, pong) = ping_exchange(rest);
        (echoed, end, response + pong)
    } else {
        (false, rest, response)
    }
}

/// A login start that can be taken at its word, and the input behind the
/// packet.
pub open spec fn login_exchange(input: Input) -> (Option<LoginStartView>, Input) {
    let (login, rest) = login_start_read(input);
    if login.header.id == PACKET_ID_ZERO && rest.intact() {
        (Some(login), rest)
    } else {
        (None, rest)
    }
}

/// The record that `send_login` makes of a login start: the name and the
/// text of the UUID, and nothing else yet.
pub open spec fn login_info(login: LoginStartView) -> LoginInfoView {
    LoginInfoView { player_name: login.player_name, uuid: uuid_text(login.uuid), ..blank_login() }
}

/// Reads a status request and answers it for a client that claims
/// `version`. Says whether it answered.
pub fn answer_status_request(r: &mut Reader, w: &mut Vec<u8>, version: i32) -> (answered: bool)
    ensures
        (answered, final(r)@, final(w)@) == ({
            let (answered, rest, reply) = status_exchange(old(r)@, version);
            (answered, rest, old(w)@ + reply)
        }),
{
    let request = StatusRequest::new(r);
    if request._header.id != PACKET_ID_ZERO || !r.is_intact() {
        assert(w@ == old(w)@ + Seq::<u8>::empty());
        return false;
    }
    let sent = StatusResponse::send(w, version);
    assert(w@ == old(w)@ + status_exchange(old(r)@, version).2);
    sent
}

/// Reads a ping and echoes it. Says whether it answered.
pub fn answer_ping(r: &mut Reader, w: &mut Vec<u8>) -> (answered: bool)
    ensures
        (answered, final(r)@, final(w)@) == ({
            let (answered, rest, reply) = ping_exchange(old(r)@);
            (answered, rest, old(w)@ + reply)
        }),
{
    let ping = Ping::new(r);
    if ping._header.id != PACKET_ID_PING || !r.is_intact() {
        assert(w@ == old(w)@ + Seq::<u8>::empty());
        return false;
    }
    Pong::send(w, ping.payload);
    true
}

/// Reads a login start. Hands it out where it can be taken at its word.
pub fn accept_login(r: &mut Reader) -> (login: Option<LoginStart>)
    ensures
        final(r)@ == login_exchange(old(r)@).1,
        match login {
            Some(login) => login_exchange(old(r)@).0 == Some(login@),
            None => login_exchange(old(r)@).0 is None,
        },
{
    let login = LoginStart::new(r);
    if login._header.id != PACKET_ID_ZERO || !r.is_intact() {
        return None;
    }
    Some(login)
}

/// Runs the status exchange for a client that claims `protocol`: request and
/// response, ping and pong. No record comes of it.
pub fn send_status(r: &mut Reader, w: &mut Vec<u8>, protocol: i32) -> (record: Option<LoginInfo>)
    ensures
        record is None,
        final(r)@ == full_status_exchange(old(r)@, protocol).1,
        final(w)@ == old(w)@ + full_status_exchange(old(r)@, protocol).2,
{
    if answer_status_request(r, w, protocol) {
        let ghost response = w@;
        answer_ping(r, w);
        assert(w@ == old(w)@ + full_status_exchange(old(r)@, protocol).2);
    }
    None
}

/// Reads a legacy ping and answers it. The answer is the same for every ping,
/// and it is sent whatever the ping held and however much of it was there.
pub fn send_legacy_ping(r: &mut Reader, w: &mut Vec<u8>) -> (ping: LegacyPing)
    ensures
        (ping@, final(r)@) == legacy_ping_read(old(r)@),
        final(w)@ == old(w)@ + LEGACY_PING_RESPONSE@,
{
    let ping = LegacyPing::new(r);
    LegacyPingResponse::send(w);
    ping
}

/// Reads a login start and makes a record of it: the player's name and the
/// text of the UUID. There is no record where the packet has the wrong id or
/// the reader is not intact behind it.
pub fn send_login(r: &mut Reader) -> (record: Option<LoginInfo>)
    ensures
        final(r)@ == login_exchange(old(r)@).1,
        match record {
            Some(info) => login_exchange(old(r)@).0 matches Some(login) && info@ == login_info(
                login,
            ),
            None => login_exchange(old(r)@).0 is None,
        },
{
    match accept_login(r) {
        Some(login) => {
            let blank = LoginInfo::default();
            Some(
                LoginInfo {
                    ip: blank.ip,
                    protocol: blank.protocol,
                    mc_version: blank.mc_version,
                    hostname: blank.hostname,
                    port: blank.port,
                    player_name: login.player_name,
                    uuid: uuid_to_string(login.uuid),
                },
            )
        },
        None => None,
    }
}

/// A status request that arrived whole and has the right id is answered with
/// the status response, where there is one.
pub proof fn lemma_status_request_is_answered(request: PacketHeader, version: i32, rest: Input)
    requires
        request.id == PACKET_ID_ZERO,
        rest.intact(),
    ensures
        status_exchange(Input { bytes: header_bytes(request) + rest.bytes, ..rest }, version)
            == match status_response(version) {
            Some(response) => (true, rest, response),
            None => (false, rest, Seq::<u8>::empty()),
        },
{
    lemma_header_round_trip(request, rest);
}

/// A ping that arrived whole and has the right id is echoed byte for byte:
/// the pong is the length 9, the id 1, and the eight bytes of the ping's
/// payload as they came.
pub proof fn lemma_ping_is_echoed(ping: PacketHeader, payload: Seq<u8>, rest: Input)
    requires
        ping.id == PACKET_ID_PING,
        payload.len() == 8,
        rest.intact(),
    ensures
        ping_exchange(Input { bytes: ping_bytes(ping, payload) + rest.bytes, ..rest }) == (
            true,
            rest,
            seq![9u8, 1u8] + payload,
        ),
{
    lemma_ping_round_trip(ping, payload, rest);
    reveal_with_fuel(groups, 1);
    assert(varint_bytes(9) + varint_bytes(PACKET_ID_PING) == seq![9u8, 1u8]);
}

/// A login start that arrived whole, has the right id and a name of at most
/// 255 bytes is taken at its word. Its UUID is the number that the sixteen
/// bytes spell when read from the last to the first.
pub proof fn lemma_login_start_is_accepted(
    header: PacketHeader,
    player_name: Seq<char>,
    uuid: Seq<u8>,
    rest: Input,
)
    requires
        header.id == PACKET_ID_ZERO,
        encode_utf8(player_name).len() <= MAX_STRING_BYTES,
        uuid.len() == 16,
        rest.intact(),
    ensures
        login_exchange(
            Input { bytes: login_start_bytes(header, player_name, uuid) + rest.bytes, ..rest },
        ) == (
            Some(LoginStartView { header, player_name, uuid: be_value(uuid.reverse()) as u128 }),
            rest,
        ),
{
    lemma_login_start_round_trip(header, player_name, uuid, rest);
}

} // verus!
