//! The packets of the handshake, status and login exchange.
//!
//! A modern packet opens with a header of two varints, its length and its id.
//! The legacy ping has no header: it opens with its id as one byte.
//!
//! Every decoder reads the fields in the order of the wire and is total: what
//! is missing or refused reads as zero or as the empty string, and the reader
//! keeps the mark of it.
use vstd::prelude::*;
use vstd::utf8::encode_utf8;
use crate::identity::{lemma_uuid_of_wire, uuid_from_le, uuid_from_u128_le};
use crate::reader::{Input, Reader};
use crate::scalar::{
    be_value, lemma_scalar_echo, lemma_scalar_round_trip, read, scalar_bytes, scalar_read, Scalar,
};
use crate::text::{
    legacy_string_bytes, legacy_string_read, lemma_legacy_string_round_trip,
    lemma_string_round_trip, read_legacy_string, read_string, string_bytes, string_read,
    write_bytes, MAX_STRING_BYTES,
};
use crate::varint::{
    lemma_varint_round_trip, read_varint, varint_bytes, varint_read, write_varint,
};
use crate::versions::{legacy_version_name, mc_version, mc_version_legacy, modern_version_name};

verus! {

/// The id of the handshake, of the status request, of the status response and
/// of the login start, each in its own state.
pub const PACKET_ID_ZERO: i32 = 0x00;

/// The id of the ping and of the pong.
pub const PACKET_ID_PING: i32 = 0x01;

/// The first byte of a legacy ping.
pub const LEGACY_PING_ID: u8 = 0xFE;

/// The next state by which a handshake asks for the status exchange.
pub const NEXT_STATE_STATUS: i32 = 1;

/// The next state by which a handshake asks to log in.
pub const NEXT_STATE_LOGIN: i32 = 2;

/// The two varints in front of every modern packet.
#[derive(Clone, Copy, Debug, PartialEq, Eq, Structural)]
pub struct PacketHeader {
    /// The length that the peer announced; nothing is made of it.
    pub _length: i32,
    /// The packet's id.
    pub id: i32,
}

/// What reading a header does to the input, and what it yields.
pub open spec fn header_read(input: Input) -> (PacketHeader, Input) {
    let (length, a) = varint_read(input);
    let (id, b) = varint_read(a);
    (PacketHeader { _length: length, id }, b)
}

/// Reads a header.
pub fn read_header(r: &mut Reader) -> (header: PacketHeader)
    ensures
        (header, final(r)@) == header_read(old(r)@),
{
    let length: i32 = read_varint(r);
    let id: i32 = read_varint(r);
    PacketHeader { _length: length, id }
}

/// The first packet of a modern client.
#[derive(Clone, Debug, PartialEq, Eq)]
pub struct Handshake {
    pub _header: PacketHeader,
    /// The protocol number that the client claims.
    pub version: i32,
    /// The release name of that number.
    pub mc_version: String,
    /// The host name that the client asked for.
    pub hostname: String,
    /// The port that the client asked for.
    pub port: u16,
    /// What the client wants next.
    pub state: i32,
}

/// A [`Handshake`] as a value of specifications.
pub struct HandshakeView {
    pub header: PacketHeader,
    pub version: i32,
    pub mc_version: Seq<char>,
    pub hostname: Seq<char>,
    pub port: u16,
    pub state: i32,
}

impl View for Handshake {
    type V = HandshakeView;

    open spec fn view(&self) -> HandshakeView {
        HandshakeView {
            header: self._header,
            version: self.version,
            mc_version: self.mc_version@,
            hostname: self.hostname@,
            port: self.port,
            state: self.state,
        }
    }
}

/// What reading a handshake does to the input, and what it yields.
pub open spec fn handshake_read(input: Input) -> (HandshakeView, Input) {
    let (header, a) = header_read(input);
    let (version, b) = varint_read(a);
    let (hostname, c) = string_read(b);
    let (port, d) = scalar_read::<u16>(c);
    let (state, e) = varint_read(d);
    (
        HandshakeView {
            header,
            version,
            mc_version: modern_version_name(version),
            hostname,
            port,
            state,
        },
        e,
    )
}

impl Handshake {
    /// Reads a handshake.
    pub fn new(r: &mut Reader) -> (packet: Handshake)
        ensures
            (packet@, final(r)@) == handshake_read(old(r)@),
    {
        let _header = read_header(r);
        let version: i32 = read_varint(r);
        let hostname = read_string(r);
        let port: u16 = read(r);
        let state: i32 = read_varint(r);
        Handshake {
            _header,
            version,
            mc_version: mc_version(version).to_owned(),
            hostname,
            port,
            state,
        }
    }
}

/// The request for the server's description: a header and nothing else.
#[derive(Clone, Copy, Debug, PartialEq, Eq, Structural)]
pub struct StatusRequest {
    pub _header: PacketHeader,
}

/// What reading a status request does to the input, and what it yields.
pub open spec fn status_request_read(input: Input) -> (StatusRequest, Input) {
    let (header, a) = header_read(input);
    (StatusRequest { _header: header }, a)
}

impl StatusRequest {
    /// Reads a status request.
    pub fn new(r: &mut Reader) -> (packet: StatusRequest)
        ensures
            (packet, final(r)@) == status_request_read(old(r)@),
    {
        let _header = read_header(r);
        StatusRequest { _header }
    }
}

/// The ping that follows the status response.
#[derive(Clone, Copy, Debug, PartialEq, Eq, Structural)]
pub struct Ping {
    pub _header: PacketHeader,
    /// Eight bytes of the client's choosing, as a number.
    pub payload: i64,
}

/// What reading a ping does to the input, and what it yields.
pub open spec fn ping_read(input: Input) -> (Ping, Input) {
    let (header, a) = header_read(input);
    let (payload, b) = scalar_read::<i64>(a);
    (Ping { _header: header, payload }, b)
}

impl Ping {
    /// Reads a ping.
    pub fn new(r: &mut Reader) -> (packet: Ping)
        ensures
            (packet, final(r)@) == ping_read(old(r)@),
    {
        let _header = read_header(r);
        let payload: i64 = read(r);
        Ping { _header, payload }
    }
}

/// The answer to a ping.
pub struct Pong;

/// The bytes of a pong: the length of what follows it, the id, and the
/// payload as the ping carried it.
pub open spec fn pong_bytes(payload: i64) -> Seq<u8> {
    varint_bytes(9) + varint_bytes(PACKET_ID_PING) + scalar_bytes(payload)
}

impl Pong {
    /// Appends a pong with `payload` to `w`.
    pub fn send(w: &mut Vec<u8>, payload: i64)
        ensures
            final(w)@ == old(w)@ + pong_bytes(payload),
    {
        write_varint(w, 9);
        write_varint(w, PACKET_ID_PING);
        crate::scalar::write(w, &payload);
        assert(w@ == old(w)@ + pong_bytes(payload));
    }
}

/// The packet by which a client that wants to log in names its player.
#[derive(Clone, Debug, PartialEq, Eq)]
pub struct LoginStart {
    pub _header: PacketHeader,
    /// The player's name.
    pub player_name: String,
    /// The player's UUID, as its number.
    pub uuid: u128,
}

/// A [`LoginStart`] as a value of specifications.
pub struct LoginStartView {
    pub header: PacketHeader,
    pub player_name: Seq<char>,
    pub uuid: u128,
}

impl View for LoginStart {
    type V = LoginStartView;

    open spec fn view(&self) -> LoginStartView {
        LoginStartView {
            header: self._header,
            player_name: self.player_name@,
            uuid: self.uuid,
        }
    }
}

/// What reading a login start does to the input, and what it yields.
///
/// The sixteen bytes of the UUID are the one field that is not read as a
/// big-endian scalar: the UUID's own bytes are those of the wire from the
/// last to the first.
pub open spec fn login_start_read(input: Input) -> (LoginStartView, Input) {
    let (header, a) = header_read(input);
    let (player_name, b) = string_read(a);
    let (raw, c) = scalar_read::<u128>(b);
    (LoginStartView { header, player_name, uuid: uuid_from_le(raw) as u128 }, c)
}

impl LoginStart {
    /// Reads a login start.
    pub fn new(r: &mut Reader) -> (packet: LoginStart)
        ensures
            (packet@, final(r)@) == login_start_read(old(r)@),
    {
        let _header = read_header(r);
        let player_name = read_string(r);
        let raw: u128 = read(r);
        let uuid: u128 = uuid_from_u128_le(raw);
        LoginStart { _header, player_name, uuid }
    }
}

/// The ping of a client of the legacy dialect.
#[derive(Clone, Debug, PartialEq, Eq)]
pub struct LegacyPing {
    /// The host name that the client asked for.
    pub hostname: String,
    /// The protocol number that the client claims.
    pub version: u8,
    /// The release name of that number.
    pub mc_version: String,
    /// The port that the client asked for.
    pub port: i32,
}

/// A [`LegacyPing`] as a value of specifications.
pub struct LegacyPingView {
    pub hostname: Seq<char>,
    pub version: u8,
    pub mc_version: Seq<char>,
    pub port: i32,
}

impl View for LegacyPing {
    type V = LegacyPingView;

    open spec fn view(&self) -> LegacyPingView {
        LegacyPingView {
            hostname: self.hostname@,
            version: self.version,
            mc_version: self.mc_version@,
            port: self.port,
        }
    }
}

/// What reading a legacy ping does to the input, and what it yields.
///
/// In the order of the wire: the id, a second id and a plugin marker of one
/// byte each; a string that names the plugin channel; the length of the rest
/// in sixteen bits; the protocol number in one byte; the host name; the port
/// in thirty-two bits. Only the last three are kept.
pub open spec fn legacy_ping_read(input: Input) -> (LegacyPingView, Input) {
    let (id, a) = scalar_read::<u8>(input);
    let (second_id, b) = scalar_read::<u8>(a);
    let (plugin, c) = scalar_read::<u8>(b);
    let (channel, d) = legacy_string_read(c);
    let (remaining, e) = scalar_read::<i16>(d);
    let (version, f) = scalar_read::<u8>(e);
    let (hostname, g) = legacy_string_read(f);
    let (port, h) = scalar_read::<i32>(g);
    (
        LegacyPingView { hostname, version, mc_version: legacy_version_name(version), port },
        h,
    )
}

impl LegacyPing {
    /// Reads a legacy ping.
    pub fn new(r: &mut Reader) -> (packet: LegacyPing)
        ensures
            (packet@, final(r)@) == legacy_ping_read(old(r)@),
    {
        let _id: u8 = read(r);
        let _second_id: u8 = read(r);
        let _plugin: u8 = read(r);
        let _channel = read_legacy_string(r);
        let _remaining: i16 = read(r);
        let version: u8 = read(r);
        let hostname = read_legacy_string(r);
        let port: i32 = read(r);
        LegacyPing {
            hostname,
            version,
            mc_version: mc_version_legacy(version).to_owned(),
            port,
        }
    }
}

/// The answer to a legacy ping.
pub struct LegacyPingResponse;

/// The answer to every legacy ping, whatever the ping held.
///
/// Behind the id `0xFF` and the number of code units stands a text in
/// UTF-16, big-endian: a section sign and `1`, the protocol number `127`, the
/// release `1.6.4`, the description `A Minecraft Server`, `0` players online
/// and `20` at most, with a zero unit between two of them.
pub const LEGACY_PING_RESPONSE: [u8; 75] = [
    0xFF, 0x00, 0x24,
    0x00, 0xA7, 0x00, 0x31, 0x00, 0x00,
    0x00, 0x31, 0x00, 0x32, 0x00, 0x37, 0x00, 0x00,
    0x00, 0x31, 0x00, 0x2E, 0x00, 0x36, 0x00, 0x2E, 0x00, 0x34, 0x00, 0x00,
    0x00, 0x41, 0x00, 0x20, 0x00, 0x4D, 0x00, 0x69, 0x00, 0x6E, 0x00, 0x65,
    0x00, 0x63, 0x00, 0x72, 0x00, 0x61, 0x00, 0x66, 0x00, 0x74, 0x00, 0x20,
    0x00, 0x53, 0x00, 0x65, 0x00, 0x72, 0x00, 0x76, 0x00, 0x65, 0x00, 0x72,
    0x00, 0x00,
    0x00, 0x30, 0x00, 0x00,
    0x00, 0x32, 0x00, 0x30,
];

/// The bytes of a header.
pub open spec fn header_bytes(header: PacketHeader) -> Seq<u8> {
    varint_bytes(header._length) + varint_bytes(header.id)
}

/// The bytes of a handshake, its fields in the order of the wire.
pub open spec fn handshake_bytes(handshake: HandshakeView) -> Seq<u8> {
    header_bytes(handshake.header) + varint_bytes(handshake.version) + string_bytes(
        handshake.hostname,
    ) + scalar_bytes(handshake.port) + varint_bytes(handshake.state)
}

/// The bytes of a ping with the eight bytes `payload`.
pub open spec fn ping_bytes(header: PacketHeader, payload: Seq<u8>) -> Seq<u8> {
    header_bytes(header) + payload
}

/// The bytes of a login start with the sixteen bytes `uuid` for the UUID.
pub open spec fn login_start_bytes(header: PacketHeader, player_name: Seq<char>, uuid: Seq<u8>) -> Seq<
    u8,
> {
    header_bytes(header) + string_bytes(player_name) + uuid
}

/// Round trip: a header is read as it was written.
pub proof fn lemma_header_round_trip(header: PacketHeader, rest: Input)
    ensures
        header_read(Input { bytes: header_bytes(header) + rest.bytes, ..rest }) == (header, rest),
{
    let behind = Input { bytes: varint_bytes(header.id) + rest.bytes, ..rest };
    assert(header_bytes(header) + rest.bytes == varint_bytes(header._length) + behind.bytes);
    lemma_varint_round_trip(header._length, behind);
    lemma_varint_round_trip(header.id, rest);
}

/// Round trip: a handshake whose host name has at most 255 bytes is read as
/// it was written, with the release name of its protocol number filled in.
pub proof fn lemma_handshake_round_trip(handshake: HandshakeView, rest: Input)
    requires
        encode_utf8(handshake.hostname).len() <= MAX_STRING_BYTES,
    ensures
        handshake_read(Input { bytes: handshake_bytes(handshake) + rest.bytes, ..rest }) == (
            HandshakeView { mc_version: modern_version_name(handshake.version), ..handshake },
            rest,
        ),
{
    let e = Input { bytes: varint_bytes(handshake.state) + rest.bytes, ..rest };
    let d = Input { bytes: scalar_bytes(handshake.port) + e.bytes, ..rest };
    let c = Input { bytes: string_bytes(handshake.hostname) + d.bytes, ..rest };
    let b = Input { bytes: varint_bytes(handshake.version) + c.bytes, ..rest };
    assert(handshake_bytes(handshake) + rest.bytes == header_bytes(handshake.header) + b.bytes);
    lemma_header_round_trip(handshake.header, b);
    lemma_varint_round_trip(handshake.version, c);
    lemma_string_round_trip(handshake.hostname, d);
    lemma_scalar_round_trip(handshake.port, e);
    lemma_varint_round_trip(handshake.state, rest);
}

/// Round trip: a ping is read as it was written, its payload as the number
/// that the eight bytes spell.
pub proof fn lemma_ping_round_trip(header: PacketHeader, payload: Seq<u8>, rest: Input)
    requires
        payload.len() == 8,
    ensures
        ping_read(Input { bytes: ping_bytes(header, payload) + rest.bytes, ..rest }) == (
            Ping { _header: header, payload: i64::from_wire(be_value(payload)) },
            rest,
        ),
        scalar_bytes(i64::from_wire(be_value(payload))) == payload,
{
    let behind = Input { bytes: payload + rest.bytes, ..rest };
    assert(ping_bytes(header, payload) + rest.bytes == header_bytes(header) + behind.bytes);
    lemma_header_round_trip(header, behind);
    assert(behind.bytes.take(8) == payload);
    assert(behind.advance(8) =~= rest);
    lemma_scalar_echo::<i64>(payload);
}

/// Round trip: a login start whose name has at most 255 bytes is read as it
/// was written. Its UUID is the number that the sixteen bytes spell when read
/// from the last to the first.
pub proof fn lemma_login_start_round_trip(
    header: PacketHeader,
    player_name: Seq<char>,
    uuid: Seq<u8>,
    rest: Input,
)
    requires
        encode_utf8(player_name).len() <= MAX_STRING_BYTES,
        uuid.len() == 16,
    ensures
        login_start_read(
            Input { bytes: login_start_bytes(header, player_name, uuid) + rest.bytes, ..rest },
        ) == (
            LoginStartView { header, player_name, uuid: be_value(uuid.reverse()) as u128 },
            rest,
        ),
{
    let c = Input { bytes: uuid + rest.bytes, ..rest };
    let b = Input { bytes: string_bytes(player_name) + c.bytes, ..rest };
    assert(login_start_bytes(header, player_name, uuid) + rest.bytes == header_bytes(header)
        + b.bytes);
    lemma_header_round_trip(header, b);
    lemma_string_round_trip(player_name, c);
    assert(c.bytes.take(16) == uuid);
    assert(c.advance(16) =~= rest);
    lemma_uuid_of_wire(c);
}

/// The bytes of a legacy ping: the three leading bytes, the name of the
/// plugin channel, the length of the rest, and the three fields that are
/// kept.
pub open spec fn legacy_ping_bytes(
    lead: Seq<u8>,
    channel: Seq<char>,
    remaining: i16,
    ping: LegacyPingView,
) -> Seq<u8> {
    lead + legacy_string_bytes(channel) + scalar_bytes(remaining) + scalar_bytes(ping.version)
        + legacy_string_bytes(ping.hostname) + scalar_bytes(ping.port)
}

/// Round trip: a legacy ping whose two texts have at most 255 bytes each is
/// read as it was written, whatever its three leading bytes and the length
/// that it announces for its rest.
pub proof fn lemma_legacy_ping_round_trip(
    lead: Seq<u8>,
    channel: Seq<char>,
    remaining: i16,
    ping: LegacyPingView,
    rest: Input,
)
    requires
        lead.len() == 3,
        encode_utf8(channel).len() <= MAX_STRING_BYTES,
        encode_utf8(ping.hostname).len() <= MAX_STRING_BYTES,
    ensures
        legacy_ping_read(
            Input { bytes: legacy_ping_bytes(lead, channel, remaining, ping) + rest.bytes, ..rest },
        ) == (LegacyPingView { mc_version: legacy_version_name(ping.version), ..ping }, rest),
{
    let h = Input { bytes: scalar_bytes(ping.port) + rest.bytes, ..rest };
    let g = Input { bytes: legacy_string_bytes(ping.hostname) + h.bytes, ..rest };
    let f = Input { bytes: scalar_bytes(ping.version) + g.bytes, ..rest };
    let e = Input { bytes: scalar_bytes(remaining) + f.bytes, ..rest };
    let d = Input { bytes: legacy_string_bytes(channel) + e.bytes, ..rest };
    let c = Input { bytes: seq![lead[2]] + d.bytes, ..rest };
    let b = Input { bytes: seq![lead[1]] + c.bytes, ..rest };
    let a = Input { bytes: seq![lead[0]] + b.bytes, ..rest };
    assert(legacy_ping_bytes(lead, channel, remaining, ping) + rest.bytes == a.bytes);
    lemma_one_byte(lead[0], b);
    lemma_one_byte(lead[1], c);
    lemma_one_byte(lead[2], d);
    lemma_legacy_string_round_trip(channel, e);
    lemma_scalar_round_trip(remaining, f);
    lemma_scalar_round_trip(ping.version, g);
    lemma_legacy_string_round_trip(ping.hostname, h);
    lemma_scalar_round_trip(ping.port, rest);
}

proof fn lemma_one_byte(byte: u8, rest: Input)
    ensures
        scalar_read::<u8>(Input { bytes: seq![byte] + rest.bytes, ..rest }) == (byte, rest),
{
    reveal_with_fuel(crate::scalar::be_bytes, 2);
    assert(scalar_bytes(byte) == seq![byte]);
    lemma_scalar_round_trip(byte, rest);
}

/// The shape of the legacy response: the id, then the number of code units
/// in sixteen bits, then that many code units, each with a zero high byte.
pub proof fn lemma_legacy_response_shape()
    ensures
        LEGACY_PING_RESPONSE@.len() == 75,
        LEGACY_PING_RESPONSE@[0] == 0xFF,
        256 * LEGACY_PING_RESPONSE@[1] + LEGACY_PING_RESPONSE@[2] == 36,
        3 + 2 * 36 == LEGACY_PING_RESPONSE@.len(),
        forall|i: int|
            3 <= i < 75 && i % 2 == 1 ==> #[trigger] LEGACY_PING_RESPONSE@[i] == 0,
{
}

impl LegacyPingResponse {
    /// Appends the answer to `w`.
    pub fn send(w: &mut Vec<u8>)
        ensures
            final(w)@ == old(w)@ + LEGACY_PING_RESPONSE@,
    {
        let payload: [u8; 75] = LEGACY_PING_RESPONSE;
        write_bytes(w, payload.as_slice());
    }
}

} // verus!
