//! The server's description, and the packet that carries it.
//!
//! The description travels as a JSON document inside a modern string. This
//! module lays the document out; the quoting of the two free texts in it is
//! left to serde_json.
use vstd::prelude::*;
use vstd::utf8::encode_utf8;
use crate::packets::PACKET_ID_ZERO;
use crate::text::{string_bytes, write_bytes, write_string};
use crate::varint::{lemma_varint_len, varint_bytes, write_varint};
use crate::versions::{
    is_listed, is_modern_protocol, mc_version, modern_version_name, SERVER_PROTOCOL,
};

verus! {

/// The description that the server gives of itself.
pub const DESCRIPTION: &'static str = "A Minecraft Server";

/// The number of players that the server claims to have room for.
pub const MAX_PLAYERS: i32 = 20;

/// The number of players that the server claims to have online.
pub const ONLINE_PLAYERS: i32 = 0;

/// The longest document, in bytes, whose packet still has a length of 32
/// bits.
pub const MAX_DOCUMENT_BYTES: usize = 0x7FFF_FFF9;

/// The version that a status names.
#[derive(Clone, Debug, PartialEq, Eq)]
pub struct StatusVersion {
    pub name: String,
    pub protocol: i32,
}

/// The players that a status counts.
#[derive(Clone, Debug, PartialEq, Eq)]
pub struct StatusPlayers {
    pub max: i32,
    pub online: i32,
    pub sample: Vec<()>,
}

/// The free text of a status.
#[derive(Clone, Debug, PartialEq, Eq)]
pub struct StatusDescription {
    pub text: String,
}

/// What the server answers to a status request.
#[derive(Clone, Debug, PartialEq, Eq)]
pub struct Status {
    pub version: StatusVersion,
    pub players: StatusPlayers,
    pub description: StatusDescription,
}

/// A [`Status`] as a value of specifications.
pub struct StatusView {
    pub name: Seq<char>,
    pub protocol: i32,
    pub max: i32,
    pub online: i32,
    pub sample: nat,
    pub text: Seq<char>,
}

impl View for Status {
    type V = StatusView;

    open spec fn view(&self) -> StatusView {
        StatusView {
            name: self.version.name@,
            protocol: self.version.protocol,
            max: self.players.max,
            online: self.players.online,
            sample: self.players.sample.len() as nat,
            text: self.description.text@,
        }
    }
}

/// The status that names `protocol` and describes the server as `text`.
pub open spec fn status_of(protocol: i32, text: Seq<char>) -> StatusView {
    StatusView {
        name: modern_version_name(protocol),
        protocol,
        max: MAX_PLAYERS,
        online: ONLINE_PLAYERS,
        sample: 0,
        text,
    }
}

impl Status {
    /// The status that names `protocol` and describes the server as
    /// `description`. Nobody is online, and nobody is listed.
    pub fn new(protocol: i32, description: String) -> (status: Status)
        ensures
            status@ == status_of(protocol, description@),
    {
        Status {
            version: StatusVersion { name: mc_version(protocol).to_owned(), protocol },
            players: StatusPlayers { max: MAX_PLAYERS, online: ONLINE_PLAYERS, sample: Vec::new() },
            description: StatusDescription { text: description },
        }
    }
}

/// The character of a digit.
pub open spec fn digit(n: nat) -> char {
    (48 + n) as char
}

/// The decimal digits of `n`, without leading zeros.
pub open spec fn digits(n: nat) -> Seq<char>
    decreases n,
{
    if n < 10 {
        seq![digit(n)]
    } else {
        digits(n / 10).push(digit(n % 10))
    }
}

/// The decimal text of `value`, as JSON writes a number.
pub open spec fn decimal(value: int) -> Seq<char> {
    if value < 0 {
        seq!['-'] + digits((-value) as nat)
    } else {
        digits(value as nat)
    }
}

/// `n` times `null`, with commas between: the elements of the player sample,
/// none of which says anything.
pub open spec fn nulls(n: nat) -> Seq<char>
    decreases n,
{
    if n == 0 {
        Seq::empty()
    } else if n == 1 {
        "null"@
    } else {
        nulls((n - 1) as nat) + ",null"@
    }
}

/// What `serde_json::to_string` makes of a string: the text between double
/// quotes, with the escapes that JSON asks for; or nothing, where it reports
/// an error.
pub uninterp spec fn json_string(text: Seq<char>) -> Option<Seq<char>>;

/// `serde_json::to_string` of the serde_json crate, on a string. The result
/// depends on the text alone.
#[verifier::external_body]
fn to_json_string(text: &str) -> (out: Option<String>)
    ensures
        match out {
            Some(json) => json_string(text@) == Some(json@),
            None => json_string(text@) is None,
        },
{
    serde_json::to_string(text).ok()
}

/// The document of a status whose two texts are quoted as `name` and `text`.
pub open spec fn status_document(status: StatusView, name: Seq<char>, text: Seq<char>) -> Seq<
    char,
> {
    "{\"version\":{\"name\":"@ + name + ",\"protocol\":"@ + decimal(status.protocol as int)
        + "},\"players\":{\"max\":"@ + decimal(status.max as int) + ",\"online\":"@ + decimal(
        status.online as int,
    ) + ",\"sample\":["@ + nulls(status.sample) + "]},\"description\":{\"text\":"@ + text
        + "}}"@
}

/// The JSON document of a status, or nothing where one of its texts could
/// not be quoted.
pub open spec fn status_json(status: StatusView) -> Option<Seq<char>> {
    match (json_string(status.name), json_string(status.text)) {
        (Some(name), Some(text)) => Some(status_document(status, name, text)),
        _ => None,
    }
}

fn digit_str(n: u32) -> (s: &'static str)
    requires
        n < 10,
    ensures
        s@ == seq![digit(n as nat)],
{
    proof {
        reveal_strlit("0");
        reveal_strlit("1");
        reveal_strlit("2");
        reveal_strlit("3");
        reveal_strlit("4");
        reveal_strlit("5");
        reveal_strlit("6");
        reveal_strlit("7");
        reveal_strlit("8");
        reveal_strlit("9");
    }
    let s = match n {
        0 => "0",
        1 => "1",
        2 => "2",
        3 => "3",
        4 => "4",
        5 => "5",
        6 => "6",
        7 => "7",
        8 => "8",
        _ => "9",
    };
    assert(s@ =~= seq![digit(n as nat)]);
    s
}

fn push_digits(out: &mut String, n: u32)
    ensures
        final(out)@ == old(out)@ + digits(n as nat),
    decreases n,
{
    if n >= 10 {
        push_digits(out, n / 10);
    }
    out.append(digit_str(n % 10));
    assert(out@ =~= old(out)@ + digits(n as nat));
}

/// Appends the decimal text of `value` to `out`.
pub fn push_decimal(out: &mut String, value: i32)
    ensures
        final(out)@ == old(out)@ + decimal(value as int),
{
    if value < 0 {
        proof {
            reveal_strlit("-");
        }
        out.append("-");
        push_digits(out, (-(value as i64)) as u32);
    } else {
        push_digits(out, value as u32);
    }
    assert(out@ =~= old(out)@ + decimal(value as int));
}

fn push_nulls(out: &mut String, n: usize)
    ensures
        final(out)@ == old(out)@ + nulls(n as nat),
{
    let mut i: usize = 0;
    assert(out@ =~= old(out)@ + nulls(0));
    while i < n
        invariant
            i <= n,
            out@ == old(out)@ + nulls(i as nat),
        decreases n - i,
    {
        if i == 0 {
            out.append("null");
        } else {
            out.append(",null");
        }
        i = i + 1;
        assert(out@ =~= old(out)@ + nulls(i as nat));
    }
}

impl Status {
    /// The document of the status, given its two texts as JSON quotes them.
    pub fn document(&self, name: &str, text: &str) -> (out: String)
        ensures
            out@ == status_document(self@, name@, text@),
    {
        let mut out = String::new();
        out.append("{\"version\":{\"name\":");
        out.append(name);
        out.append(",\"protocol\":");
        push_decimal(&mut out, self.version.protocol);
        out.append("},\"players\":{\"max\":");
        push_decimal(&mut out, self.players.max);
        out.append(",\"online\":");
        push_decimal(&mut out, self.players.online);
        out.append(",\"sample\":[");
        push_nulls(&mut out, self.players.sample.len());
        out.append("]},\"description\":{\"text\":");
        out.append(text);
        out.append("}}");
        assert(out@ =~= status_document(self@, name@, text@));
        out
    }

    /// The JSON document of the status, or nothing where one of its texts
    /// could not be quoted.
    pub fn to_json(&self) -> (out: Option<String>)
        ensures
            match out {
                Some(json) => status_json(self@) == Some(json@),
                None => status_json(self@) is None,
            },
    {
        match to_json_string(self.version.name.as_str()) {
            Some(name) => match to_json_string(self.description.text.as_str()) {
                Some(text) => Some(self.document(name.as_str(), text.as_str())),
                None => None,
            },
            None => None,
        }
    }
}

/// The protocol number that a status reports to a client that claims
/// `version`: the client's own where the table lists it, the server's where
/// it does not.
pub open spec fn reported_protocol(version: i32) -> i32 {
    if is_modern_protocol(version) {
        version
    } else {
        SERVER_PROTOCOL
    }
}

/// Whether a document is short enough for a packet.
pub open spec fn fits_packet(json: Seq<char>) -> bool {
    encode_utf8(json).len() <= MAX_DOCUMENT_BYTES
}

/// The status response that carries `json`: the length of what follows it,
/// the id, and the document as a string.
pub open spec fn status_packet(json: Seq<char>) -> Seq<u8> {
    varint_bytes((string_bytes(json).len() + 1) as i32) + varint_bytes(PACKET_ID_ZERO)
        + string_bytes(json)
}

/// The status response to a client that claims `version`, or nothing where
/// the document could not be made or is too long to be sent.
pub open spec fn status_response(version: i32) -> Option<Seq<u8>> {
    match status_json(status_of(reported_protocol(version), DESCRIPTION@)) {
        Some(json) => if fits_packet(json) {
            Some(status_packet(json))
        } else {
            None
        },
        None => None,
    }
}

/// The response to a status request.
pub struct StatusResponse;

impl StatusResponse {
    /// Appends the status response that carries `json` to `w`.
    pub fn send_document(w: &mut Vec<u8>, json: &str)
        requires
            fits_packet(json@),
        ensures
            final(w)@ == old(w)@ + status_packet(json@),
    {
        let mut payload: Vec<u8> = Vec::new();
        write_string(&mut payload, json);
        proof {
            lemma_varint_len(encode_utf8(json@).len() as i32);
        }
        let length: usize = payload.len() + 1;
        write_varint(w, length as i32);
        write_varint(w, PACKET_ID_ZERO);
        write_bytes(w, payload.as_slice());
        assert(w@ == old(w)@ + status_packet(json@));
    }

    /// Appends the status response for a client that claims `version` to
    /// `w`, and says whether it did. Where the document could not be made or
    /// is too long, `w` stays as it was.
    pub fn send(w: &mut Vec<u8>, version: i32) -> (sent: bool)
        ensures
            match status_response(version) {
                Some(bytes) => sent && final(w)@ == old(w)@ + bytes,
                None => !sent && final(w)@ == old(w)@,
            },
    {
        let protocol: i32 = if is_listed(version) {
            version
        } else {
            SERVER_PROTOCOL
        };
        let status = Status::new(protocol, DESCRIPTION.to_owned());
        match status.to_json() {
            Some(json) => {
                let document = json.as_str();
                if document.as_bytes().len() <= MAX_DOCUMENT_BYTES {
                    StatusResponse::send_document(w, document);
                    true
                } else {
                    false
                }
            },
            None => false,
        }
    }
}

} // verus!
