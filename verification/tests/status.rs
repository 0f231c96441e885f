use mc_honeypot::reader::Reader;
use mc_honeypot::status::{
    push_decimal, Status, StatusDescription, StatusPlayers, StatusResponse, StatusVersion,
    DESCRIPTION, MAX_PLAYERS, ONLINE_PLAYERS,
};
use mc_honeypot::varint::read_varint;

const DOCUMENT_770: &str = "{\"version\":{\"name\":\"1.21.5\",\"protocol\":770},\"players\":{\"max\":20,\"online\":0,\"sample\":[]},\"description\":{\"text\":\"A Minecraft Server\"}}";

fn decimal(value: i32) -> String {
    let mut out = String::new();
    push_decimal(&mut out, value);
    out
}

#[test]
fn decimal_text() {
    assert_eq!(decimal(0), "0");
    assert_eq!(decimal(7), "7");
    assert_eq!(decimal(10), "10");
    assert_eq!(decimal(770), "770");
    assert_eq!(decimal(-1), "-1");
    assert_eq!(decimal(-770), "-770");
    assert_eq!(decimal(1000000), "1000000");
    assert_eq!(decimal(i32::MAX), "2147483647");
    assert_eq!(decimal(i32::MIN), "-2147483648");
}

#[test]
fn decimal_agrees_with_std_and_serde_json() {
    let mut value: i64 = i32::MIN as i64;
    while value <= i32::MAX as i64 {
        let v = value as i32;
        assert_eq!(decimal(v), v.to_string());
        assert_eq!(decimal(v), serde_json::to_string(&v).unwrap());
        value += 7_777_777;
    }
}

#[test]
fn decimal_appends() {
    let mut out = String::from("x=");
    push_decimal(&mut out, 42);
    assert_eq!(out, "x=42");
}

#[test]
fn status_new_fills_the_fields() {
    let status = Status::new(767, String::from("hello"));
    assert_eq!(
        status,
        Status {
            version: StatusVersion { name: String::from("1.21.1"), protocol: 767 },
            players: StatusPlayers { max: 20, online: 0, sample: Vec::new() },
            description: StatusDescription { text: String::from("hello") },
        }
    );
    assert_eq!(MAX_PLAYERS, 20);
    assert_eq!(ONLINE_PLAYERS, 0);
    let status = Status::new(-5, String::new());
    assert_eq!(status.version.name, "unknown");
    assert_eq!(status.version.protocol, -5);
}

#[test]
fn status_document_is_exact() {
    let status = Status::new(770, String::from(DESCRIPTION));
    assert_eq!(status.to_json().unwrap(), DOCUMENT_770);
}

#[test]
fn status_document_parses_as_json() {
    let status = Status::new(770, String::from(DESCRIPTION));
    let json = status.to_json().unwrap();
    let value: serde_json::Value = serde_json::from_str(&json).unwrap();
    assert_eq!(value["version"]["protocol"].as_i64(), Some(770));
    assert_eq!(value["version"]["name"].as_str(), Some("1.21.5"));
    assert_eq!(value["players"]["max"].as_i64(), Some(20));
    assert_eq!(value["players"]["online"].as_i64(), Some(0));
    assert_eq!(value["players"]["sample"].as_array().map(|a| a.len()), Some(0));
    assert_eq!(value["description"]["text"].as_str(), Some("A Minecraft Server"));
}

#[test]
fn status_document_quotes_its_texts() {
    let text = "say \"hi\"\\ \n\ttab \u{1} é 🙂";
    let status = Status::new(47, String::from(text));
    let json = status.to_json().unwrap();
    assert!(json.contains("\"text\":\"say \\\"hi\\\"\\\\ \\n\\ttab \\u0001 é 🙂\""));
    let value: serde_json::Value = serde_json::from_str(&json).unwrap();
    assert_eq!(value["description"]["text"].as_str(), Some(text));
    assert_eq!(value["version"]["name"].as_str(), Some("1.8.9"));
    assert_eq!(value["version"]["protocol"].as_i64(), Some(47));
}

#[test]
fn status_document_with_a_sample() {
    let mut status = Status::new(770, String::from("x"));
    status.players.sample = vec![(), (), ()];
    status.players.online = -3;
    let json = status.to_json().unwrap();
    assert!(json.contains("\"online\":-3,\"sample\":[null,null,null]"));
    let value: serde_json::Value = serde_json::from_str(&json).unwrap();
    assert_eq!(value["players"]["sample"].as_array().map(|a| a.len()), Some(3));
    status.players.sample = vec![()];
    assert!(status.to_json().unwrap().contains("\"sample\":[null]"));
}

fn framed(json: &str) -> Vec<u8> {
    let mut expected = vec![0x87, 0x01, 0x00, 0x84, 0x01];
    expected.extend_from_slice(json.as_bytes());
    expected
}

#[test]
fn status_response_frames_the_document() {
    let mut w = Vec::new();
    assert!(StatusResponse::send(&mut w, 770));
    assert_eq!(DOCUMENT_770.len(), 132);
    assert_eq!(w.len(), 137);
    assert_eq!(w, framed(DOCUMENT_770));
}

#[test]
fn status_response_of_a_short_document() {
    let mut w = vec![0xEE];
    StatusResponse::send_document(&mut w, "{}");
    assert_eq!(w, vec![0xEE, 0x04, 0x00, 0x02, b'{', b'}']);
    let mut w = Vec::new();
    StatusResponse::send_document(&mut w, "");
    assert_eq!(w, vec![0x02, 0x00, 0x00]);
}

#[test]
fn status_response_of_a_document_of_two_length_bytes() {
    let json = "j".repeat(126);
    let mut w = Vec::new();
    StatusResponse::send_document(&mut w, &json);
    assert_eq!(&w[..3], &[0x80, 0x01, 0x00]);
    assert_eq!(w[3], 126);
    assert_eq!(w.len(), 2 + 1 + 1 + 126);
}

fn document_of(packet: Vec<u8>) -> serde_json::Value {
    let total = packet.len();
    let mut r = Reader::new(packet);
    let length = read_varint(&mut r);
    assert_eq!(length as usize, r.remaining());
    assert!(total > r.remaining());
    assert_eq!(read_varint(&mut r), 0);
    let size = read_varint(&mut r);
    assert_eq!(size as usize, r.remaining());
    let body = r.read_exact(size as usize).unwrap();
    serde_json::from_slice(&body).unwrap()
}

#[test]
fn status_response_reports_a_listed_protocol_as_claimed() {
    let mut w = Vec::new();
    assert!(StatusResponse::send(&mut w, 767));
    let value = document_of(w);
    assert_eq!(value["version"]["protocol"].as_i64(), Some(767));
    assert_eq!(value["version"]["name"].as_str(), Some("1.21.1"));
    let mut w = Vec::new();
    assert!(StatusResponse::send(&mut w, 3));
    let value = document_of(w);
    assert_eq!(value["version"]["protocol"].as_i64(), Some(3));
    assert_eq!(value["version"]["name"].as_str(), Some("1.7"));
}

#[test]
fn status_response_reports_the_server_protocol_otherwise() {
    for claimed in [-1, i32::MIN, 0, 771, 1_000_000, i32::MAX] {
        let mut w = Vec::new();
        assert!(StatusResponse::send(&mut w, claimed));
        assert_eq!(w, framed(DOCUMENT_770));
    }
}

#[test]
fn status_document_is_laid_out_around_its_texts() {
    let mut status = Status::new(5, String::new());
    status.players.max = -7;
    status.players.online = 12;
    assert_eq!(
        status.document("NAME", "TEXT"),
        "{\"version\":{\"name\":NAME,\"protocol\":5},\"players\":{\"max\":-7,\"online\":12,\"sample\":[]},\"description\":{\"text\":TEXT}}"
    );
    assert_eq!(
        status.document("", ""),
        "{\"version\":{\"name\":,\"protocol\":5},\"players\":{\"max\":-7,\"online\":12,\"sample\":[]},\"description\":{\"text\":}}"
    );
}

#[test]
fn status_document_agrees_with_serde_json_on_the_same_value() {
    let mut players = serde_json::Map::new();
    players.insert(String::from("max"), serde_json::Value::from(20));
    players.insert(String::from("online"), serde_json::Value::from(0));
    players.insert(String::from("sample"), serde_json::Value::Array(Vec::new()));
    let mut version = serde_json::Map::new();
    version.insert(String::from("name"), serde_json::Value::from("1.20.4"));
    version.insert(String::from("protocol"), serde_json::Value::from(765));
    let mut description = serde_json::Map::new();
    description.insert(String::from("text"), serde_json::Value::from("tab\there"));
    let mut expected = serde_json::Map::new();
    expected.insert(String::from("version"), serde_json::Value::Object(version));
    expected.insert(String::from("players"), serde_json::Value::Object(players));
    expected.insert(String::from("description"), serde_json::Value::Object(description));
    let status = Status::new(765, String::from("tab\there"));
    let parsed: serde_json::Value = serde_json::from_str(&status.to_json().unwrap()).unwrap();
    assert_eq!(parsed, serde_json::Value::Object(expected));
}
