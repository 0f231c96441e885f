use mc_honeypot::connection::{run, step, ConnectionState, Ending};
use mc_honeypot::formats::LoginEvent;
use mc_honeypot::packets::{PacketHeader, LEGACY_PING_RESPONSE};
use mc_honeypot::reader::Reader;
use mc_honeypot::varint::read_varint;

fn handshake(protocol: &[u8], host: &str, port: u16, state: u8) -> Vec<u8> {
    let mut body = vec![0x00];
    body.extend_from_slice(protocol);
    body.push(host.len() as u8);
    body.extend_from_slice(host.as_bytes());
    body.extend_from_slice(&port.to_be_bytes());
    body.push(state);
    let mut packet = vec![body.len() as u8];
    packet.extend_from_slice(&body);
    packet
}

fn login_start(name: &str, uuid: &[u8]) -> Vec<u8> {
    let mut body = vec![0x00, name.len() as u8];
    body.extend_from_slice(name.as_bytes());
    body.extend_from_slice(uuid);
    let mut packet = vec![body.len() as u8];
    packet.extend_from_slice(&body);
    packet
}

fn run_on(input: Vec<u8>) -> (Ending, Vec<u8>, Reader) {
    let mut r = Reader::new(input);
    let mut w = Vec::new();
    let ending = run(&mut r, &mut w);
    (ending, w, r)
}

#[test]
fn scenario_status_exchange() {
    let mut input = handshake(&[0x82, 0x06], "test", 25565, 1);
    input.extend_from_slice(&[0x01, 0x00]);
    input.extend_from_slice(&[0x09, 0x01, 0x01, 0x02, 0x03, 0x04, 0x05, 0x06, 0x07, 0x08]);
    let (ending, sent, r) = run_on(input);
    match &ending {
        Ending::Status(handshake) => {
            assert_eq!(handshake.version, 770);
            assert_eq!(handshake.mc_version, "1.21.5");
            assert_eq!(handshake.hostname, "test");
            assert_eq!(handshake.port, 25565);
            assert_eq!(handshake.state, 1);
        }
        other => panic!("the exchange ended as {:?}", other),
    }
    assert_eq!(ending.login_event(String::from("127.0.0.1:1"), 0), None);
    assert_eq!(r.remaining(), 0);

    let mut reply = Reader::new(sent);
    let length = read_varint(&mut reply) as usize;
    assert_eq!(read_varint(&mut reply), 0x00);
    let size = read_varint(&mut reply) as usize;
    assert_eq!(length, 1 + 2 + size);
    let document = reply.read_exact(size).unwrap();
    let status: serde_json::Value = serde_json::from_slice(&document).unwrap();
    assert_eq!(status["version"]["protocol"].as_i64(), Some(770));
    assert_eq!(status["version"]["name"].as_str(), Some("1.21.5"));
    let pong = reply.read_exact(10).unwrap();
    assert_eq!(pong, vec![0x09, 0x01, 0x01, 0x02, 0x03, 0x04, 0x05, 0x06, 0x07, 0x08]);
    assert_eq!(reply.remaining(), 0);
}

#[test]
fn scenario_login() {
    let uuid_bytes: [u8; 16] = [
        0x00, 0x11, 0x22, 0x33, 0x44, 0x55, 0x66, 0x77, 0x88, 0x99, 0xAA, 0xBB, 0xCC, 0xDD, 0xEE,
        0xFF,
    ];
    let mut input = handshake(&[0xFF, 0x05], "h", 25565, 2);
    input.extend_from_slice(&login_start("Steve", &uuid_bytes));
    let (ending, sent, r) = run_on(input);
    assert!(sent.is_empty());
    assert_eq!(r.remaining(), 0);
    let event = ending.login_event(String::from("203.0.113.9:51234"), 1_700_000_000_000).unwrap();
    assert_eq!(
        event,
        LoginEvent {
            ip: String::from("203.0.113.9:51234"),
            version: 767,
            mc_version: String::from("1.21.1"),
            hostname: String::from("h"),
            player_name: String::from("Steve"),
            player_uuid: u128::from_le_bytes(uuid_bytes),
            timestamp: 1_700_000_000_000,
        }
    );
    assert_eq!(event.player_uuid, 0xFFEEDDCCBBAA99887766554433221100);
    assert_ne!(event.player_uuid, u128::from_be_bytes(uuid_bytes));
    assert_eq!(
        uuid::Uuid::from_u128(event.player_uuid),
        uuid::Uuid::from_u128_le(u128::from_be_bytes(uuid_bytes))
    );
    assert_eq!(
        uuid::Uuid::from_u128(event.player_uuid).to_string(),
        "ffeeddcc-bbaa-9988-7766-554433221100"
    );
}

#[test]
fn scenario_legacy_ping() {
    let requests: [Vec<u8>; 4] = [
        vec![0xFE],
        vec![0xFE, 0x01],
        vec![0xFE, 0x01, 0xFA, 0x00, 0x0B],
        vec![
            0xFE, 0x01, 0xFA, 0x00, 0x02, b'M', b'C', 0x00, 0x0A, 74, 0x00, 0x03, b'm', b'c', b'!',
            0x00, 0x00, 0x63, 0xDD,
        ],
    ];
    for request in requests {
        let (ending, sent, _) = run_on(request);
        assert_eq!(sent, LEGACY_PING_RESPONSE.to_vec());
        assert!(matches!(ending, Ending::LegacyPing(_)));
        assert_eq!(ending.login_event(String::new(), 0), None);
    }
}

#[test]
fn scenario_legacy_ping_fields() {
    let (ending, _, _) = run_on(vec![
        0xFE, 0x01, 0xFA, 0x00, 0x02, b'M', b'C', 0x00, 0x0A, 74, 0x00, 0x03, b'm', b'c', b'!',
        0x00, 0x00, 0x63, 0xDD,
    ]);
    match ending {
        Ending::LegacyPing(ping) => {
            assert_eq!(ping.version, 74);
            assert_eq!(ping.mc_version, "1.6.2");
            assert_eq!(ping.hostname, "mc!");
            assert_eq!(ping.port, 25565);
        }
        other => panic!("the connection ended as {:?}", other),
    }
}

#[test]
fn scenario_invalid_next_state() {
    let mut input = handshake(&[0x82, 0x06], "test", 25565, 5);
    input.extend_from_slice(&[0x01, 0x00]);
    let (ending, sent, r) = run_on(input);
    assert_eq!(ending, Ending::Aborted);
    assert!(sent.is_empty());
    assert_eq!(ending.login_event(String::new(), 0), None);
    assert_eq!(r.remaining(), 2);
}

#[test]
fn other_next_states_are_invalid_too() {
    for state in [0u8, 3, 4, 0x7F] {
        let (ending, sent, _) = run_on(handshake(&[0x82, 0x06], "test", 25565, state));
        assert_eq!(ending, Ending::Aborted);
        assert!(sent.is_empty());
    }
}

#[test]
fn empty_connection_is_aborted() {
    let (ending, sent, r) = run_on(Vec::new());
    assert_eq!(ending, Ending::Aborted);
    assert!(sent.is_empty());
    assert!(r.is_truncated());
}

#[test]
fn handshake_with_the_wrong_id_is_aborted() {
    let mut input = handshake(&[0x82, 0x06], "test", 25565, 2);
    input[1] = 0x01;
    input.extend_from_slice(&login_start("Steve", &[0u8; 16]));
    let (ending, sent, _) = run_on(input);
    assert_eq!(ending, Ending::Aborted);
    assert!(sent.is_empty());
}

#[test]
fn status_request_with_the_wrong_id_is_aborted() {
    let mut input = handshake(&[0x82, 0x06], "test", 25565, 1);
    input.extend_from_slice(&[0x01, 0x01]);
    let (ending, sent, _) = run_on(input);
    assert_eq!(ending, Ending::Aborted);
    assert!(sent.is_empty());
}

#[test]
fn ping_with_the_wrong_id_is_aborted_after_the_status() {
    let mut input = handshake(&[0x82, 0x06], "test", 25565, 1);
    input.extend_from_slice(&[0x01, 0x00]);
    input.extend_from_slice(&[0x09, 0x02, 1, 2, 3, 4, 5, 6, 7, 8]);
    let (ending, sent, _) = run_on(input);
    assert_eq!(ending, Ending::Aborted);
    assert_eq!(sent.len(), 137);
}

#[test]
fn login_cut_short_leaves_no_record() {
    let full = {
        let mut input = handshake(&[0xFF, 0x05], "h", 25565, 2);
        input.extend_from_slice(&login_start("Steve", &[7u8; 16]));
        input
    };
    for len in 0..full.len() {
        let (ending, sent, _) = run_on(full[..len].to_vec());
        assert_eq!(ending, Ending::Aborted, "after {} bytes", len);
        assert!(sent.is_empty());
        assert_eq!(ending.login_event(String::new(), 0), None);
    }
    let (ending, _, _) = run_on(full);
    assert!(matches!(ending, Ending::Login(_, _)));
}

#[test]
fn login_with_the_wrong_id_leaves_no_record() {
    let mut input = handshake(&[0xFF, 0x05], "h", 25565, 2);
    let mut login = login_start("Steve", &[7u8; 16]);
    login[1] = 0x02;
    input.extend_from_slice(&login);
    let (ending, sent, _) = run_on(input);
    assert_eq!(ending, Ending::Aborted);
    assert!(sent.is_empty());
}

#[test]
fn login_with_a_name_that_is_not_utf8_leaves_no_record() {
    let mut input = handshake(&[0xFF, 0x05], "h", 25565, 2);
    let mut login = login_start("St\u{e9}", &[7u8; 16]);
    login[4] = 0xFF;
    input.extend_from_slice(&login);
    let (ending, _, r) = run_on(input);
    assert_eq!(ending, Ending::Aborted);
    assert!(r.is_malformed());
}

#[test]
fn steps_one_by_one() {
    let mut w = Vec::new();
    let mut r = Reader::new(handshake(&[0x2F], "example.org", 25565, 1));
    let state = step(ConnectionState::Start, &mut r, &mut w);
    assert_eq!(state, ConnectionState::Handshaking);
    assert!(!state.is_terminal());
    assert_eq!(r.remaining(), 18);
    let state = step(state, &mut r, &mut w);
    let shaken = match &state {
        ConnectionState::Status(handshake) => handshake.clone(),
        other => panic!("the handshake led to {:?}", other),
    };
    assert_eq!(shaken._header, PacketHeader { _length: 17, id: 0 });
    assert_eq!(shaken.version, 47);
    assert_eq!(shaken.mc_version, "1.8.9");
    assert_eq!(shaken.hostname, "example.org");
    assert_eq!(r.remaining(), 0);
    assert!(w.is_empty());

    let mut r = Reader::new(vec![0x01, 0x00]);
    let state = step(state, &mut r, &mut w);
    assert_eq!(state, ConnectionState::Ping(shaken.clone()));
    assert!(!w.is_empty());
    let status_len = w.len();

    let mut r = Reader::new(vec![0x09, 0x01, 9, 9, 9, 9, 9, 9, 9, 9, 0x33]);
    let state = step(state, &mut r, &mut w);
    assert_eq!(state, ConnectionState::Terminal(Ending::Status(shaken)));
    assert!(state.is_terminal());
    assert_eq!(&w[status_len..], &[0x09, 0x01, 9, 9, 9, 9, 9, 9, 9, 9]);
    assert_eq!(r.remaining(), 1);

    let sent = w.len();
    let again = step(state.clone(), &mut r, &mut w);
    assert_eq!(again, state);
    assert_eq!(w.len(), sent);
    assert_eq!(r.remaining(), 1);
}

#[test]
fn first_byte_tells_the_dialect() {
    let mut w = Vec::new();
    let mut r = Reader::new(vec![0xFE, 0x01]);
    assert_eq!(step(ConnectionState::Start, &mut r, &mut w), ConnectionState::LegacyPing);
    assert_eq!(r.remaining(), 2);
    let mut r = Reader::new(vec![0xFD, 0x01]);
    assert_eq!(step(ConnectionState::Start, &mut r, &mut w), ConnectionState::Handshaking);
    let mut r = Reader::new(Vec::new());
    assert_eq!(step(ConnectionState::Start, &mut r, &mut w), ConnectionState::Handshaking);
    assert!(r.is_intact());
    assert!(w.is_empty());
}

#[test]
fn truncated_step_can_be_taken_again_with_more() {
    let full = handshake(&[0xFF, 0x05], "host", 1, 2);
    let mut w = Vec::new();
    let mut r = Reader::new(full[..5].to_vec());
    let early = step(ConnectionState::Handshaking, &mut r, &mut w);
    assert_eq!(early, ConnectionState::Terminal(Ending::Aborted));
    assert!(r.is_truncated());
    let mut r = Reader::new(full);
    let late = step(ConnectionState::Handshaking, &mut r, &mut w);
    assert!(matches!(late, ConnectionState::Login(_)));
    assert!(r.is_intact());
}
