use mc_honeypot::protocol::{send_login, LoginInfo};
use mc_honeypot::reader::Reader;

fn login_start(id: u8, name: &str, uuid: &[u8]) -> Vec<u8> {
    let mut body = vec![id, name.len() as u8];
    body.extend_from_slice(name.as_bytes());
    body.extend_from_slice(uuid);
    let mut packet = vec![body.len() as u8];
    packet.extend_from_slice(&body);
    packet
}

#[test]
fn login_info_default_is_blank() {
    let info = LoginInfo::default();
    assert_eq!(
        info,
        LoginInfo {
            ip: String::new(),
            protocol: 0,
            mc_version: String::new(),
            hostname: String::new(),
            port: 0,
            player_name: String::new(),
            uuid: String::new(),
        }
    );
}

#[test]
fn send_login_records_name_and_uuid_text() {
    let wire: Vec<u8> = (0x10..0x20).collect();
    let mut r = Reader::new(login_start(0, "Steve", &wire));
    let info = send_login(&mut r).unwrap();
    assert_eq!(info.player_name, "Steve");
    assert_eq!(info.uuid, "1f1e1d1c-1b1a-1918-1716-151413121110");
    assert_eq!(info.ip, "");
    assert_eq!(info.protocol, 0);
    assert_eq!(info.mc_version, "");
    assert_eq!(info.hostname, "");
    assert_eq!(info.port, 0);
    assert_eq!(r.remaining(), 0);
}

#[test]
fn send_login_uuid_text_has_all_digits_in_lower_case() {
    let wire = [
        0xEF, 0xCD, 0xAB, 0x89, 0x67, 0x45, 0x23, 0x01, 0x0F, 0xF0, 0x9A, 0xA9, 0xBC, 0xDE, 0x00,
        0xFF,
    ];
    let mut r = Reader::new(login_start(0, "n", &wire));
    let info = send_login(&mut r).unwrap();
    assert_eq!(info.uuid, "ff00debc-a99a-f00f-0123-456789abcdef");
    let expected = uuid::Uuid::from_u128_le(u128::from_be_bytes(wire));
    assert_eq!(info.uuid, expected.to_string());
    assert_eq!(info.uuid, expected.hyphenated().to_string());
}

#[test]
fn send_login_with_the_wrong_id_records_nothing() {
    let wire: Vec<u8> = (0x10..0x20).collect();
    let mut r = Reader::new(login_start(1, "Steve", &wire));
    assert_eq!(send_login(&mut r), None);
    assert!(r.is_intact());
}

#[test]
fn send_login_cut_short_records_nothing() {
    let wire: Vec<u8> = (0x10..0x1F).collect();
    let mut r = Reader::new(login_start(0, "Steve", &wire));
    assert_eq!(send_login(&mut r), None);
    assert!(r.is_truncated());
    let mut r = Reader::new(Vec::new());
    assert_eq!(send_login(&mut r), None);
}

#[test]
fn send_login_with_a_bad_name_records_nothing() {
    let wire: Vec<u8> = (0x10..0x20).collect();
    let mut packet = vec![19, 0, 2, 0xC3, 0x28];
    packet.extend_from_slice(&wire);
    let mut r = Reader::new(packet);
    assert_eq!(send_login(&mut r), None);
    assert!(r.is_malformed());
    assert!(!r.is_truncated());
}
