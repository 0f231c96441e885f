use mc_honeypot::formats::{
    parse_formats, sink_kind, Delivery, LoginEvent, MultiSink, SinkKind,
};
use mc_honeypot::packets::{Handshake, LoginStart, PacketHeader};

fn kinds(sink: &MultiSink) -> Vec<SinkKind> {
    let mut kinds = Vec::new();
    let mut index = 0;
    while let Some(kind) = sink.get(index) {
        kinds.push(kind);
        index += 1;
    }
    assert_eq!(index, sink.len());
    kinds
}

fn sample_event() -> LoginEvent {
    LoginEvent {
        ip: String::from("198.51.100.7:25565"),
        version: 770,
        mc_version: String::from("1.21.5"),
        hostname: String::from("play.example"),
        player_name: String::from("Alex"),
        player_uuid: 0x0123456789abcdef0123456789abcdef,
        timestamp: 1_700_000_000_123,
    }
}

#[test]
fn write_fans_out_to_every_sink_in_order() {
    let event = sample_event();
    let mut sink = MultiSink::new();
    assert!(sink.write(&event).is_empty());
    sink.add_sink(SinkKind::Sqlite);
    sink.add_sink(SinkKind::Json);
    sink.add_sink(SinkKind::Sqlite);
    assert_eq!(
        sink.write(&event),
        vec![
            Delivery { sink: SinkKind::Sqlite, event: event.clone() },
            Delivery { sink: SinkKind::Json, event: event.clone() },
            Delivery { sink: SinkKind::Sqlite, event: event.clone() },
        ]
    );
    assert_eq!(event.duplicate(), event);
}

#[test]
fn sink_names_of_no_sink() {
    let sink = MultiSink::new();
    assert_eq!(sink.sink_names(), "");
    assert_eq!(sink.len(), 0);
    assert_eq!(sink.get(0), None);
    assert!(kinds(&sink).is_empty());
}

#[test]
fn sink_names_are_joined_in_order() {
    let mut sink = MultiSink::new();
    sink.add_sink(SinkKind::Json);
    assert_eq!(sink.sink_names(), "json");
    sink.add_sink(SinkKind::Sqlite);
    assert_eq!(sink.sink_names(), "json,sqlite");
    sink.add_sink(SinkKind::Csv);
    assert_eq!(sink.sink_names(), "json,sqlite,csv");
    sink.add_sink(SinkKind::Json);
    assert_eq!(sink.sink_names(), "json,sqlite,csv,json");
    assert_eq!(sink.len(), 4);
    assert_eq!(sink.get(1), Some(SinkKind::Sqlite));
    assert_eq!(sink.get(4), None);
    assert_eq!(
        kinds(&sink),
        vec![SinkKind::Json, SinkKind::Sqlite, SinkKind::Csv, SinkKind::Json]
    );
}

#[test]
fn sink_kind_names() {
    assert_eq!(SinkKind::Json.name(), "json");
    assert_eq!(SinkKind::Csv.name(), "csv");
    assert_eq!(SinkKind::Sqlite.name(), "sqlite");
}

#[test]
fn sink_kind_of_a_token() {
    assert_eq!(sink_kind(b"json"), Some(SinkKind::Json));
    assert_eq!(sink_kind(b"JSON"), Some(SinkKind::Json));
    assert_eq!(sink_kind(b"Csv"), Some(SinkKind::Csv));
    assert_eq!(sink_kind(b"sQLite"), Some(SinkKind::Sqlite));
    assert_eq!(sink_kind(b""), None);
    assert_eq!(sink_kind(b"jso"), None);
    assert_eq!(sink_kind(b"jsonl"), None);
    assert_eq!(sink_kind(b" json"), None);
    assert_eq!(sink_kind(b"xml"), None);
    assert_eq!(sink_kind(b"j\x53on"), Some(SinkKind::Json));
    assert_eq!(sink_kind(b"j\x13on"), None);
    assert_eq!(sink_kind(b"JSO\x4e"), Some(SinkKind::Json));
}

#[test]
fn formats_are_parsed_in_order() {
    assert_eq!(kinds(&parse_formats("json")), vec![SinkKind::Json]);
    assert_eq!(
        kinds(&parse_formats("json,csv,sqlite")),
        vec![SinkKind::Json, SinkKind::Csv, SinkKind::Sqlite]
    );
    assert_eq!(
        kinds(&parse_formats("SQLite,JSON")),
        vec![SinkKind::Sqlite, SinkKind::Json]
    );
    assert_eq!(kinds(&parse_formats("csv,csv")), vec![SinkKind::Csv, SinkKind::Csv]);
    assert_eq!(parse_formats("sqlite,json").sink_names(), "sqlite,json");
}

#[test]
fn formats_that_name_nothing_are_skipped() {
    assert!(kinds(&parse_formats("")).is_empty());
    assert!(kinds(&parse_formats(",")).is_empty());
    assert!(kinds(&parse_formats("xml")).is_empty());
    assert!(kinds(&parse_formats("json csv")).is_empty());
    assert_eq!(kinds(&parse_formats("xml,json,,yaml,csv,")), vec![SinkKind::Json, SinkKind::Csv]);
    assert_eq!(kinds(&parse_formats(",json")), vec![SinkKind::Json]);
    assert_eq!(kinds(&parse_formats("json, csv")), vec![SinkKind::Json]);
    assert_eq!(kinds(&parse_formats("jsön,csv")), vec![SinkKind::Csv]);
}

#[test]
fn formats_agree_with_lowercasing_and_splitting() {
    for list in ["json", "JSON,Csv", "a,b,sqlite", "", ",,", "Json,,SQLITE,x", "ſqlite,json"] {
        let mut expected = Vec::new();
        for token in list.to_lowercase().split(',') {
            match token {
                "json" => expected.push(SinkKind::Json),
                "csv" => expected.push(SinkKind::Csv),
                "sqlite" => expected.push(SinkKind::Sqlite),
                _ => {}
            }
        }
        assert_eq!(kinds(&parse_formats(list)), expected, "for {:?}", list);
    }
}

#[test]
fn login_event_is_put_together() {
    let handshake = Handshake {
        _header: PacketHeader { _length: 9, id: 0 },
        version: 767,
        mc_version: String::from("1.21.1"),
        hostname: String::from("h"),
        port: 25565,
        state: 2,
    };
    let login = LoginStart {
        _header: PacketHeader { _length: 23, id: 0 },
        player_name: String::from("Steve"),
        uuid: 42,
    };
    let event = LoginEvent::new(String::from("192.0.2.1:4000"), &handshake, &login, -5);
    assert_eq!(
        event,
        LoginEvent {
            ip: String::from("192.0.2.1:4000"),
            version: 767,
            mc_version: String::from("1.21.1"),
            hostname: String::from("h"),
            player_name: String::from("Steve"),
            player_uuid: 42,
            timestamp: -5,
        }
    );
}
