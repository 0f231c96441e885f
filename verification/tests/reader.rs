use mc_honeypot::reader::Reader;

#[test]
fn reader_starts_intact() {
    let r = Reader::new(vec![1, 2, 3]);
    assert_eq!(r.remaining(), 3);
    assert!(r.is_intact());
    assert!(!r.is_truncated());
    assert!(!r.is_malformed());
    assert_eq!(r.peek(), Some(1));
}

#[test]
fn reader_peek_does_not_consume() {
    let mut r = Reader::new(vec![0xFE, 0x01]);
    assert_eq!(r.peek(), Some(0xFE));
    assert_eq!(r.peek(), Some(0xFE));
    assert_eq!(r.read_byte(), Some(0xFE));
    assert_eq!(r.peek(), Some(0x01));
}

#[test]
fn reader_peek_at_the_end() {
    let r = Reader::new(Vec::new());
    assert_eq!(r.peek(), None);
    assert!(r.is_intact());
}

#[test]
fn reader_read_exact_takes_what_it_is_asked_for() {
    let mut r = Reader::new(vec![1, 2, 3, 4, 5]);
    assert_eq!(r.read_exact(2), Some(vec![1, 2]));
    assert_eq!(r.remaining(), 3);
    assert_eq!(r.read_exact(0), Some(Vec::new()));
    assert_eq!(r.read_exact(3), Some(vec![3, 4, 5]));
    assert_eq!(r.remaining(), 0);
    assert!(r.is_intact());
    assert_eq!(r.read_exact(0), Some(Vec::new()));
    assert!(r.is_intact());
}

#[test]
fn reader_short_read_drains() {
    let mut r = Reader::new(vec![1, 2, 3]);
    assert_eq!(r.read_exact(4), None);
    assert!(r.is_truncated());
    assert!(!r.is_malformed());
    assert_eq!(r.remaining(), 0);
    assert_eq!(r.read_byte(), None);
    assert_eq!(r.read_exact(1), None);
}

#[test]
fn reader_huge_request_does_not_overflow() {
    let mut r = Reader::new(vec![1, 2, 3]);
    assert_eq!(r.read_byte(), Some(1));
    assert_eq!(r.read_exact(usize::MAX), None);
    assert!(r.is_truncated());
}

#[test]
fn reader_reject_keeps_the_position() {
    let mut r = Reader::new(vec![7, 8]);
    r.reject();
    assert!(r.is_malformed());
    assert!(!r.is_truncated());
    assert!(!r.is_intact());
    assert_eq!(r.remaining(), 2);
    assert_eq!(r.read_byte(), Some(7));
    assert!(r.is_malformed());
}
