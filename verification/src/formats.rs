//! What leaves the honeypot: the record of a login, and the choice of sinks
//! that are to store it.
//!
//! Storing is not done here. This module says what a record holds, which
//! sinks a list of formats selects and in what order, and how the selection
//! is named.
use vstd::prelude::*;
use vstd::string::StringSliceAdditionalSpecFns;
use crate::packets::{Handshake, HandshakeView, LoginStart, LoginStartView};

verus! {

/// The record of one login.
#[derive(Clone, Debug, PartialEq, Eq)]
pub struct LoginEvent {
    /// The address that the client connected from, as text.
    pub ip: String,
    /// The protocol number that the client claimed.
    pub version: i32,
    /// The release name of that number.
    pub mc_version: String,
    /// The host name that the client asked for.
    pub hostname: String,
    /// The player's name.
    pub player_name: String,
    /// The player's UUID, as its number.
    pub player_uuid: u128,
    /// When the login was complete, in milliseconds since the Unix epoch.
    pub timestamp: i64,
}

/// A [`LoginEvent`] as a value of specifications.
pub struct LoginEventView {
    pub ip: Seq<char>,
    pub version: i32,
    pub mc_version: Seq<char>,
    pub hostname: Seq<char>,
    pub player_name: Seq<char>,
    pub player_uuid: u128,
    pub timestamp: i64,
}

impl View for LoginEvent {
    type V = LoginEventView;

    open spec fn view(&self) -> LoginEventView {
        LoginEventView {
            ip: self.ip@,
            version: self.version,
            mc_version: self.mc_version@,
            hostname: self.hostname@,
            player_name: self.player_name@,
            player_uuid: self.player_uuid,
            timestamp: self.timestamp,
        }
    }
}

/// The record of the login that `handshake` and `login` make, from the
/// address `ip` at the time `timestamp`.
pub open spec fn login_event(
    ip: Seq<char>,
    handshake: HandshakeView,
    login: LoginStartView,
    timestamp: i64,
) -> LoginEventView {
    LoginEventView {
        ip,
        version: handshake.version,
        mc_version: handshake.mc_version,
        hostname: handshake.hostname,
        player_name: login.player_name,
        player_uuid: login.uuid,
        timestamp,
    }
}

impl LoginEvent {
    /// Puts the record of a login together.
    pub fn new(ip: String, handshake: &Handshake, login: &LoginStart, timestamp: i64) -> (event:
        LoginEvent)
        ensures
            event@ == login_event(ip@, handshake@, login@, timestamp),
    {
        LoginEvent {
            ip,
            version: handshake.version,
            mc_version: handshake.mc_version.clone(),
            hostname: handshake.hostname.clone(),
            player_name: login.player_name.clone(),
            player_uuid: login.uuid,
            timestamp,
        }
    }
}

impl LoginEvent {
    /// A copy of the record.
    pub fn duplicate(&self) -> (copy: LoginEvent)
        ensures
            copy@ == self@,
    {
        LoginEvent {
            ip: self.ip.clone(),
            version: self.version,
            mc_version: self.mc_version.clone(),
            hostname: self.hostname.clone(),
            player_name: self.player_name.clone(),
            player_uuid: self.player_uuid,
            timestamp: self.timestamp,
        }
    }
}

/// A kind of sink.
#[derive(Clone, Copy, Debug, PartialEq, Eq, Structural)]
pub enum SinkKind {
    /// One JSON document that holds every record.
    Json,
    /// One line of comma-separated values for each record.
    Csv,
    /// One row of an SQLite table for each record.
    Sqlite,
}

impl SinkKind {
    /// The name of the kind.
    pub open spec fn name_of(self) -> Seq<char> {
        match self {
            SinkKind::Json => "json"@,
            SinkKind::Csv => "csv"@,
            SinkKind::Sqlite => "sqlite"@,
        }
    }

    /// The name of the kind, as the bytes that a list of formats spells it
    /// with.
    pub open spec fn word(self) -> Seq<u8> {
        match self {
            SinkKind::Json => seq![0x6Au8, 0x73u8, 0x6Fu8, 0x6Eu8],
            SinkKind::Csv => seq![0x63u8, 0x73u8, 0x76u8],
            SinkKind::Sqlite => seq![0x73u8, 0x71u8, 0x6Cu8, 0x69u8, 0x74u8, 0x65u8],
        }
    }

    /// The name of the kind.
    pub fn name(&self) -> (name: &'static str)
        ensures
            name@ == self.name_of(),
    {
        match self {
            SinkKind::Json => "json",
            SinkKind::Csv => "csv",
            SinkKind::Sqlite => "sqlite",
        }
    }
}

/// The names of `kinds`, with a comma between two of them.
pub open spec fn joined_names(kinds: Seq<SinkKind>) -> Seq<char>
    decreases kinds.len(),
{
    if kinds.len() == 0 {
        Seq::empty()
    } else if kinds.len() == 1 {
        kinds[0].name_of()
    } else {
        joined_names(kinds.drop_last()) + seq![','] + kinds.last().name_of()
    }
}

/// A byte of a format list in lower case.
pub open spec fn lower(byte: u8) -> u8 {
    if 0x41 <= byte <= 0x5A {
        (byte + 0x20) as u8
    } else {
        byte
    }
}

/// Whether `token` spells `word`, whatever the case of its letters.
pub open spec fn spells(token: Seq<u8>, word: Seq<u8>) -> bool {
    &&& token.len() == word.len()
    &&& forall|i: int| 0 <= i < token.len() ==> lower(token[i]) == word[i]
}

/// The kind that `token` names, if it names one.
pub open spec fn kind_of(token: Seq<u8>) -> Option<SinkKind> {
    if spells(token, SinkKind::Json.word()) {
        Some(SinkKind::Json)
    } else if spells(token, SinkKind::Csv.word()) {
        Some(SinkKind::Csv)
    } else if spells(token, SinkKind::Sqlite.word()) {
        Some(SinkKind::Sqlite)
    } else {
        None
    }
}

/// The length of the first token of `bytes`: the number of bytes in front of
/// the first comma, or all of them where there is no comma.
pub open spec fn first_token_len(bytes: Seq<u8>) -> nat
    decreases bytes.len(),
{
    if bytes.len() == 0 || bytes[0] == 0x2C {
        0
    } else {
        1 + first_token_len(bytes.drop_first())
    }
}

/// The kinds that a list of formats selects: those that its tokens name, in
/// the order of the list. A token that names no kind selects nothing.
pub open spec fn kinds_of(bytes: Seq<u8>) -> Seq<SinkKind>
    decreases bytes.len(),
{
    let len = first_token_len(bytes);
    let first = match kind_of(bytes.take(len as int)) {
        Some(kind) => seq![kind],
        None => Seq::empty(),
    };
    if len < bytes.len() {
        first + kinds_of(bytes.skip((len + 1) as int))
    } else {
        first
    }
}

/// One record on its way to one sink.
#[derive(Clone, Debug, PartialEq, Eq)]
pub struct Delivery {
    /// The sink that is to store the record.
    pub sink: SinkKind,
    /// The record.
    pub event: LoginEvent,
}

/// The sinks that records go to, in the order in which they were chosen.
#[derive(Clone, Debug, PartialEq, Eq)]
pub struct MultiSink {
    sinks: Vec<SinkKind>,
}

impl View for MultiSink {
    type V = Seq<SinkKind>;

    closed spec fn view(&self) -> Seq<SinkKind> {
        self.sinks@
    }
}

impl MultiSink {
    /// No sink.
    pub fn new() -> (sink: MultiSink)
        ensures
            sink@ == Seq::<SinkKind>::empty(),
    {
        MultiSink { sinks: Vec::new() }
    }

    /// Adds `sink` behind the sinks that are there.
    pub fn add_sink(&mut self, sink: SinkKind)
        ensures
            final(self)@ == old(self)@.push(sink),
    {
        self.sinks.push(sink);
    }

    /// The number of sinks.
    pub fn len(&self) -> (n: usize)
        ensures
            n == self@.len(),
    {
        self.sinks.len()
    }

    /// The sink at `index`, counted from the first that was added.
    pub fn get(&self, index: usize) -> (sink: Option<SinkKind>)
        ensures
            sink == if index < self@.len() {
                Some(self@[index as int])
            } else {
                None
            },
    {
        if index < self.sinks.len() {
            Some(self.sinks[index])
        } else {
            None
        }
    }

    /// Fans `event` out: one delivery for each sink, in the order in which
    /// the sinks were added, each with a copy of the event.
    pub fn write(&self, event: &LoginEvent) -> (deliveries: Vec<Delivery>)
        ensures
            deliveries@.len() == self@.len(),
            forall|i: int|
                0 <= i < self@.len() ==> (#[trigger] deliveries@[i]).sink == self@[i]
                    && deliveries@[i].event@ == event@,
    {
        let mut deliveries: Vec<Delivery> = Vec::new();
        let mut i: usize = 0;
        while i < self.sinks.len()
            invariant
                i <= self.sinks.len(),
                deliveries@.len() == i,
                forall|j: int|
                    0 <= j < i ==> (#[trigger] deliveries@[j]).sink == self.sinks@[j]
                        && deliveries@[j].event@ == event@,
            decreases self.sinks.len() - i,
        {
            deliveries.push(Delivery { sink: self.sinks[i], event: event.duplicate() });
            i = i + 1;
        }
        deliveries
    }

    /// The names of the sinks, with a comma between two of them.
    pub fn sink_names(&self) -> (names: String)
        ensures
            names@ == joined_names(self@),
    {
        let mut names = String::new();
        let mut i: usize = 0;
        assert(self.sinks@.take(0) == Seq::<SinkKind>::empty());
        while i < self.sinks.len()
            invariant
                i <= self.sinks.len(),
                names@ == joined_names(self.sinks@.take(i as int)),
            decreases self.sinks.len() - i,
        {
            proof {
                let next = self.sinks@.take(i + 1);
                assert(next.drop_last() == self.sinks@.take(i as int));
                reveal_strlit(",");
            }
            if i != 0 {
                names.append(",");
            }
            names.append(self.sinks[i].name());
            i = i + 1;
            assert(names@ =~= joined_names(self.sinks@.take(i as int)));
        }
        assert(self.sinks@.take(i as int) == self.sinks@);
        names
    }
}

proof fn lemma_first_token_len(bytes: Seq<u8>, len: nat)
    requires
        len <= bytes.len(),
        forall|i: int| 0 <= i < len ==> bytes[i] != 0x2C,
        len == bytes.len() || bytes[len as int] == 0x2C,
    ensures
        first_token_len(bytes) == len,
    decreases len,
{
    if len > 0 {
        let rest = bytes.drop_first();
        assert forall|i: int| 0 <= i < len - 1 implies rest[i] != 0x2C by {
            assert(rest[i] == bytes[i + 1]);
        }
        lemma_first_token_len(rest, (len - 1) as nat);
    }
}

fn spells_word(token: &[u8], word: &[u8]) -> (same: bool)
    ensures
        same == spells(token@, word@),
{
    if token.len() != word.len() {
        return false;
    }
    let mut i: usize = 0;
    while i < token.len()
        invariant
            i <= token.len(),
            token.len() == word.len(),
            forall|j: int| 0 <= j < i ==> lower(token@[j]) == word@[j],
        decreases token.len() - i,
    {
        let byte: u8 = token[i];
        let low: u8 = if 0x41 <= byte && byte <= 0x5A {
            byte + 0x20
        } else {
            byte
        };
        if low != word[i] {
            return false;
        }
        i = i + 1;
    }
    true
}

/// The kind that `token` names, if it names one. Case does not matter.
pub fn sink_kind(token: &[u8]) -> (kind: Option<SinkKind>)
    ensures
        kind == kind_of(token@),
{
    let json: [u8; 4] = [0x6A, 0x73, 0x6F, 0x6E];
    let csv: [u8; 3] = [0x63, 0x73, 0x76];
    let sqlite: [u8; 6] = [0x73, 0x71, 0x6C, 0x69, 0x74, 0x65];
    assert(json@ =~= SinkKind::Json.word());
    assert(csv@ =~= SinkKind::Csv.word());
    assert(sqlite@ =~= SinkKind::Sqlite.word());
    if spells_word(token, json.as_slice()) {
        Some(SinkKind::Json)
    } else if spells_word(token, csv.as_slice()) {
        Some(SinkKind::Csv)
    } else if spells_word(token, sqlite.as_slice()) {
        Some(SinkKind::Sqlite)
    } else {
        None
    }
}

/// The sinks that a comma-separated list of formats selects.
pub fn parse_formats(formats: &str) -> (sink: MultiSink)
    ensures
        sink@ == kinds_of(formats.spec_bytes()),
{
    let bytes = formats.as_bytes();
    let mut sink = MultiSink::new();
    let mut start: usize = 0;
    assert(bytes@.skip(0) == bytes@);
    loop
        invariant
            start <= bytes.len(),
            bytes@ == formats.spec_bytes(),
            kinds_of(bytes@) == sink@ + kinds_of(bytes@.skip(start as int)),
        decreases bytes.len() - start,
    {
        let ghost rest = bytes@.skip(start as int);
        let mut end: usize = start;
        while end < bytes.len() && bytes[end] != 0x2C
            invariant
                start <= end <= bytes.len(),
                forall|i: int| start <= i < end ==> bytes@[i] != 0x2C,
            decreases bytes.len() - end,
        {
            end = end + 1;
        }
        proof {
            lemma_first_token_len(rest, (end - start) as nat);
            assert(rest.take(end - start) == bytes@.subrange(start as int, end as int));
        }
        let ghost before = sink@;
        match sink_kind(vstd::slice::slice_subrange(bytes, start, end)) {
            Some(kind) => {
                sink.add_sink(kind);
                assert(sink@ == before + seq![kind]);
            },
            None => {
                assert(sink@ == before + Seq::<SinkKind>::empty());
            },
        }
        if end == bytes.len() {
            assert(sink@ + Seq::<SinkKind>::empty() == sink@);
            return sink;
        }
        proof {
            let tail = bytes@.skip(end + 1);
            assert(rest.skip(end - start + 1) == tail);
            assert(kinds_of(rest) == sink@.skip(before.len() as int) + kinds_of(tail));
            assert(before + (sink@.skip(before.len() as int) + kinds_of(tail)) == sink@
                + kinds_of(tail));
        }
        start = end + 1;
    }
}

proof fn lemma_kinds_of_one_token(token: Seq<u8>)
    requires
        forall|i: int| 0 <= i < token.len() ==> token[i] != 0x2C,
    ensures
        kinds_of(token) == match kind_of(token) {
            Some(kind) => seq![kind],
            None => Seq::<SinkKind>::empty(),
        },
{
    lemma_first_token_len(token, token.len());
    assert(token.take(token.len() as int) == token);
}

/// A list that is cut at a comma selects what its two parts select, one
/// after the other.
pub proof fn lemma_kinds_of_list(front: Seq<u8>, back: Seq<u8>)
    ensures
        kinds_of(front + seq![0x2Cu8] + back) == kinds_of(front) + kinds_of(back),
    decreases front.len(),
{
    let list = front + seq![0x2Cu8] + back;
    let len = first_token_len(front);
    lemma_first_token_bound(front);
    assert forall|i: int| 0 <= i < len implies list[i] != 0x2C by {
        assert(list[i] == front[i]);
    }
    assert(list[len as int] == 0x2C) by {
        if len < front.len() {
            assert(list[len as int] == front[len as int]);
        }
    }
    lemma_first_token_len(list, len);
    assert(list.take(len as int) == front.take(len as int));
    let first = match kind_of(front.take(len as int)) {
        Some(kind) => seq![kind],
        None => Seq::<SinkKind>::empty(),
    };
    if len < front.len() {
        let rest = front.skip((len + 1) as int);
        assert(list.skip((len + 1) as int) == rest + seq![0x2Cu8] + back);
        lemma_kinds_of_list(rest, back);
        assert(first + (kinds_of(rest) + kinds_of(back)) == (first + kinds_of(rest)) + kinds_of(
            back,
        ));
    } else {
        assert(list.skip((len + 1) as int) == back);
    }
}

proof fn lemma_first_token_bound(bytes: Seq<u8>)
    ensures
        first_token_len(bytes) <= bytes.len(),
        forall|i: int| 0 <= i < first_token_len(bytes) ==> bytes[i] != 0x2C,
        first_token_len(bytes) < bytes.len() ==> bytes[first_token_len(bytes) as int] == 0x2C,
    decreases bytes.len(),
{
    if bytes.len() > 0 && bytes[0] != 0x2C {
        let rest = bytes.drop_first();
        lemma_first_token_bound(rest);
        assert forall|i: int| 0 <= i < first_token_len(bytes) implies bytes[i] != 0x2C by {
            if i > 0 {
                assert(bytes[i] == rest[i - 1]);
            }
        }
        if first_token_len(bytes) < bytes.len() {
            assert(bytes[first_token_len(bytes) as int] == rest[first_token_len(rest) as int]);
        }
    }
}

/// The name of a kind is its word, and the word names the kind.
pub proof fn lemma_word_names_its_kind(kind: SinkKind)
    ensures
        vstd::utf8::is_ascii_chars(kind.name_of()),
        vstd::utf8::encode_utf8(kind.name_of()) == kind.word(),
        kinds_of(kind.word()) == seq![kind],
{
    reveal_strlit("json");
    reveal_strlit("csv");
    reveal_strlit("sqlite");
    let name = kind.name_of();
    let word = kind.word();
    vstd::utf8::is_ascii_chars_encode_utf8(name);
    assert(vstd::utf8::encode_utf8(name) =~= word);
    assert forall|i: int| 0 <= i < word.len() implies lower(word[i]) == word[i] && word[i]
        != 0x2C by {}
    assert(spells(word, word));
    lemma_kinds_of_one_token(word);
}

proof fn lemma_ascii_concat(front: Seq<char>, back: Seq<char>)
    requires
        vstd::utf8::is_ascii_chars(front),
        vstd::utf8::is_ascii_chars(back),
    ensures
        vstd::utf8::is_ascii_chars(front + back),
        vstd::utf8::encode_utf8(front + back) == vstd::utf8::encode_utf8(front)
            + vstd::utf8::encode_utf8(back),
{
    let all = front + back;
    assert forall|i: int| 0 <= i < all.len() implies '\0' <= #[trigger] all[i] <= '\u{7f}' by {
        if i < front.len() {
            assert(all[i] == front[i]);
        } else {
            assert(all[i] == back[i - front.len()]);
        }
    }
    vstd::utf8::is_ascii_chars_encode_utf8(all);
    vstd::utf8::is_ascii_chars_encode_utf8(front);
    vstd::utf8::is_ascii_chars_encode_utf8(back);
    let left = vstd::utf8::encode_utf8(all);
    let right = vstd::utf8::encode_utf8(front) + vstd::utf8::encode_utf8(back);
    assert forall|i: int| 0 <= i < left.len() implies left[i] == right[i] by {
        if i < front.len() {
            assert(all[i] == front[i]);
        } else {
            assert(all[i] == back[i - front.len()]);
        }
    }
    assert(left =~= right);
}

/// Round trip: the names of a choice of sinks, read as a list of formats,
/// select those sinks again, in the same order.
pub proof fn lemma_names_select_their_sinks(kinds: Seq<SinkKind>)
    ensures
        vstd::utf8::is_ascii_chars(joined_names(kinds)),
        kinds_of(vstd::utf8::encode_utf8(joined_names(kinds))) == kinds,
    decreases kinds.len(),
{
    if kinds.len() == 0 {
        let none = Seq::<u8>::empty();
        assert(vstd::utf8::encode_utf8(Seq::<char>::empty()) == none);
        assert(none.take(0) == none);
        assert(!spells(none, SinkKind::Json.word()));
        assert(!spells(none, SinkKind::Csv.word()));
        assert(!spells(none, SinkKind::Sqlite.word()));
    } else if kinds.len() == 1 {
        lemma_word_names_its_kind(kinds[0]);
        assert(kinds == seq![kinds[0]]);
    } else {
        let front = joined_names(kinds.drop_last());
        let comma = seq![','];
        let last = kinds.last().name_of();
        lemma_names_select_their_sinks(kinds.drop_last());
        lemma_word_names_its_kind(kinds.last());
        assert(vstd::utf8::is_ascii_chars(comma));
        vstd::utf8::is_ascii_chars_encode_utf8(comma);
        assert(vstd::utf8::encode_utf8(comma) =~= seq![0x2Cu8]);
        lemma_ascii_concat(front, comma);
        lemma_ascii_concat(front + comma, last);
        lemma_kinds_of_list(vstd::utf8::encode_utf8(front), kinds.last().word());
        assert(kinds.drop_last() + seq![kinds.last()] == kinds);
    }
}

} // verus!
