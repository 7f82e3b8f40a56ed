//! One connection: the line protocol as a machine that is told what happened
//! on the socket and answers with what to do next.
//!
//! The host owns the socket. It carries out each [`Action`] and reports the
//! result as an [`Event`]: the bytes it read, that it wrote, what the address
//! tokens of an announcement denote, or how addresses are written. The
//! machine reads and changes the directory and never touches the socket.

use crate::address::{unmapped, IpAddress, PeerAddr};
use crate::directory::{asked, consistent, published, revealed, Directory, DirectoryView};
use crate::peers::StaticPeerMap;
use crate::text::{chars_of_bytes, latin1, split, split_at, strings_of, texts, trim, trimmed, utf8_text};
use vstd::prelude::*;
use vstd::string::*;
use vstd::utf8::{decode_utf8, valid_utf8};

verus! {

/// The byte `?`, with which the header of a question begins.
pub const QUERY_MARK: u8 = 63;

/// The byte `A`, with which the header of an announcement begins.
pub const ANNOUNCE_MARK: u8 = 65;

/// The byte of a space, with which every header ends.
pub const SPACE: u8 = 32;

/// The byte of a line feed, with which every line ends.
pub const LINE_FEED: u8 = 10;

/// Every command starts with this many bytes: a letter and a space.
pub const HEADER_LEN: usize = 2;

/// A peer key is this many bytes long on the wire.
pub const KEY_LEN: usize = 44;

/// A question is this many bytes after its header: the key and one more
/// byte, by custom a line feed, whose value is not looked at.
pub const QUERY_LEN: usize = 45;

/// An announcement line is shorter than this many bytes, not counting the
/// line feed that ends it.
pub const LINE_CAP: usize = 1000;

/// Why a session ended, or a connection was turned away.
#[derive(Clone, Copy, Debug, PartialEq, Eq, Structural)]
pub enum SessionError {
    /// The connection comes from an address that is not configured.
    UnknownSource,
    /// The stream ended inside a command.
    ShortRead,
    /// The key of a question is not well-formed UTF-8.
    KeyNotUtf8,
    /// An announcement line reached `LINE_CAP` bytes without a line feed.
    LineTooLong,
    /// A token of an announcement is not a socket address.
    BadAddress,
    /// Reading or writing failed.
    Io,
    /// A header was neither that of a question nor that of an announcement.
    UnknownCommand,
    /// The host reported something that the session was not waiting for.
    Unexpected,
}

/// What a session is waiting for.
#[derive(Clone, Copy, Debug, PartialEq, Eq, Structural)]
pub enum Phase {
    /// The header of the next command.
    Header,
    /// The key of a question and the byte after it.
    Query,
    /// The next byte of an announcement line.
    Line,
    /// What the tokens of an announcement denote.
    Parse,
    /// The written form of the addresses to reveal.
    Render,
    /// The end of the write of an answer.
    Reply,
    /// The end of the write that turns an unknown command down.
    Reject,
    /// Nothing: the session is over.
    Closed,
}

/// What the host reports.
#[derive(Debug, PartialEq, Eq)]
pub enum Event {
    /// The bytes of a read. They are as many as were asked for, or fewer if
    /// the stream ended first.
    Data(Vec<u8>),
    /// For each token of an announcement, in order, the socket address that
    /// it denotes, or `None` if it denotes none.
    Parsed(Vec<Option<PeerAddr>>),
    /// For each address to reveal, in order, its written form.
    Rendered(Vec<Vec<u8>>),
    /// The bytes to write were written.
    Written,
    /// Reading or writing failed.
    Failed,
}

/// What the host is to do next.
#[derive(Debug, PartialEq, Eq)]
pub enum Action {
    /// Read this many bytes and report them with `Event::Data`.
    Read(usize),
    /// Read each token as a socket address and report with `Event::Parsed`.
    Parse(Vec<String>),
    /// Write each address as text and report with `Event::Rendered`.
    Render(Vec<PeerAddr>),
    /// Write these bytes and report with `Event::Written`.
    Write(Vec<u8>),
    /// Close the connection. `Ok` is an orderly end.
    Close(Result<(), SessionError>),
}

/// The bytes of each element of `v`.
pub open spec fn byte_rows(v: Seq<Vec<u8>>) -> Seq<Seq<u8>> {
    v.map_values(|r: Vec<u8>| r@)
}

#[verifier::ext_equal]
pub enum EventView {
    Data(Seq<u8>),
    Parsed(Seq<Option<PeerAddr>>),
    Rendered(Seq<Seq<u8>>),
    Written,
    Failed,
}

#[verifier::ext_equal]
pub enum ActionView {
    Read(nat),
    Parse(Seq<Seq<char>>),
    Render(Seq<PeerAddr>),
    Write(Seq<u8>),
    Close(Result<(), SessionError>),
}

impl View for Event {
    type V = EventView;

    open spec fn view(&self) -> EventView {
        match self {
            Event::Data(bytes) => EventView::Data(bytes@),
            Event::Parsed(results) => EventView::Parsed(results@),
            Event::Rendered(lines) => EventView::Rendered(byte_rows(lines@)),
            Event::Written => EventView::Written,
            Event::Failed => EventView::Failed,
        }
    }
}

impl View for Action {
    type V = ActionView;

    open spec fn view(&self) -> ActionView {
        match self {
            Action::Read(n) => ActionView::Read(*n as nat),
            Action::Parse(tokens) => ActionView::Parse(texts(tokens@)),
            Action::Render(addrs) => ActionView::Render(addrs@),
            Action::Write(bytes) => ActionView::Write(bytes@),
            Action::Close(outcome) => ActionView::Close(*outcome),
        }
    }
}

/// A session as a value: whose it is, what it waits for, the bytes of the
/// announcement line read so far, and how many answers the host owes.
#[verifier::ext_equal]
pub struct SessionView {
    pub key: Seq<char>,
    pub phase: Phase,
    pub line: Seq<u8>,
    pub expected: nat,
}

/// The session, the directory and the next action after an event.
#[verifier::ext_equal]
pub struct Turn {
    pub session: SessionView,
    pub directory: DirectoryView,
    pub action: ActionView,
}

/// The header of a question: `?` and a space.
pub open spec fn query_header() -> Seq<u8> {
    seq![QUERY_MARK, SPACE]
}

/// The header of an announcement: `A` and a space.
pub open spec fn announce_header() -> Seq<u8> {
    seq![ANNOUNCE_MARK, SPACE]
}

/// The answer to a header that is neither: the line `unknown command`.
pub open spec fn unknown_reply() -> Seq<u8> {
    "unknown command\n".spec_bytes()
}

/// The lines `lines`, each ended by a line feed.
pub open spec fn ended_lines(lines: Seq<Seq<u8>>) -> Seq<u8>
    decreases lines.len(),
{
    if lines.len() == 0 {
        Seq::empty()
    } else {
        ended_lines(lines.drop_last()) + lines.last().push(LINE_FEED)
    }
}

/// The answer to a question: one line for each address, then an empty line.
pub open spec fn response(lines: Seq<Seq<u8>>) -> Seq<u8> {
    ended_lines(lines).push(LINE_FEED)
}

/// The tokens of an announcement line: the line without the white space at
/// its ends, split at every single space.
pub open spec fn tokens(line: Seq<u8>) -> Seq<Seq<char>> {
    split(trimmed(latin1(line)), ' ')
}

/// Every token denotes an address.
pub open spec fn all_denote(results: Seq<Option<PeerAddr>>) -> bool {
    forall|i: int| 0 <= i < results.len() ==> (#[trigger] results[i]) is Some
}

/// The addresses that the tokens denote.
pub open spec fn denoted(results: Seq<Option<PeerAddr>>) -> Seq<PeerAddr> {
    results.map_values(|r: Option<PeerAddr>| r->0)
}

/// A session of `key` that waits for its first header.
pub open spec fn opened(key: Seq<char>) -> SessionView {
    SessionView { key, phase: Phase::Header, line: Seq::empty(), expected: 0 }
}

/// The turn in which the session goes over to `phase`.
pub open spec fn moved(
    s: SessionView,
    phase: Phase,
    expected: nat,
    d: DirectoryView,
    action: ActionView,
) -> Turn {
    Turn {
        session: SessionView { key: s.key, phase, line: Seq::empty(), expected },
        directory: d,
        action,
    }
}

/// The turn in which the session ends.
pub open spec fn ended(s: SessionView, d: DirectoryView, outcome: Result<(), SessionError>) -> Turn {
    moved(s, Phase::Closed, 0, d, ActionView::Close(outcome))
}

/// The turn in which the session waits for the next header.
pub open spec fn ready(s: SessionView, d: DirectoryView) -> Turn {
    moved(s, Phase::Header, 0, d, ActionView::Read(HEADER_LEN as nat))
}

/// What follows the bytes `data` of a read.
///
/// Waiting for a header: no byte at all is the orderly end of the session, a
/// single byte is a short read; `? ` starts a question, `A ` an
/// announcement, and any other header is answered with `unknown command`,
/// after which the session ends: what follows an unknown header has no
/// frame, so nothing more is read.
///
/// Waiting for a question: its key must be well-formed UTF-8. The asking
/// peer is told the addresses of the peer asked about if it is among that
/// peer's contacts, and is added to those contacts if it is not.
///
/// Waiting for a byte of an announcement: a line feed ends the line, and the
/// host is asked what its tokens denote. Any other byte is kept, unless the
/// line thereby reaches `LINE_CAP` bytes.
pub open spec fn after_data(s: SessionView, d: DirectoryView, data: Seq<u8>) -> Turn {
    match s.phase {
        Phase::Header => {
            if data.len() == 0 {
                ended(s, d, Ok(()))
            } else if data.len() != HEADER_LEN {
                ended(s, d, Err(SessionError::ShortRead))
            } else if data == query_header() {
                moved(s, Phase::Query, 0, d, ActionView::Read(QUERY_LEN as nat))
            } else if data == announce_header() {
                moved(s, Phase::Line, 0, d, ActionView::Read(1))
            } else {
                moved(s, Phase::Reject, 0, d, ActionView::Write(unknown_reply()))
            }
        },
        Phase::Query => {
            if data.len() != QUERY_LEN {
                ended(s, d, Err(SessionError::ShortRead))
            } else if !valid_utf8(data.take(KEY_LEN as int)) {
                ended(s, d, Err(SessionError::KeyNotUtf8))
            } else {
                let target = decode_utf8(data.take(KEY_LEN as int));
                let addrs = revealed(d, s.key, target);
                moved(
                    s,
                    Phase::Render,
                    addrs.len(),
                    asked(d, s.key, target),
                    ActionView::Render(addrs),
                )
            }
        },
        Phase::Line => {
            if data.len() != 1 {
                ended(s, d, Err(SessionError::ShortRead))
            } else if data[0] == LINE_FEED {
                moved(s, Phase::Parse, tokens(s.line).len(), d, ActionView::Parse(tokens(s.line)))
            } else if s.line.len() + 1 >= LINE_CAP {
                ended(s, d, Err(SessionError::LineTooLong))
            } else {
                Turn {
                    session: SessionView {
                        key: s.key,
                        phase: Phase::Line,
                        line: s.line.push(data[0]),
                        expected: 0,
                    },
                    directory: d,
                    action: ActionView::Read(1),
                }
            }
        },
        _ => ended(s, d, Err(SessionError::Unexpected)),
    }
}

/// What follows the host's reading of the tokens of an announcement: if
/// there is one result for each token and every token denotes an address,
/// these addresses replace those of the session's peer; otherwise the
/// session ends and the directory stays as it is.
pub open spec fn after_parsed(s: SessionView, d: DirectoryView, results: Seq<Option<PeerAddr>>) -> Turn {
    if s.phase != Phase::Parse {
        ended(s, d, Err(SessionError::Unexpected))
    } else if results.len() == s.expected && all_denote(results) {
        ready(s, published(d, s.key, denoted(results)))
    } else {
        ended(s, d, Err(SessionError::BadAddress))
    }
}

/// What follows the written forms of the addresses to reveal: they are sent
/// one to a line, and an empty line after them.
pub open spec fn after_rendered(s: SessionView, d: DirectoryView, lines: Seq<Seq<u8>>) -> Turn {
    if s.phase == Phase::Render && lines.len() == s.expected {
        moved(s, Phase::Reply, 0, d, ActionView::Write(response(lines)))
    } else {
        ended(s, d, Err(SessionError::Unexpected))
    }
}

/// What follows the end of a write: after an answer the next header is
/// read, after the refusal of an unknown command the session ends.
pub open spec fn after_written(s: SessionView, d: DirectoryView) -> Turn {
    if s.phase == Phase::Reply {
        ready(s, d)
    } else if s.phase == Phase::Reject {
        ended(s, d, Err(SessionError::UnknownCommand))
    } else {
        ended(s, d, Err(SessionError::Unexpected))
    }
}

/// What follows a failed read or write: the session ends.
pub open spec fn after_failure(s: SessionView, d: DirectoryView) -> Turn {
    if s.phase == Phase::Closed {
        ended(s, d, Err(SessionError::Unexpected))
    } else {
        ended(s, d, Err(SessionError::Io))
    }
}

/// The session, the directory and the next action after `event`.
pub open spec fn next(s: SessionView, d: DirectoryView, event: EventView) -> Turn {
    match event {
        EventView::Data(data) => after_data(s, d, data),
        EventView::Parsed(results) => after_parsed(s, d, results),
        EventView::Rendered(lines) => after_rendered(s, d, lines),
        EventView::Written => after_written(s, d),
        EventView::Failed => after_failure(s, d),
    }
}

/// A question about a peer that is not configured leaves the directory as it
/// is and is answered with an empty line and nothing else.
pub proof fn unknown_target_gets_empty_line(s: SessionView, d: DirectoryView, data: Seq<u8>)
    requires
        s.phase == Phase::Query,
        data.len() == QUERY_LEN,
        valid_utf8(data.take(KEY_LEN as int)),
        !d.dom().contains(decode_utf8(data.take(KEY_LEN as int))),
    ensures
        after_data(s, d, data).directory == d,
        after_data(s, d, data).action == ActionView::Render(Seq::empty()),
        after_rendered(after_data(s, d, data).session, d, Seq::empty()).action == ActionView::Write(
            seq![LINE_FEED],
        ),
{
    assert(response(Seq::empty()) =~= seq![LINE_FEED]);
}

/// Whatever the host reports, a session never changes whose it is, never
/// changes the keys of the directory, and never lists a peer twice among the
/// contacts of another.
pub proof fn step_keeps_directory_sound(s: SessionView, d: DirectoryView, event: EventView)
    ensures
        next(s, d, event).session.key == s.key,
        next(s, d, event).directory.dom() == d.dom(),
        consistent(d) ==> consistent(next(s, d, event).directory),
{
    let after = next(s, d, event).directory;
    assert(after.dom() =~= d.dom());
    if consistent(d) {
        assert forall|k: Seq<char>| after.dom().contains(k) implies (#[trigger] after[k]).contacts.no_duplicates() by {
            assert(d[k].contacts.no_duplicates());
        }
    }
}

/// A session changes the directory in two ways only: by an announcement of
/// its own peer, and by adding its own peer to the contacts of a peer it
/// asked about. A session that has ended changes nothing.
pub proof fn step_changes_only_its_own(s: SessionView, d: DirectoryView, event: EventView)
    ensures
        ({
            let after = next(s, d, event).directory;
            ||| after == d
            ||| exists|target: Seq<char>| after == asked(d, s.key, target)
            ||| exists|addrs: Seq<PeerAddr>| after == published(d, s.key, addrs)
        }),
        s.phase == Phase::Closed ==> next(s, d, event).directory == d && next(
            s,
            d,
            event,
        ).session.phase == Phase::Closed,
{
    let after = next(s, d, event).directory;
    match event {
        EventView::Data(data) => {
            if s.phase == Phase::Query && data.len() == QUERY_LEN && valid_utf8(
                data.take(KEY_LEN as int),
            ) {
                assert(after == asked(d, s.key, decode_utf8(data.take(KEY_LEN as int))));
            }
        },
        EventView::Parsed(results) => {
            if s.phase == Phase::Parse && results.len() == s.expected && all_denote(results) {
                assert(after == published(d, s.key, denoted(results)));
            }
        },
        _ => {},
    }
}

/// The state of one connection.
#[derive(Debug)]
pub struct Session {
    key: String,
    phase: Phase,
    line: Vec<u8>,
    expected: usize,
}

impl View for Session {
    type V = SessionView;

    closed spec fn view(&self) -> SessionView {
        SessionView {
            key: self.key@,
            phase: self.phase,
            line: self.line@,
            expected: self.expected as nat,
        }
    }
}

/// Puts the lines together, each ended by a line feed, and ends the answer
/// with an empty line.
pub fn frame_response(lines: &Vec<Vec<u8>>) -> (out: Vec<u8>)
    ensures
        out@ == response(byte_rows(lines@)),
{
    let mut out: Vec<u8> = Vec::new();
    let mut i: usize = 0;
    assert(byte_rows(lines@).take(0) =~= Seq::<Seq<u8>>::empty());
    while i < lines.len()
        invariant
            i <= lines.len(),
            out@ == ended_lines(byte_rows(lines@).take(i as int)),
        decreases lines.len() - i,
    {
        let line = &lines[i];
        let ghost start = out@;
        let mut j: usize = 0;
        while j < line.len()
            invariant
                j <= line.len(),
                out@ == start + line@.take(j as int),
            decreases line.len() - j,
        {
            out.push(line[j]);
            assert(line@.take(j as int).push(line@[j as int]) =~= line@.take(j + 1));
            j += 1;
        }
        out.push(LINE_FEED);
        proof {
            let rows = byte_rows(lines@);
            assert(line@.take(line.len() as int) =~= line@);
            assert(rows.take(i + 1).drop_last() =~= rows.take(i as int));
            assert(rows.take(i + 1).last() == line@);
            assert(out@ =~= start + line@.push(LINE_FEED));
        }
        i += 1;
    }
    assert(byte_rows(lines@).take(lines.len() as int) =~= byte_rows(lines@));
    out.push(LINE_FEED);
    out
}

/// The addresses that `results` denote, if every one of them denotes one.
pub fn collect_addresses(results: &Vec<Option<PeerAddr>>) -> (r: Option<Vec<PeerAddr>>)
    ensures
        r is Some == all_denote(results@),
        r matches Some(addrs) ==> addrs@ == denoted(results@),
{
    let mut addrs: Vec<PeerAddr> = Vec::new();
    let mut i: usize = 0;
    while i < results.len()
        invariant
            i <= results.len(),
            addrs.len() == i,
            forall|j: int| 0 <= j < i ==> (#[trigger] results[j]) == Some(addrs[j]),
        decreases results.len() - i,
    {
        match results[i] {
            Some(a) => addrs.push(a),
            None => {
                return None;
            },
        }
        i += 1;
    }
    assert(addrs@ =~= denoted(results@));
    Some(addrs)
}

/// The tokens of the announcement line `line`.
pub fn announce_tokens(line: &Vec<u8>) -> (r: Vec<String>)
    ensures
        texts(r@) == tokens(line@),
{
    let chars = chars_of_bytes(line);
    let inner = trim(&chars);
    let parts = split_at(&inner, ' ');
    strings_of(&parts)
}

impl Session {
    /// The session is well formed: it holds bytes of a line only while it
    /// reads one, and then fewer than `LINE_CAP`.
    pub closed spec fn wf(&self) -> bool {
        &&& self.line.len() < LINE_CAP
        &&& self.phase != Phase::Line ==> self.line.len() == 0
        &&& self.phase != Phase::Parse && self.phase != Phase::Render ==> self.expected == 0
    }

    /// A session of the peer `key` that waits for its first header.
    pub fn new(key: String) -> (s: Session)
        ensures
            s.wf(),
            s@ == opened(key@),
    {
        Session { key, phase: Phase::Header, line: Vec::new(), expected: 0 }
    }

    /// What the session is waiting for.
    pub fn phase(&self) -> (p: Phase)
        ensures
            p == self@.phase,
    {
        self.phase
    }

    /// The key of the peer whose session this is.
    pub fn key(&self) -> (k: &String)
        ensures
            k@ == self@.key,
    {
        &self.key
    }

    fn go(&mut self, phase: Phase, expected: usize)
        requires
            phase != Phase::Parse && phase != Phase::Render ==> expected == 0,
        ensures
            final(self).wf(),
            final(self)@ == (SessionView {
                key: old(self)@.key,
                phase,
                line: Seq::empty(),
                expected: expected as nat,
            }),
    {
        self.phase = phase;
        self.line = Vec::new();
        self.expected = expected;
    }

    fn end(&mut self, outcome: Result<(), SessionError>) -> (action: Action)
        ensures
            final(self).wf(),
            final(self)@ == (SessionView {
                key: old(self)@.key,
                phase: Phase::Closed,
                line: Seq::empty(),
                expected: 0,
            }),
            action@ == ActionView::Close(outcome),
    {
        self.go(Phase::Closed, 0);
        Action::Close(outcome)
    }

    fn on_data(&mut self, dir: &mut Directory, data: Vec<u8>) -> (action: Action)
        requires
            old(self).wf(),
            old(dir).wf(),
        ensures
            final(self).wf(),
            final(dir).wf(),
            final(self)@ == after_data(old(self)@, old(dir)@, data@).session,
            final(dir)@ == after_data(old(self)@, old(dir)@, data@).directory,
            action@ == after_data(old(self)@, old(dir)@, data@).action,
    {
        match self.phase {
            Phase::Header => {
                if data.len() == 0 {
                    self.end(Ok(()))
                } else if data.len() != HEADER_LEN {
                    self.end(Err(SessionError::ShortRead))
                } else if data[0] == QUERY_MARK && data[1] == SPACE {
                    assert(data@ =~= query_header());
                    self.go(Phase::Query, 0);
                    Action::Read(QUERY_LEN)
                } else if data[0] == ANNOUNCE_MARK && data[1] == SPACE {
                    assert(data@ =~= announce_header());
                    self.go(Phase::Line, 0);
                    Action::Read(1)
                } else {
                    assert(data@ != query_header()) by {
                        assert(query_header()[0] == QUERY_MARK && query_header()[1] == SPACE);
                    }
                    assert(data@ != announce_header()) by {
                        assert(announce_header()[0] == ANNOUNCE_MARK && announce_header()[1] == SPACE);
                    }
                    self.go(Phase::Reject, 0);
                    Action::Write("unknown command\n".as_bytes_vec())
                }
            },
            Phase::Query => {
                if data.len() != QUERY_LEN {
                    self.end(Err(SessionError::ShortRead))
                } else {
                    let key_bytes = vstd::slice::slice_subrange(data.as_slice(), 0, KEY_LEN);
                    assert(key_bytes@ =~= data@.take(KEY_LEN as int));
                    match utf8_text(key_bytes) {
                        None => self.end(Err(SessionError::KeyNotUtf8)),
                        Some(target) => {
                            proof {
                                vstd::utf8::encode_utf8_decode_utf8(target@);
                            }
                            let (addrs, _) = dir.lookup(self.key.as_str(), target);
                            self.go(Phase::Render, addrs.len());
                            Action::Render(addrs)
                        },
                    }
                }
            },
            Phase::Line => {
                if data.len() != 1 {
                    self.end(Err(SessionError::ShortRead))
                } else if data[0] == LINE_FEED {
                    let tokens = announce_tokens(&self.line);
                    self.go(Phase::Parse, tokens.len());
                    Action::Parse(tokens)
                } else if self.line.len() + 1 >= LINE_CAP {
                    self.end(Err(SessionError::LineTooLong))
                } else {
                    self.line.push(data[0]);
                    Action::Read(1)
                }
            },
            _ => self.end(Err(SessionError::Unexpected)),
        }
    }

    /// Takes the session one step further: given what the host reports, it
    /// updates the session and the directory and says what to do next.
    pub fn step(&mut self, dir: &mut Directory, event: Event) -> (action: Action)
        requires
            old(self).wf(),
            old(dir).wf(),
        ensures
            final(self).wf(),
            final(dir).wf(),
            final(self)@ == next(old(self)@, old(dir)@, event@).session,
            final(dir)@ == next(old(self)@, old(dir)@, event@).directory,
            action@ == next(old(self)@, old(dir)@, event@).action,
    {
        match event {
            Event::Data(data) => self.on_data(dir, data),
            Event::Parsed(results) => {
                if self.phase != Phase::Parse {
                    self.end(Err(SessionError::Unexpected))
                } else if results.len() != self.expected {
                    self.end(Err(SessionError::BadAddress))
                } else {
                    match collect_addresses(&results) {
                        Some(addrs) => {
                            dir.publish(self.key.as_str(), addrs);
                            self.go(Phase::Header, 0);
                            Action::Read(HEADER_LEN)
                        },
                        None => self.end(Err(SessionError::BadAddress)),
                    }
                }
            },
            Event::Rendered(lines) => {
                if self.phase == Phase::Render && lines.len() == self.expected {
                    let out = frame_response(&lines);
                    self.go(Phase::Reply, 0);
                    Action::Write(out)
                } else {
                    self.end(Err(SessionError::Unexpected))
                }
            },
            Event::Written => {
                if self.phase == Phase::Reply {
                    self.go(Phase::Header, 0);
                    Action::Read(HEADER_LEN)
                } else if self.phase == Phase::Reject {
                    self.end(Err(SessionError::UnknownCommand))
                } else {
                    self.end(Err(SessionError::Unexpected))
                }
            },
            Event::Failed => {
                if self.phase == Phase::Closed {
                    self.end(Err(SessionError::Unexpected))
                } else {
                    self.end(Err(SessionError::Io))
                }
            },
        }
    }
}

/// What to do with a new connection from `source`.
pub open spec fn admitted(peers: Map<IpAddress, Seq<char>>, source: IpAddress) -> ActionView {
    if peers.dom().contains(unmapped(source)) {
        ActionView::Read(HEADER_LEN as nat)
    } else {
        ActionView::Close(Err(SessionError::UnknownSource))
    }
}

/// Decides on a new connection by the address it comes from.
///
/// If the normal form of `source` is the address of a configured peer, the
/// result is a session of that peer and the order to read its first header.
/// If it is not, there is no session, and the one order is to close the
/// connection: nothing is to be read from it or written to it.
pub fn accept(peers: &StaticPeerMap, source: IpAddress) -> (r: (Option<Session>, Action))
    requires
        peers.wf(),
    ensures
        r.1@ == admitted(peers@, source),
        r.0 is Some == peers@.dom().contains(unmapped(source)),
        r.0 matches Some(s) ==> s.wf() && s@ == opened(peers@[unmapped(source)]),
{
    match peers.resolve(source) {
        Some(key) => (Some(Session::new(key)), Action::Read(HEADER_LEN)),
        None => (None, Action::Close(Err(SessionError::UnknownSource))),
    }
}

} // verus!
