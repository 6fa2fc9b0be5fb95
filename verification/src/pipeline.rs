//! The sender-side pipeline state machine and the receiver-side responder.
//! These functions decide; the surrounding program performs the reads and
//! writes they call for.

use vstd::prelude::*;
use vstd::string::{StringExecFns, StrSliceExecFns};

use crate::index_table::{table_complete, table_wf, IndexTable};
use crate::index_table::build_index_table;
use crate::messages::{ClientServerOpts, DataMessage, FlistEntry, FlistEntryV, Message, SSHMessageError};

verus! {

/// What can go wrong while driving a session.
#[derive(Debug, Clone, PartialEq, Eq)]
pub enum Error {
    /// The peer reported an error through the tunnel.
    Message(SSHMessageError),
    /// The underlying pipe or filesystem failed.
    IO,
    /// A message could not be encoded for the wire.
    Encoding,
    /// Incoming bytes did not decode to a message.
    Decoding,
    /// A message arrived that is not legal in the current state.
    UnexpectedMessage(Message),
    /// The peer refused the handshake.
    Nack,
    /// A read timed out.
    IoTimeout,
}

/// Where a session stands.  States move only forward; `Error` is terminal.
#[derive(Debug)]
pub enum PipelineState {
    Disconnected,
    Connecting,
    Connected,
    Error(Error),
}

impl PipelineState {
    /// States compare by position alone: which error a session died of does
    /// not distinguish two dead sessions.
    pub open spec fn same_stage(self, other: PipelineState) -> bool {
        match (self, other) {
            (PipelineState::Disconnected, PipelineState::Disconnected) => true,
            (PipelineState::Connecting, PipelineState::Connecting) => true,
            (PipelineState::Connected, PipelineState::Connected) => true,
            (PipelineState::Error(_), PipelineState::Error(_)) => true,
            _ => false,
        }
    }
}

impl PartialEq for PipelineState {
    fn eq(&self, other: &Self) -> (r: bool) {
        match (self, other) {
            (PipelineState::Disconnected, PipelineState::Disconnected) => true,
            (PipelineState::Connecting, PipelineState::Connecting) => true,
            (PipelineState::Connected, PipelineState::Connected) => true,
            (PipelineState::Error(_), PipelineState::Error(_)) => true,
            _ => false,
        }
    }
}

impl vstd::std_specs::cmp::PartialEqSpecImpl for PipelineState {
    open spec fn obeys_eq_spec() -> bool {
        true
    }

    open spec fn eq_spec(&self, other: &PipelineState) -> bool {
        self.same_stage(*other)
    }
}

impl Default for PipelineState {
    fn default() -> (r: Self)
        ensures
            r is Disconnected,
    {
        PipelineState::Disconnected
    }
}

/// The sender side of a session: its state, the file list received so far,
/// and the raw statistics payload, if any.
pub struct Pipeline {
    pub connected: PipelineState,
    pub flist: Vec<FlistEntry>,
    pub stats: Vec<u8>,
}

impl Pipeline {
    pub fn new() -> (r: Self)
        ensures
            r.connected is Disconnected,
            r.flist@.len() == 0,
            r.stats@.len() == 0,
    {
        Pipeline { connected: PipelineState::Disconnected, flist: Vec::new(), stats: Vec::new() }
    }

    /// Open the handshake: the pipeline moves to `Connecting` and hands back
    /// the `SYNC` message to write.
    pub fn init(&mut self) -> (r: Message)
        requires
            old(self).connected is Disconnected,
        ensures
            final(self).connected is Connecting,
            final(self).flist == old(self).flist,
            final(self).stats == old(self).stats,
            r == Message::SYNC,
    {
        self.connected = PipelineState::Connecting;
        Message::SYNC
    }

    /// Take the handshake reply.  `ACK` connects; `NACK` is the peer's
    /// refusal; from `Connecting`, any other message moves the pipeline to
    /// `Error(UnexpectedMessage)`, deterministically.
    pub fn on_connect_reply(&mut self, msg: Message) -> (r: Result<(), Error>)
        requires
            old(self).connected is Connecting,
        ensures
            final(self).flist == old(self).flist,
            final(self).stats == old(self).stats,
            match msg {
                Message::ACK => final(self).connected is Connected && r is Ok,
                Message::NACK => final(self).connected matches PipelineState::Error(e) && e
                    == Error::Nack && r == Result::<(), Error>::Err(Error::Nack),
                _ => (final(self).connected matches PipelineState::Error(e) && e matches
                    Error::UnexpectedMessage(m2) && m2@ == msg@) && r == Result::<(), Error>::Err(
                    Error::UnexpectedMessage(msg),
                ),
            },
    {
        match msg {
            Message::ACK => {
                self.connected = PipelineState::Connected;
                Ok(())
            },
            Message::NACK => {
                self.connected = PipelineState::Error(Error::Nack);
                Err(Error::Nack)
            },
            _ => {
                let copy = msg.duplicate();
                self.connected = PipelineState::Error(Error::UnexpectedMessage(copy));
                Err(Error::UnexpectedMessage(msg))
            },
        }
    }

    /// The configuration message for the receiver.
    pub fn send_arguments(&self, opts: ClientServerOpts) -> (r: Message)
        ensures
            r == Message::Arguments(opts),
    {
        Message::Arguments(opts)
    }

    /// Take one message of the file-list stream.  An entry is appended to
    /// the list; `FlistEnd` ends the stream (`Ok(true)`); anything else
    /// moves the pipeline to `Error(UnexpectedMessage)`, deterministically.
    pub fn receive_flist(&mut self, msg: Message) -> (r: Result<bool, Error>)
        requires
            old(self).connected is Connected,
        ensures
            final(self).stats == old(self).stats,
            match msg {
                Message::FlistEntry(entry) => final(self).flist@ == old(self).flist@.push(entry)
                    && final(self).connected == old(self).connected && r
                    == Result::<bool, Error>::Ok(false),
                Message::FlistEnd => *final(self) == *old(self) && r == Result::<bool, Error>::Ok(
                    true,
                ),
                _ => final(self).flist == old(self).flist && (final(self).connected matches
                    PipelineState::Error(e) && e matches Error::UnexpectedMessage(m2) && m2@
                    == msg@) && r == Result::<bool, Error>::Err(Error::UnexpectedMessage(msg)),
            },
    {
        match msg {
            Message::FlistEntry(entry) => {
                self.flist.push(entry);
                Ok(false)
            },
            Message::FlistEnd => Ok(true),
            _ => {
                let copy = msg.duplicate();
                self.connected = PipelineState::Error(Error::UnexpectedMessage(copy));
                Err(Error::UnexpectedMessage(msg))
            },
        }
    }

    /// Take one message of the statistics stream, while connected.  `Stats`
    /// stores the payload and the stream goes on; `IoTimeout` and anything
    /// else end the session in the matching error, deterministically.
    pub fn receive_stats(&mut self, msg: Message) -> (r: Result<bool, Error>)
        requires
            old(self).connected is Connected,
        ensures
            final(self).flist == old(self).flist,
            match msg {
                Message::Stats(payload) => final(self).stats@ == payload@ && final(self).connected
                    == old(self).connected && r == Result::<bool, Error>::Ok(false),
                Message::IoTimeout => final(self).stats == old(self).stats
                    && (final(self).connected matches PipelineState::Error(e) && e == Error::IoTimeout) && r
                    == Result::<bool, Error>::Err(Error::IoTimeout),
                _ => final(self).stats == old(self).stats && (final(self).connected matches
                    PipelineState::Error(e) && e matches Error::UnexpectedMessage(m2) && m2@
                    == msg@) && r == Result::<bool, Error>::Err(Error::UnexpectedMessage(msg)),
            },
    {
        match msg {
            Message::Stats(payload) => {
                self.stats = payload;
                Ok(false)
            },
            Message::IoTimeout => {
                self.connected = PipelineState::Error(Error::IoTimeout);
                Err(Error::IoTimeout)
            },
            _ => {
                let copy = msg.duplicate();
                self.connected = PipelineState::Error(Error::UnexpectedMessage(copy));
                Err(Error::UnexpectedMessage(msg))
            },
        }
    }

    /// The request message for the `k`-th file of the list, if there is one.
    pub fn file_request(&self, k: usize) -> (r: Option<Message>)
        ensures
            match r {
                Some(m) => k < self.flist@.len() && m == Message::FileIndex(
                    self.flist@[k as int].index,
                ),
                None => k >= self.flist@.len(),
            },
    {
        if k < self.flist.len() {
            Some(Message::FileIndex(self.flist[k].index))
        } else {
            None
        }
    }
}

/// What the receiver must do next after taking one message.
pub enum ServerAction {
    /// Write this message back through the tunnel.
    Reply(Message),
    /// Nothing to write; the message only changed the configuration.
    NoReply,
    /// Enumerate the destination tree at the stored configuration's root,
    /// then hand the entries to `flist_reply`.
    Enumerate,
    /// Read the named file, then hand its bytes to `index_reply` with this
    /// file index.
    ReadFile(String, u32),
}

/// The receiver side of a session: the stored configuration and its own
/// copy of the file list it produced.
pub struct Server {
    pub opts: ClientServerOpts,
    pub flist: Vec<FlistEntry>,
}

impl Server {
    pub fn new() -> (r: Self)
        ensures
            r.opts@.to.len() == 0,
            r.opts@.exclude.len() == 0,
            !r.opts@.recursive,
            r.flist@.len() == 0,
    {
        Server {
            opts: ClientServerOpts {
                to: String::new(),
                delete: false,
                recursive: false,
                dry_run: false,
                verbose: false,
                exclude: Vec::new(),
            },
            flist: Vec::new(),
        }
    }

    /// Decide what one incoming message calls for: `SYNC` is acknowledged,
    /// `Arguments` stores the configuration, `ACK` triggers enumeration, a
    /// `FileIndex` in range asks for that file's bytes, and anything else
    /// is answered with a fatal error.
    pub fn handle(&mut self, msg: Message) -> (r: ServerAction)
        ensures
            final(self).flist == old(self).flist,
            match msg {
                Message::SYNC => *final(self) == *old(self) && r == ServerAction::Reply(
                    Message::ACK,
                ),
                Message::Arguments(o) => final(self).opts == o && r == ServerAction::NoReply,
                Message::ACK => *final(self) == *old(self) && r is Enumerate,
                Message::FileIndex(i) => *final(self) == *old(self) && (if i < old(self).flist@.len() {
                    r matches ServerAction::ReadFile(name, i2) && name@ == old(
                        self,
                    ).flist@[i as int]@.filename && i2 == i
                } else {
                    r matches ServerAction::Reply(m) && m matches Message::Error(e) && e is
                        FatalError
                }),
                _ => *final(self) == *old(self) && (r matches ServerAction::Reply(m) && m matches
                    Message::Error(e) && e is FatalError),
            },
    {
        match msg {
            Message::SYNC => ServerAction::Reply(Message::ACK),
            Message::Arguments(o) => {
                self.opts = o;
                ServerAction::NoReply
            },
            Message::ACK => ServerAction::Enumerate,
            Message::FileIndex(i) => {
                if (i as usize) < self.flist.len() {
                    let name = self.flist[i as usize].filename.clone();
                    ServerAction::ReadFile(name, i)
                } else {
                    ServerAction::Reply(
                        Message::Error(
                            SSHMessageError::FatalError(String::from_str("Invalid file index")),
                        ),
                    )
                }
            },
            _ => ServerAction::Reply(
                Message::Error(
                    SSHMessageError::FatalError(String::from_str("Unknown message received")),
                ),
            ),
        }
    }

    /// Turn the enumerated entries into the file-list stream: indices are
    /// assigned consecutively from zero in enumeration order, the indexed
    /// list is retained for later lookups, and the stream ends with
    /// `FlistEnd`.
    pub fn flist_reply(&mut self, entries: Vec<FlistEntry>) -> (r: Vec<Message>)
        requires
            entries@.len() <= u32::MAX,
        ensures
            final(self).opts == old(self).opts,
            final(self).flist@.len() == entries@.len(),
            forall|k: int|
                0 <= k < entries@.len() ==> (#[trigger] final(self).flist@[k])@ == (FlistEntryV {
                    index: k as u32,
                    ..entries@[k]@
                }),
            r@.len() == entries@.len() + 1,
            forall|k: int|
                0 <= k < entries@.len() ==> ((#[trigger] r@[k]) matches Message::FlistEntry(e)
                    && e@ == final(self).flist@[k]@),
            r@[entries@.len() as int] == Message::FlistEnd,
    {
        let mut msgs: Vec<Message> = Vec::new();
        let mut list: Vec<FlistEntry> = Vec::new();
        let n = entries.len();
        let mut k: usize = 0;
        while k < n
            invariant
                0 <= k <= n,
                n == entries@.len(),
                n <= u32::MAX,
                list@.len() == k,
                msgs@.len() == k,
                forall|j: int|
                    0 <= j < k ==> (#[trigger] list@[j])@ == (FlistEntryV {
                        index: j as u32,
                        ..entries@[j]@
                    }),
                forall|j: int|
                    0 <= j < k ==> ((#[trigger] msgs@[j]) matches Message::FlistEntry(e)
                        && e@ == list@[j]@),
            decreases n - k,
        {
            let src = &entries[k];
            let indexed = FlistEntry {
                index: k as u32,
                filename: src.filename.clone(),
                size: src.size,
                mtime: src.mtime,
                mode: src.mode,
                uid: src.uid,
                gid: src.gid,
                is_dir: src.is_dir,
                is_symlink: src.is_symlink,
            };
            msgs.push(Message::FlistEntry(indexed.duplicate()));
            list.push(indexed);
            k = k + 1;
        }
        msgs.push(Message::FlistEnd);
        self.flist = list;
        msgs
    }

    /// Build the reply to a `FileIndex` request out of the file's bytes:
    /// a `Data` message carrying the faithful, complete index table of
    /// those bytes.
    pub fn index_reply(&self, file_index: u32, base: &[u8], block_size: usize) -> (r: Message)
        requires
            block_size >= 1,
        ensures
            r matches Message::Data(d) && d.file_index == file_index && table_wf(
                d.map.entries@,
                base@,
                block_size as int,
            ) && table_complete(d.map.entries@, base@, block_size as int),
    {
        let table = build_index_table(base, block_size);
        Message::Data(DataMessage { file_index, map: table })
    }
}

/// How to reach the remote peer and what to run there.
#[derive(Debug, Clone)]
pub struct SSHCommand {
    pub host: String,
    pub port: u16,
    pub username: String,
    pub password: Option<String>,
    pub remote_cmd: String,
}

impl SSHCommand {
    pub fn new(
        host: String,
        port: u16,
        username: String,
        password: Option<String>,
        remote_cmd: String,
    ) -> (r: Self)
        ensures
            r.host == host,
            r.port == port,
            r.username == username,
            r.password == password,
            r.remote_cmd == remote_cmd,
    {
        SSHCommand { host, port, username, password, remote_cmd }
    }

    /// Parse `user@host` or `user@host:port` into a command with no
    /// password and an empty remote command line; the port defaults to 22.
    pub fn parse(s: &str) -> (r: Option<SSHCommand>)
        ensures
            match r {
                Some(c) => spec_ssh_target(s@) matches Some((u, h, p)) && c.username@ == u
                    && c.host@ == h && c.port == p && c.password is None && c.remote_cmd@.len()
                    == 0,
                None => spec_ssh_target(s@) is None,
            },
    {
        let a = match crate::paths::find_char_exec(s, '@', 0) {
            Some(a) => a,
            None => {
                return None;
            },
        };
        let n = s.unicode_len();
        let username = s.substring_char(0, a).to_owned();
        let rest_start = a + 1;
        let b = match crate::paths::find_char_exec(s, ':', rest_start) {
            Some(b) => b,
            None => {
                let host = s.substring_char(rest_start, n).to_owned();
                return Some(
                    SSHCommand {
                        host,
                        port: 22,
                        username,
                        password: None,
                        remote_cmd: String::new(),
                    },
                );
            },
        };
        let host = s.substring_char(rest_start, b).to_owned();
        let port_str = s.substring_char(b + 1, n);
        let port = match crate::paths::parse_u16(port_str) {
            Some(p) => p,
            None => {
                return None;
            },
        };
        Some(SSHCommand { host, port, username, password: None, remote_cmd: String::new() })
    }
}

/// The target a command string names: the text before the first `@` as the
/// user, then the host up to the first following `:`, then, if a colon is
/// present, a decimal port; without one the port is 22.
pub open spec fn spec_ssh_target(s: Seq<char>) -> Option<(Seq<char>, Seq<char>, u16)> {
    match crate::paths::find_char(s, '@', 0) {
        None => None,
        Some(a) => {
            match crate::paths::find_char(s, ':', a + 1) {
                None => Some((s.subrange(0, a), s.subrange(a + 1, s.len() as int), 22u16)),
                Some(b) => {
                    let port_txt = s.subrange(b + 1, s.len() as int);
                    if port_txt.len() > 0 && (forall|j: int|
                        0 <= j < port_txt.len() ==> crate::paths::spec_is_digit(
                            #[trigger] port_txt[j],
                        )) && crate::paths::spec_dec_value(port_txt) <= u16::MAX {
                        Some(
                            (
                                s.subrange(0, a),
                                s.subrange(a + 1, b),
                                crate::paths::spec_dec_value(port_txt) as u16,
                            ),
                        )
                    } else {
                        None
                    }
                },
            }
        },
    }
}

} // verus!
