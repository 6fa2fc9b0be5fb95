//! The protocol's message union and its payload types, with their
//! mathematical views.

use vstd::prelude::*;

use crate::index_table::{IndexTable, IndexTableChunk};

verus! {

/// Session configuration sent by the sender to the receiver.
#[derive(Debug, Clone, PartialEq, Eq)]
pub struct ClientServerOpts {
    pub to: String,
    pub delete: bool,
    pub recursive: bool,
    pub dry_run: bool,
    pub verbose: bool,
    pub exclude: Vec<String>,
}

/// Mathematical form of the session configuration.
pub struct ClientServerOptsV {
    pub to: Seq<char>,
    pub delete: bool,
    pub recursive: bool,
    pub dry_run: bool,
    pub verbose: bool,
    pub exclude: Seq<Seq<char>>,
}

impl View for ClientServerOpts {
    type V = ClientServerOptsV;

    open spec fn view(&self) -> ClientServerOptsV {
        ClientServerOptsV {
            to: self.to@,
            delete: self.delete,
            recursive: self.recursive,
            dry_run: self.dry_run,
            verbose: self.verbose,
            exclude: Seq::new(self.exclude@.len(), |k: int| self.exclude@[k]@),
        }
    }
}

/// One entry of the receiver-enumerated file list.
#[derive(Debug, Clone, PartialEq, Eq)]
pub struct FlistEntry {
    pub index: u32,
    pub filename: String,
    pub size: u64,
    pub mtime: i64,
    pub mode: u32,
    pub uid: Option<u32>,
    pub gid: Option<u32>,
    pub is_dir: bool,
    pub is_symlink: bool,
}

/// Mathematical form of a file-list entry.
pub struct FlistEntryV {
    pub index: u32,
    pub filename: Seq<char>,
    pub size: u64,
    pub mtime: i64,
    pub mode: u32,
    pub uid: Option<u32>,
    pub gid: Option<u32>,
    pub is_dir: bool,
    pub is_symlink: bool,
}

impl View for FlistEntry {
    type V = FlistEntryV;

    open spec fn view(&self) -> FlistEntryV {
        FlistEntryV {
            index: self.index,
            filename: self.filename@,
            size: self.size,
            mtime: self.mtime,
            mode: self.mode,
            uid: self.uid,
            gid: self.gid,
            is_dir: self.is_dir,
            is_symlink: self.is_symlink,
        }
    }
}

/// Mathematical form of one index-table entry's chunk.
pub struct ChunkV {
    pub strong_signature: Seq<char>,
    pub index: usize,
}

impl View for IndexTableChunk {
    type V = ChunkV;

    open spec fn view(&self) -> ChunkV {
        ChunkV { strong_signature: self.strong_signature@, index: self.index }
    }
}

/// View of a whole table: its entries in order.
pub open spec fn table_view(t: IndexTable) -> Seq<(i64, ChunkV)> {
    Seq::new(t.entries@.len(), |k: int| (t.entries@[k].0, t.entries@[k].1@))
}

/// Reply to a `FileIndex` request: the index table of the named file.
#[derive(Debug, Clone, PartialEq, Eq)]
pub struct DataMessage {
    pub file_index: u32,
    pub map: IndexTable,
}

/// Mathematical form of a `Data` payload.
pub struct DataMessageV {
    pub file_index: u32,
    pub map: Seq<(i64, ChunkV)>,
}

impl View for DataMessage {
    type V = DataMessageV;

    open spec fn view(&self) -> DataMessageV {
        DataMessageV { file_index: self.file_index, map: table_view(self.map) }
    }
}

/// An error a peer reports through the tunnel.
#[derive(Debug, Clone, PartialEq, Eq)]
pub enum SSHMessageError {
    IoError(String),
    TransferError(String),
    FatalError(String),
}

/// Mathematical form of a peer-reported error.
pub enum SSHMessageErrorV {
    IoError(Seq<char>),
    TransferError(Seq<char>),
    FatalError(Seq<char>),
}

impl View for SSHMessageError {
    type V = SSHMessageErrorV;

    open spec fn view(&self) -> SSHMessageErrorV {
        match self {
            SSHMessageError::IoError(s) => SSHMessageErrorV::IoError(s@),
            SSHMessageError::TransferError(s) => SSHMessageErrorV::TransferError(s@),
            SSHMessageError::FatalError(s) => SSHMessageErrorV::FatalError(s@),
        }
    }
}

/// The tagged message union carried on the wire.
#[derive(Debug, Clone, PartialEq, Eq)]
pub enum Message {
    SYNC,
    ACK,
    NACK,
    Arguments(ClientServerOpts),
    Data(DataMessage),
    Redo(u32),
    Done,
    Error(SSHMessageError),
    Info(String),
    Warning(String),
    FlistEntry(FlistEntry),
    FlistEnd,
    FileIndex(u32),
    Restore(Vec<u8>),
    Deleted(u32),
    Success(u32),
    Degenerate(u32),
    Stats(Vec<u8>),
    IoTimeout,
    NoSend(u32),
}

/// Mathematical form of a message.
pub enum MessageV {
    Sync,
    Ack,
    Nack,
    Arguments(ClientServerOptsV),
    Data(DataMessageV),
    Redo(u32),
    Done,
    Error(SSHMessageErrorV),
    Info(Seq<char>),
    Warning(Seq<char>),
    FlistEntry(FlistEntryV),
    FlistEnd,
    FileIndex(u32),
    Restore(Seq<u8>),
    Deleted(u32),
    Success(u32),
    Degenerate(u32),
    Stats(Seq<u8>),
    IoTimeout,
    NoSend(u32),
}

impl View for Message {
    type V = MessageV;

    open spec fn view(&self) -> MessageV {
        match self {
            Message::SYNC => MessageV::Sync,
            Message::ACK => MessageV::Ack,
            Message::NACK => MessageV::Nack,
            Message::Arguments(o) => MessageV::Arguments(o@),
            Message::Data(d) => MessageV::Data(d@),
            Message::Redo(x) => MessageV::Redo(*x),
            Message::Done => MessageV::Done,
            Message::Error(e) => MessageV::Error(e@),
            Message::Info(s) => MessageV::Info(s@),
            Message::Warning(s) => MessageV::Warning(s@),
            Message::FlistEntry(f) => MessageV::FlistEntry(f@),
            Message::FlistEnd => MessageV::FlistEnd,
            Message::FileIndex(x) => MessageV::FileIndex(*x),
            Message::Restore(v) => MessageV::Restore(v@),
            Message::Deleted(x) => MessageV::Deleted(*x),
            Message::Success(x) => MessageV::Success(*x),
            Message::Degenerate(x) => MessageV::Degenerate(*x),
            Message::Stats(v) => MessageV::Stats(v@),
            Message::IoTimeout => MessageV::IoTimeout,
            Message::NoSend(x) => MessageV::NoSend(*x),
        }
    }
}


/// A copy of a byte vector, equal to it in view.
pub fn clone_bytes(v: &Vec<u8>) -> (r: Vec<u8>)
    ensures
        r@ == v@,
{
    let mut out: Vec<u8> = Vec::new();
    let n = v.len();
    let mut i: usize = 0;
    while i < n
        invariant
            0 <= i <= n,
            n == v@.len(),
            out@ == v@.subrange(0, i as int),
        decreases n - i,
    {
        out.push(v[i]);
        proof {
            assert(out@ =~= v@.subrange(0, i + 1));
        }
        i = i + 1;
    }
    proof {
        assert(v@.subrange(0, n as int) =~= v@);
    }
    out
}

/// A copy of a string list, equal to it entry by entry in view.
pub fn clone_strings(v: &Vec<String>) -> (r: Vec<String>)
    ensures
        r@.len() == v@.len(),
        forall|k: int| 0 <= k < v@.len() ==> (#[trigger] r@[k])@ == v@[k]@,
{
    let mut out: Vec<String> = Vec::new();
    let n = v.len();
    let mut i: usize = 0;
    while i < n
        invariant
            0 <= i <= n,
            n == v@.len(),
            out@.len() == i,
            forall|k: int| 0 <= k < i ==> (#[trigger] out@[k])@ == v@[k]@,
        decreases n - i,
    {
        out.push(v[i].clone());
        i = i + 1;
    }
    out
}

impl ClientServerOpts {
    /// A copy of the configuration, equal to it in view.
    pub fn duplicate(&self) -> (r: Self)
        ensures
            r@ == self@,
    {
        let r = ClientServerOpts {
            to: self.to.clone(),
            delete: self.delete,
            recursive: self.recursive,
            dry_run: self.dry_run,
            verbose: self.verbose,
            exclude: clone_strings(&self.exclude),
        };
        proof {
            assert(r@.exclude =~= self@.exclude);
        }
        r
    }
}

impl FlistEntry {
    /// A copy of the entry, equal to it in view.
    pub fn duplicate(&self) -> (r: Self)
        ensures
            r@ == self@,
    {
        FlistEntry {
            index: self.index,
            filename: self.filename.clone(),
            size: self.size,
            mtime: self.mtime,
            mode: self.mode,
            uid: self.uid,
            gid: self.gid,
            is_dir: self.is_dir,
            is_symlink: self.is_symlink,
        }
    }
}

impl DataMessage {
    /// A copy of the payload, equal to it in view.
    pub fn duplicate(&self) -> (r: Self)
        ensures
            r@ == self@,
    {
        let mut entries: Vec<(i64, IndexTableChunk)> = Vec::new();
        let n = self.map.entries.len();
        let mut i: usize = 0;
        while i < n
            invariant
                0 <= i <= n,
                n == self.map.entries@.len(),
                entries@.len() == i,
                forall|k: int|
                    0 <= k < i ==> (#[trigger] entries@[k]).0 == self.map.entries@[k].0
                        && entries@[k].1@ == self.map.entries@[k].1@,
            decreases n - i,
        {
            let e = &self.map.entries[i];
            entries.push(
                (e.0, IndexTableChunk { strong_signature: e.1.strong_signature.clone(), index: e.1.index }),
            );
            i = i + 1;
        }
        let r = DataMessage { file_index: self.file_index, map: IndexTable { entries } };
        proof {
            assert(table_view(r.map) =~= table_view(self.map));
        }
        r
    }
}

impl SSHMessageError {
    /// A copy of the error, equal to it in view.
    pub fn duplicate(&self) -> (r: Self)
        ensures
            r@ == self@,
    {
        match self {
            SSHMessageError::IoError(s) => SSHMessageError::IoError(s.clone()),
            SSHMessageError::TransferError(s) => SSHMessageError::TransferError(s.clone()),
            SSHMessageError::FatalError(s) => SSHMessageError::FatalError(s.clone()),
        }
    }
}

impl Message {
    /// A copy of the message, equal to it in view.
    pub fn duplicate(&self) -> (r: Self)
        ensures
            r@ == self@,
    {
        match self {
            Message::SYNC => Message::SYNC,
            Message::ACK => Message::ACK,
            Message::NACK => Message::NACK,
            Message::Arguments(o) => Message::Arguments(o.duplicate()),
            Message::Data(d) => Message::Data(d.duplicate()),
            Message::Redo(x) => Message::Redo(*x),
            Message::Done => Message::Done,
            Message::Error(e) => Message::Error(e.duplicate()),
            Message::Info(s) => Message::Info(s.clone()),
            Message::Warning(s) => Message::Warning(s.clone()),
            Message::FlistEntry(f) => Message::FlistEntry(f.duplicate()),
            Message::FlistEnd => Message::FlistEnd,
            Message::FileIndex(x) => Message::FileIndex(*x),
            Message::Restore(v) => Message::Restore(clone_bytes(v)),
            Message::Deleted(x) => Message::Deleted(*x),
            Message::Success(x) => Message::Success(*x),
            Message::Degenerate(x) => Message::Degenerate(*x),
            Message::Stats(v) => Message::Stats(clone_bytes(v)),
            Message::IoTimeout => Message::IoTimeout,
            Message::NoSend(x) => Message::NoSend(*x),
        }
    }
}

} // verus!
