use vstd::prelude::*;
use crate::root_relative_path::RootRelativePath;
use crate::filters::Filters;
use crate::profiling::ProcessProfilingData;

verus! {

/// The protocol version. Boss and doer must match exactly to communicate.
pub const VERSION: &'static str = "126";

/// Printed by a doer once it has started, followed by its version, so that the boss knows that
/// ssh connected and can check that the versions are compatible.
pub const HANDSHAKE_STARTED_MSG: &'static str = "rjrssync doer v";

/// Printed by a doer once it has received the secret key and is listening on a network port,
/// followed by the port number.
pub const HANDSHAKE_COMPLETED_MSG: &'static str = "Waiting for incoming network connection on port ";

/// How much work has been done, sent to the doer and echoed back so that the boss can follow
/// the doer's progress.
#[derive(Clone, Copy, Debug, PartialEq, Eq, Structural)]
pub struct ProgressMarker {
    /// How much work (in arbitrary units) has been completed.
    pub completed_work: u64,
    /// Whereabouts we are in more descriptive terms.
    pub phase: ProgressPhase,
}

#[derive(Clone, Copy, Debug, PartialEq, Eq, Structural)]
pub enum ProgressPhase {
    Deleting {
        /// The number of entries already deleted.
        num_entries_deleted: u32,
        /// The id of the (dest) entry that is being deleted next.
        current_entry_id: Option<u32>,
    },
    Copying {
        /// The number of entries already copied.
        num_entries_copied: u32,
        /// The total number of bytes copied, which grows while a large file is copied.
        num_bytes_copied: u64,
        /// The id of the (src) entry that is being copied next.
        current_entry_id: Option<u32>,
    },
    Done,
}

/// What a symlink points to, which matters on platforms (Windows) that distinguish
/// file symlinks from folder symlinks.
#[derive(Clone, Copy, Debug, PartialEq, Eq, Structural)]
pub enum SymlinkKind {
    /// A symlink that points to a file.
    File,
    /// A symlink that points to a folder.
    Folder,
    /// A symlink whose target kind could not be determined (e.g. it is broken).
    Unknown,
}

/// The target of a symlink.
#[derive(Debug, Clone, PartialEq, Eq)]
pub enum SymlinkTarget {
    /// A relative target, normalized to forward slashes, so that it can be converted to the
    /// destination platform's syntax.
    Normalized(String),
    /// A target that could not be normalized (e.g. an absolute path), transferred unchanged.
    NotNormalized(String),
}

/// The observable content of a symlink target: whether it is normalized, and its text.
pub open spec fn target_view(t: SymlinkTarget) -> (bool, Seq<char>) {
    match t {
        SymlinkTarget::Normalized(s) => (true, s@),
        SymlinkTarget::NotNormalized(s) => (false, s@),
    }
}

impl SymlinkTarget {
    /// A copy of this target.
    pub fn duplicate(&self) -> (r: SymlinkTarget)
        ensures
            r == *self,
    {
        match self {
            SymlinkTarget::Normalized(s) => SymlinkTarget::Normalized(s.clone()),
            SymlinkTarget::NotNormalized(s) => SymlinkTarget::NotNormalized(s.clone()),
        }
    }

    /// Whether two targets are the same.
    pub fn same_as(&self, other: &SymlinkTarget) -> (r: bool)
        ensures
            r == (target_view(*self) == target_view(*other)),
    {
        match self {
            SymlinkTarget::Normalized(a) => match other {
                SymlinkTarget::Normalized(b) => *a == *b,
                SymlinkTarget::NotNormalized(_) => false,
            },
            SymlinkTarget::NotNormalized(a) => match other {
                SymlinkTarget::Normalized(_) => false,
                SymlinkTarget::NotNormalized(b) => *a == *b,
            },
        }
    }
}

/// A point in time, as the time elapsed since the Unix epoch.
#[derive(Clone, Copy, Debug, PartialEq, Eq, Structural)]
pub struct ModifiedTime {
    pub secs_since_epoch: u64,
    /// Sub-second part, in nanoseconds.
    pub nanos: u32,
}

/// Chronological order of modified times.
pub open spec fn time_before(a: ModifiedTime, b: ModifiedTime) -> bool {
    a.secs_since_epoch < b.secs_since_epoch || (a.secs_since_epoch == b.secs_since_epoch && a.nanos < b.nanos)
}

impl ModifiedTime {
    /// Whether this time is strictly earlier than another.
    pub fn is_before(&self, other: &ModifiedTime) -> (r: bool)
        ensures
            r == time_before(*self, *other),
    {
        self.secs_since_epoch < other.secs_since_epoch
            || (self.secs_since_epoch == other.secs_since_epoch && self.nanos < other.nanos)
    }
}

/// Details of a file, folder or symlink. The name of the entry is not part of it.
#[derive(Debug, Clone, PartialEq, Eq)]
pub enum EntryDetails {
    File { modified_time: ModifiedTime, size: u64 },
    Folder,
    Symlink { kind: SymlinkKind, target: SymlinkTarget },
}

impl EntryDetails {
    /// A copy of these details.
    pub fn duplicate(&self) -> (r: EntryDetails)
        ensures
            r == *self,
    {
        match self {
            EntryDetails::File { modified_time, size } => EntryDetails::File { modified_time: *modified_time, size: *size },
            EntryDetails::Folder => EntryDetails::Folder,
            EntryDetails::Symlink { kind, target } => EntryDetails::Symlink { kind: *kind, target: target.duplicate() },
        }
    }

    /// The word used for this kind of entry in messages.
    pub fn kind_name(&self) -> (r: &'static str)
        ensures
            r@ == kind_name_of(*self),
    {
        match self {
            EntryDetails::File { .. } => "file",
            EntryDetails::Folder => "folder",
            EntryDetails::Symlink { .. } => "symlink",
        }
    }
}

pub open spec fn kind_name_of(e: EntryDetails) -> Seq<char> {
    match e {
        EntryDetails::File { .. } => "file"@,
        EntryDetails::Folder => "folder"@,
        EntryDetails::Symlink { .. } => "symlink"@,
    }
}

/// Commands are sent from the boss to a doer, to request something to be done.
pub enum Command {
    /// Checks the root file/folder and sends back information about it.
    SetRoot { root: String },
    GetEntries { filters: Filters },
    CreateRootAncestors,
    GetFileContent { path: RootRelativePath },
    CreateOrUpdateFile {
        path: RootRelativePath,
        data: Vec<u8>,
        /// Set on the final chunk of a file only.
        set_modified_time: Option<ModifiedTime>,
        /// If set, more data for the same file follows in a later command.
        more_to_follow: bool,
    },
    CreateSymlink { path: RootRelativePath, kind: SymlinkKind, target: SymlinkTarget },
    CreateFolder { path: RootRelativePath },
    DeleteFile { path: RootRelativePath },
    DeleteFolder { path: RootRelativePath },
    DeleteSymlink { path: RootRelativePath, kind: SymlinkKind },
    ProfilingTimeSync,
    /// Marks a position in the sequence of commands, which the doer echoes back.
    Marker(ProgressMarker),
    Shutdown,
}

/// Responses are sent back from a doer to the boss.
#[derive(Debug)]
pub enum Response {
    RootDetails {
        /// `None` if the root does not exist.
        root_details: Option<EntryDetails>,
        /// Whether the platform distinguishes file symlinks from folder symlinks.
        platform_differentiates_symlinks: bool,
        /// Forward or backward slash.
        platform_dir_separator: char,
    },
    Entry((RootRelativePath, EntryDetails)),
    EndOfEntries,
    FileContent {
        data: Vec<u8>,
        /// If set, more data for the same file follows in a later response.
        more_to_follow: bool,
    },
    /// The doer's profiling clock, in nanoseconds.
    ProfilingTimeSync(u64),
    ProfilingData(ProcessProfilingData),
    /// An echoed marker.
    Marker(ProgressMarker),
    Error(String),
}

/// Messages that end a stream of messages, after which the receiving side stops listening.
pub trait IsFinalMessage {
    fn is_final_message(&self) -> bool;
}

impl IsFinalMessage for Command {
    /// The shutdown command is the final one that the boss sends.
    fn is_final_message(&self) -> (r: bool)
        ensures
            r == (*self is Shutdown),
    {
        match self {
            Command::Shutdown => true,
            _ => false,
        }
    }
}

impl IsFinalMessage for Response {
    /// Profiling data is the final response that a doer sends.
    fn is_final_message(&self) -> (r: bool)
        ensures
            r == (*self is ProfilingData),
    {
        match self {
            Response::ProfilingData(..) => true,
            _ => false,
        }
    }
}

} // verus!
