use vstd::prelude::*;
use crate::boss_doer_interface::{Command, ModifiedTime, Response, SymlinkKind, SymlinkTarget};
use crate::filters::Filters;
use crate::root_relative_path::{opt_view, spec_from_components, RootRelativePath};
use crate::text::{separated_with, with_separator};

verus! {

/// Facts about the platform that a doer runs on.
#[derive(Clone, Copy, Debug, PartialEq, Eq, Structural)]
pub struct DoerPlatform {
    /// Whether every symlink is either a file symlink or a folder symlink (as on Windows).
    pub differentiates_symlinks: bool,
    /// The separator between path components.
    pub dir_separator: char,
}

/// What a doer does about a command. The doer carries it out against its filesystem (the
/// entries named by a root and a path relative to it) and sends back the responses it asks for.
pub enum DoerAction {
    /// Looks up the root, without following a symlink there, and replies with its details.
    ReportRootDetails { root: String },
    /// Walks the root folder and replies with each entry that the filters include, then with
    /// the end of the entries.
    SendEntries { root: String, filters: Filters },
    /// Creates the folders that hold the root.
    CreateRootAncestors { root: String },
    /// Replies with the content of a file, in chunks.
    SendFileContent { root: String, path: RootRelativePath },
    /// Writes a chunk of a file: into a new file, or appended to the file being received.
    /// Sets the file's modified time afterwards, where one is given. The file stays open for
    /// the next chunk where more follows.
    WriteFileChunk {
        root: String,
        path: RootRelativePath,
        data: Vec<u8>,
        append: bool,
        set_modified_time: Option<ModifiedTime>,
        keep_open: bool,
    },
    CreateFolder { root: String, path: RootRelativePath },
    /// Creates a symlink whose target is given in this platform's syntax.
    CreateSymlink { root: String, path: RootRelativePath, kind: SymlinkKind, target: String },
    DeleteFile { root: String, path: RootRelativePath },
    DeleteFolder { root: String, path: RootRelativePath },
    /// Deletes a symlink, as a folder where the platform needs that.
    DeleteSymlink { root: String, path: RootRelativePath, as_folder: bool },
    /// Replies with an error: this platform cannot create (or delete) a symlink of unknown kind.
    UnknownSymlinkKind { root: String, path: RootRelativePath, creating: bool },
    /// Replies with the time since profiling started.
    SendProfilingTime,
    /// Replies with this response.
    Reply(Response),
    /// Stops handling commands.
    Stop,
}

/// The target of a symlink as the creating platform writes it: a normalized target with its
/// forward slashes turned into the platform's separator, any other target unchanged.
pub open spec fn spec_platform_target(target: SymlinkTarget, sep: char) -> Seq<char> {
    match target {
        SymlinkTarget::Normalized(s) => separated_with(s@, sep),
        SymlinkTarget::NotNormalized(s) => s@,
    }
}

/// Writes a symlink target in the syntax of a platform with the given separator.
pub fn platform_target(target: &SymlinkTarget, sep: char) -> (r: String)
    ensures
        r@ == spec_platform_target(*target, sep),
{
    match target {
        SymlinkTarget::Normalized(s) => with_separator(s.as_str(), sep),
        SymlinkTarget::NotNormalized(s) => s.clone(),
    }
}

/// The target of a symlink as it is sent to the other side: normalized where the target as read
/// (given by whether it is absolute and by its components, `None` for one that is not valid
/// Unicode) converts to a root-relative path, otherwise the raw target unchanged.
pub fn symlink_target_from(is_absolute: bool, components: &Vec<Option<String>>, raw: String) -> (r: SymlinkTarget)
    ensures
        (match spec_from_components(is_absolute, components@.map_values(|c: Option<String>| opt_view(c))) {
            Ok(p) => r matches SymlinkTarget::Normalized(s) && s@ == p,
            Err(_) => r == SymlinkTarget::NotNormalized(raw),
        }),
{
    match RootRelativePath::from_components(is_absolute, components) {
        Ok(p) => SymlinkTarget::Normalized(p.as_str().to_string()),
        Err(_) => SymlinkTarget::NotNormalized(raw),
    }
}

/// Whether a command works on the root, so that it can only come after the root was set.
pub open spec fn needs_root(command: Command) -> bool {
    match command {
        Command::SetRoot { .. } | Command::ProfilingTimeSync | Command::Marker(..) | Command::Shutdown => false,
        _ => true,
    }
}

/// Whether a command works on the root, as `needs_root` says.
pub fn command_needs_root(command: &Command) -> (r: bool)
    ensures
        r == needs_root(*command),
{
    match command {
        Command::SetRoot { .. } | Command::ProfilingTimeSync | Command::Marker(..) | Command::Shutdown => false,
        _ => true,
    }
}

/// The view of an optional path.
pub open spec fn opt_path_view(p: Option<RootRelativePath>) -> Option<Seq<char>> {
    match p {
        Some(q) => Some(q@),
        None => None,
    }
}

/// What a doer knows between commands: the root that it works in, once set, and the file that
/// it is partway through receiving, if any.
pub struct DoerState {
    root: Option<String>,
    receiving: Option<RootRelativePath>,
}

impl DoerState {
    /// The root that the doer works in, once set.
    pub closed spec fn root_spec(&self) -> Option<String> {
        self.root
    }

    /// The path of the file that the doer is partway through receiving, if any.
    pub closed spec fn receiving_spec(&self) -> Option<Seq<char>> {
        opt_path_view(self.receiving)
    }

    /// A doer that has not been given a root yet.
    pub fn new() -> (r: DoerState)
        ensures
            r.root_spec() is None,
            r.receiving_spec() is None,
    {
        DoerState { root: None, receiving: None }
    }

    /// Whether the root has been set.
    pub fn has_root(&self) -> (r: bool)
        ensures
            r == self.root_spec() is Some,
    {
        self.root.is_some()
    }

    /// Forgets the file being received, after a chunk of it could not be written.
    pub fn cancel_file_receive(&mut self)
        ensures
            final(self).root_spec() == old(self).root_spec(),
            final(self).receiving_spec() is None,
    {
        self.receiving = None;
    }

    /// Decides what to do about a command from the boss, and updates what the doer knows.
    /// Commands that work on the root must come after the root was set.
    pub fn exec(&mut self, command: Command, platform: DoerPlatform) -> (r: DoerAction)
        requires
            needs_root(command) ==> old(self).root_spec() is Some,
        ensures
            (match command {
                Command::SetRoot { root } => {
                    &&& r == DoerAction::ReportRootDetails { root }
                    &&& final(self).root_spec() == Some(root)
                    &&& final(self).receiving_spec() is None
                },
                Command::CreateOrUpdateFile { path, data, set_modified_time, more_to_follow } => {
                    &&& final(self).root_spec() == old(self).root_spec()
                    &&& match old(self).receiving_spec() {
                        Some(p) if p != path@ => {
                            &&& r matches DoerAction::Reply(Response::Error(e))
                                && e@ == "Unexpected continued file transfer!"@
                            &&& final(self).receiving_spec() is None
                        },
                        _ => {
                            &&& r matches DoerAction::WriteFileChunk { root: rt, path: p2, data: d, append, set_modified_time: t, keep_open }
                                && rt == old(self).root_spec()->0 && p2@ == path@ && d == data && t == set_modified_time
                                && append == (old(self).receiving_spec() is Some) && keep_open == more_to_follow
                            &&& final(self).receiving_spec() == (if more_to_follow { Some(path@) } else { None })
                        },
                    }
                },
                _ => {
                    &&& final(self).root_spec() == old(self).root_spec()
                    &&& final(self).receiving_spec() == old(self).receiving_spec()
                    &&& command_action(command, old(self).root_spec(), platform, r)
                },
            }),
            command matches Command::DeleteSymlink { kind, .. } ==> (r matches DoerAction::DeleteSymlink { as_folder, .. }
                ==> as_folder == (platform.differentiates_symlinks && kind == SymlinkKind::Folder)),
            (command matches Command::DeleteSymlink { kind, .. } && kind == SymlinkKind::File)
                ==> (r matches DoerAction::DeleteSymlink { as_folder, .. } && !as_folder),
    {
        match command {
            Command::SetRoot { root } => {
                self.root = Some(root.clone());
                self.receiving = None;
                DoerAction::ReportRootDetails { root }
            },
            Command::CreateOrUpdateFile { path, data, set_modified_time, more_to_follow } => {
                let root = self.root_text();
                let append = match &self.receiving {
                    Some(p) => {
                        if !p.same_as(&path) {
                            self.receiving = None;
                            proof { reveal_strlit("Unexpected continued file transfer!"); }
                            return DoerAction::Reply(Response::Error(String::from_str("Unexpected continued file transfer!")));
                        }
                        true
                    },
                    None => false,
                };
                self.receiving = if more_to_follow { Some(path.duplicate()) } else { None };
                DoerAction::WriteFileChunk { root, path, data, append, set_modified_time, keep_open: more_to_follow }
            },
            Command::GetEntries { filters } => DoerAction::SendEntries { root: self.root_text(), filters },
            Command::CreateRootAncestors => DoerAction::CreateRootAncestors { root: self.root_text() },
            Command::GetFileContent { path } => DoerAction::SendFileContent { root: self.root_text(), path },
            Command::CreateFolder { path } => DoerAction::CreateFolder { root: self.root_text(), path },
            Command::CreateSymlink { path, kind, target } => {
                let root = self.root_text();
                if platform.differentiates_symlinks && kind == SymlinkKind::Unknown {
                    DoerAction::UnknownSymlinkKind { root, path, creating: true }
                } else {
                    let target = platform_target(&target, platform.dir_separator);
                    DoerAction::CreateSymlink { root, path, kind, target }
                }
            },
            Command::DeleteFile { path } => DoerAction::DeleteFile { root: self.root_text(), path },
            Command::DeleteFolder { path } => DoerAction::DeleteFolder { root: self.root_text(), path },
            Command::DeleteSymlink { path, kind } => {
                let root = self.root_text();
                if platform.differentiates_symlinks {
                    match kind {
                        SymlinkKind::File => DoerAction::DeleteSymlink { root, path, as_folder: false },
                        SymlinkKind::Folder => DoerAction::DeleteSymlink { root, path, as_folder: true },
                        SymlinkKind::Unknown => DoerAction::UnknownSymlinkKind { root, path, creating: false },
                    }
                } else {
                    DoerAction::DeleteSymlink { root, path, as_folder: false }
                }
            },
            Command::ProfilingTimeSync => DoerAction::SendProfilingTime,
            Command::Marker(m) => DoerAction::Reply(Response::Marker(m)),
            Command::Shutdown => DoerAction::Stop,
        }
    }

    /// A copy of the root, which has been set.
    fn root_text(&self) -> (r: String)
        requires
            self.root is Some,
        ensures
            r == self.root->0,
    {
        match &self.root {
            Some(r) => r.clone(),
            None => String::new(),
        }
    }
}

/// A symlink is deleted as a folder exactly when it is a folder symlink on a platform that
/// distinguishes symlink kinds: a file symlink is always deleted as a file, and on a platform
/// that does not distinguish kinds every symlink is. Only a symlink of unknown kind on such a
/// platform is not deleted at all.
pub proof fn lemma_symlinks_deleted_by_kind(
    path: RootRelativePath, kind: SymlinkKind, root: Option<String>, platform: DoerPlatform, r: DoerAction,
)
    requires
        command_action(Command::DeleteSymlink { path, kind }, root, platform, r),
    ensures
        r matches DoerAction::DeleteSymlink { as_folder, .. } ==> (as_folder <==> (platform.differentiates_symlinks
            && kind == SymlinkKind::Folder)),
        kind == SymlinkKind::File ==> (r matches DoerAction::DeleteSymlink { as_folder, .. } && !as_folder),
        !platform.differentiates_symlinks ==> (r matches DoerAction::DeleteSymlink { as_folder, .. } && !as_folder),
        !(r is DeleteSymlink) ==> platform.differentiates_symlinks && kind == SymlinkKind::Unknown,
{
}

/// What a doer does about a command other than setting the root or receiving a file, working in
/// the given root on the given platform.
pub open spec fn command_action(command: Command, root: Option<String>, platform: DoerPlatform, r: DoerAction) -> bool {
    match command {
        Command::GetEntries { filters } => r == DoerAction::SendEntries { root: root->0, filters },
        Command::CreateRootAncestors => r == DoerAction::CreateRootAncestors { root: root->0 },
        Command::GetFileContent { path } => r == DoerAction::SendFileContent { root: root->0, path },
        Command::CreateFolder { path } => r == DoerAction::CreateFolder { root: root->0, path },
        Command::CreateSymlink { path, kind, target } =>
            if platform.differentiates_symlinks && kind == SymlinkKind::Unknown {
                r == DoerAction::UnknownSymlinkKind { root: root->0, path, creating: true }
            } else {
                r matches DoerAction::CreateSymlink { root: rt, path: p, kind: k, target: t }
                    && rt == root->0 && p == path && k == kind
                    && t@ == spec_platform_target(target, platform.dir_separator)
            },
        Command::DeleteFile { path } => r == DoerAction::DeleteFile { root: root->0, path },
        Command::DeleteFolder { path } => r == DoerAction::DeleteFolder { root: root->0, path },
        Command::DeleteSymlink { path, kind } =>
            if platform.differentiates_symlinks && kind == SymlinkKind::Unknown {
                r == DoerAction::UnknownSymlinkKind { root: root->0, path, creating: false }
            } else {
                r == DoerAction::DeleteSymlink {
                    root: root->0,
                    path,
                    as_folder: platform.differentiates_symlinks && kind == SymlinkKind::Folder,
                }
            },
        Command::ProfilingTimeSync => r == DoerAction::SendProfilingTime,
        Command::Marker(m) => r == DoerAction::Reply(Response::Marker(m)),
        Command::Shutdown => r == DoerAction::Stop,
        _ => false,
    }
}

/// The size of the first read of a file that is sent in chunks.
pub const FIRST_CHUNK_SIZE: usize = 4096;

/// The largest chunk of a file that is read and sent at once.
pub const MAX_CHUNK_SIZE: usize = 4194304;

/// The size of the read that follows a read that did not fill its buffer, which has probably
/// reached the end of the file.
pub const PROBE_SIZE: usize = 32;

/// Splits a file that is read piece by piece into the chunks that are sent to the boss. A chunk
/// is sent once it is known whether more data follows it, so the data of each read waits until
/// the next read. Reads start small and grow, so that small files are cheap and large files are
/// sent in large chunks.
pub struct FileChunker {
    chunk_size: usize,
    next_read_size: usize,
    pending: Option<Vec<u8>>,
    read_so_far: Ghost<Seq<u8>>,
    sent_so_far: Ghost<Seq<u8>>,
}

/// The data of an optional chunk, or nothing.
pub open spec fn opt_bytes(b: Option<Vec<u8>>) -> Seq<u8> {
    match b {
        Some(v) => v@,
        None => Seq::empty(),
    }
}

impl FileChunker {
    /// Everything read so far.
    pub closed spec fn read_so_far(&self) -> Seq<u8> {
        self.read_so_far@
    }

    /// Everything sent so far.
    pub closed spec fn sent_so_far(&self) -> Seq<u8> {
        self.sent_so_far@
    }

    /// Whether data read is waiting to be sent.
    pub closed spec fn has_pending(&self) -> bool {
        self.pending is Some
    }

    /// The size to read into next.
    pub closed spec fn read_size(&self) -> usize {
        self.next_read_size
    }

    /// The size that reads grow to while they fill their buffers.
    pub closed spec fn current_chunk_size(&self) -> usize {
        self.chunk_size
    }

    /// What the chunker keeps: what was sent and what waits make up what was read; the sizes stay
    /// within their bounds.
    pub closed spec fn wf(&self) -> bool {
        &&& self.sent_so_far@ + opt_bytes(self.pending) == self.read_so_far@
        &&& self.pending matches Some(v) ==> 0 < v@.len() <= MAX_CHUNK_SIZE
        &&& FIRST_CHUNK_SIZE <= self.chunk_size <= MAX_CHUNK_SIZE
        &&& self.next_read_size == PROBE_SIZE || self.next_read_size == self.chunk_size
    }

    /// A chunker for a file of which nothing has been read.
    pub fn new() -> (r: FileChunker)
        ensures
            r.wf(),
            r.read_so_far() == Seq::<u8>::empty(),
            r.sent_so_far() == Seq::<u8>::empty(),
            !r.has_pending(),
            r.read_size() == FIRST_CHUNK_SIZE,
            r.current_chunk_size() == FIRST_CHUNK_SIZE,
    {
        FileChunker {
            chunk_size: FIRST_CHUNK_SIZE,
            next_read_size: FIRST_CHUNK_SIZE,
            pending: None,
            read_so_far: Ghost(Seq::empty()),
            sent_so_far: Ghost(Seq::empty()),
        }
    }

    /// The size of the buffer to read into next: never zero and never above the largest chunk.
    pub fn next_read_size(&self) -> (r: usize)
        requires
            self.wf(),
        ensures
            r == self.read_size(),
            0 < r <= MAX_CHUNK_SIZE,
    {
        self.next_read_size
    }

    /// Takes the data of a read that returned some. Returns the chunk read before it, which is now
    /// known not to be the last, if there was one.
    /// A read that fills its buffer doubles the size of the following reads, up to the largest
    /// chunk; a read that does not is followed by a small one.
    pub fn on_read(&mut self, data: Vec<u8>) -> (r: Option<Response>)
        requires
            old(self).wf(),
            0 < data@.len() <= old(self).read_size(),
        ensures
            final(self).wf(),
            final(self).read_so_far() == old(self).read_so_far() + data@,
            final(self).has_pending(),
            old(self).has_pending() <==> r is Some,
            r matches Some(Response::FileContent { data: d, more_to_follow }) ==> more_to_follow
                && final(self).sent_so_far() == old(self).sent_so_far() + d@
                && 0 < d@.len() <= MAX_CHUNK_SIZE,
            r is Some ==> r matches Some(Response::FileContent { .. }),
            r is None ==> final(self).sent_so_far() == old(self).sent_so_far(),
            data@.len() < old(self).read_size() ==> final(self).read_size() == PROBE_SIZE
                && final(self).current_chunk_size() == old(self).current_chunk_size(),
            data@.len() == old(self).read_size() ==> final(self).current_chunk_size()
                == (if 2 * old(self).current_chunk_size() <= MAX_CHUNK_SIZE { 2 * old(self).current_chunk_size() } else { MAX_CHUNK_SIZE as int })
                && final(self).read_size() == final(self).current_chunk_size(),
    {
        let n = data.len();
        let filled = n == self.next_read_size;
        let previous = self.pending.take();
        let ghost before_sent = self.sent_so_far@;
        let ghost before_read = self.read_so_far@;
        let r = match previous {
            Some(p) => {
                proof { self.sent_so_far = Ghost(before_sent + p@); }
                Some(Response::FileContent { data: p, more_to_follow: true })
            },
            None => None,
        };
        proof { self.read_so_far = Ghost(before_read + data@); }
        self.pending = Some(data);
        if filled {
            self.chunk_size = if self.chunk_size <= MAX_CHUNK_SIZE / 2 { self.chunk_size * 2 } else { MAX_CHUNK_SIZE };
            self.next_read_size = self.chunk_size;
        } else {
            self.next_read_size = PROBE_SIZE;
        }
        proof {
            assert(self.sent_so_far@ + opt_bytes(self.pending) =~= self.read_so_far@);
        }
        r
    }

    /// Takes the end of the file: returns the last chunk, after which everything read has been
    /// sent. The chunk is empty only where nothing read waits to be sent, which after any read
    /// that returned data is never so; for an empty file it is empty.
    pub fn finish(self) -> (r: Response)
        requires
            self.wf(),
        ensures
            r matches Response::FileContent { data: d, more_to_follow }
                && !more_to_follow
                && self.sent_so_far() + d@ == self.read_so_far()
                && d@.len() <= MAX_CHUNK_SIZE
                && (self.has_pending() <==> d@.len() > 0),
    {
        match self.pending {
            Some(p) => Response::FileContent { data: p, more_to_follow: false },
            None => {
                assert(self.sent_so_far@ + Seq::<u8>::empty() =~= self.sent_so_far@);
                Response::FileContent { data: Vec::new(), more_to_follow: false }
            },
        }
    }
}

} // verus!
