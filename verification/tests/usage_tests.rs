//! End-to-end sync scenarios, run against in-memory filesystems. Each filesystem stands in for
//! the machine that a doer runs on; the boss side of each sync is driven through the library's
//! planning steps, exactly in the order that a real sync takes them.

use std::collections::BTreeMap;
use std::sync::atomic::{AtomicU64, Ordering};

use rjrssync::boss_doer_interface::{Command, EntryDetails, ModifiedTime, SymlinkKind, SymlinkTarget};
use rjrssync::boss_frontend::{DestEntryNeedsDeletingBehaviour, DestFileUpdateBehaviour, DestRootNeedsDeletingBehaviour, SyncSpec};
use rjrssync::boss_sync::{copy_step, delete_command, file_chunk_command, needs_delete, CopyStep, SyncQuery, SyncTotals};
use rjrssync::confirm::{Behaviours, ConfirmStep, Confirmation, PathContext, PromptAnswer};
use rjrssync::filters::{apply_filters, compile_filters, FilterResult, Filters};
use rjrssync::remote_desc::RemotePathDesc;
use rjrssync::root_relative_path::RootRelativePath;
use rjrssync::sync_roots::{check_dest_root, check_dest_root_delete_ok, check_src_root, retargeted_dest_root, root_delete_message};

// ====================================================================================
// In-memory filesystems
// ====================================================================================

#[derive(Clone, Debug, PartialEq, Eq)]
enum LinkKind {
    File,
    Folder,
    Generic,
}

#[derive(Clone, Debug, PartialEq, Eq)]
enum Node {
    Folder(BTreeMap<String, Node>),
    File { contents: Vec<u8>, modified: ModifiedTime },
    Symlink { kind: LinkKind, target: String },
}

static CLOCK: AtomicU64 = AtomicU64::new(1_600_000_000);

/// The current time: every call is later than the previous one.
fn now() -> ModifiedTime {
    ModifiedTime { secs_since_epoch: CLOCK.fetch_add(1, Ordering::SeqCst), nanos: 0 }
}

fn epoch_plus(secs: u64) -> ModifiedTime {
    ModifiedTime { secs_since_epoch: secs, nanos: 0 }
}

fn folder(children: &[(&str, Node)]) -> Node {
    Node::Folder(children.iter().map(|(n, c)| (n.to_string(), c.clone())).collect())
}
fn empty_folder() -> Node {
    Node::Folder(BTreeMap::new())
}
fn file(contents: &str) -> Node {
    Node::File { contents: contents.as_bytes().to_vec(), modified: now() }
}
fn file_with_modified(contents: &str, modified: ModifiedTime) -> Node {
    Node::File { contents: contents.as_bytes().to_vec(), modified }
}
/// A file symlink (a generic one, as on Linux, where symlinks have no kind).
fn symlink_file(target: &str) -> Node {
    Node::Symlink { kind: LinkKind::Generic, target: target.to_string() }
}
fn symlink_folder(target: &str) -> Node {
    Node::Symlink { kind: LinkKind::Generic, target: target.to_string() }
}

/// One machine's filesystem.
struct World {
    root: Node,
    windows: bool,
    cwd: String,
}

impl World {
    fn new(windows: bool, cwd: &str) -> World {
        World { root: empty_folder(), windows, cwd: cwd.to_string() }
    }

    fn sep(&self) -> char {
        if self.windows { '\\' } else { '/' }
    }

    fn is_sep(&self, c: char) -> bool {
        c == '/' || (self.windows && c == '\\')
    }

    fn is_absolute(&self, p: &str) -> bool {
        if self.windows {
            p.len() >= 2 && &p[1..2] == ":" || p.starts_with('\\') || p.starts_with('/')
        } else {
            p.starts_with('/')
        }
    }

    fn split(&self, p: &str) -> Vec<String> {
        p.split(|c| self.is_sep(c)).filter(|s| !s.is_empty()).map(|s| s.to_string()).collect()
    }

    fn absolute(&self, p: &str) -> Vec<String> {
        if self.is_absolute(p) {
            self.split(p)
        } else {
            let mut v = self.split(&self.cwd);
            v.extend(self.split(p));
            v
        }
    }

    fn get(&self, comps: &[String]) -> Option<&Node> {
        let mut n = &self.root;
        for c in comps {
            match n {
                Node::Folder(children) => n = children.get(c)?,
                _ => return None,
            }
        }
        Some(n)
    }

    fn parent_mut(&mut self, comps: &[String]) -> Option<&mut BTreeMap<String, Node>> {
        let mut n = &mut self.root;
        for c in &comps[..comps.len() - 1] {
            match n {
                Node::Folder(children) => n = children.get_mut(c)?,
                _ => return None,
            }
        }
        match n {
            Node::Folder(children) => Some(children),
            _ => None,
        }
    }

    /// The path with the symlinks among its ancestors (and itself, if asked) followed.
    fn canonical(&self, path: &[String], follow_last: bool, depth: u32) -> Vec<String> {
        let mut cur: Vec<String> = vec![];
        for (i, c) in path.iter().enumerate() {
            if c == "." {
                continue;
            }
            if c == ".." {
                cur.pop();
                continue;
            }
            cur.push(c.clone());
            let is_last = i + 1 == path.len();
            if !is_last || follow_last {
                if let Some(Node::Symlink { target, .. }) = self.get(&cur) {
                    if depth > 20 {
                        break;
                    }
                    let mut base = if self.is_absolute(target) { vec![] } else { cur[..cur.len() - 1].to_vec() };
                    base.extend(self.split(target));
                    cur = self.canonical(&base, true, depth + 1);
                }
            }
        }
        cur
    }

    fn set(&mut self, comps: &[String], node: Node) -> Result<(), String> {
        let name = comps.last().ok_or("Can't replace the filesystem root")?.clone();
        let parent = self.parent_mut(comps).ok_or(format!("Parent of {:?} doesn't exist", comps))?;
        parent.insert(name, node);
        Ok(())
    }

    fn remove(&mut self, comps: &[String]) -> Result<Node, String> {
        let name = comps.last().ok_or("Can't remove the filesystem root")?.clone();
        let parent = self.parent_mut(comps).ok_or(format!("Parent of {:?} doesn't exist", comps))?;
        parent.remove(&name).ok_or(format!("{:?} doesn't exist", comps))
    }

    /// Saves a node at a path (which must not exist yet), creating the folders above it.
    fn save(&mut self, path: &str, node: &Node) {
        let comps = self.absolute(path);
        for i in 1..comps.len() {
            if self.get(&comps[..i]).is_none() {
                self.set(&comps[..i], empty_folder()).unwrap();
            }
        }
        assert!(self.get(&comps).is_none(), "Already exists!");
        self.set(&comps, node.clone()).unwrap();
    }

    fn load(&self, path: &str) -> Option<Node> {
        let comps = self.canonical(&self.absolute(path), false, 0);
        self.get(&comps).cloned()
    }

    fn symlink_target(&self, target: &str) -> SymlinkTarget {
        if self.is_absolute(target) {
            return SymlinkTarget::NotNormalized(target.to_string());
        }
        let comps: Vec<Option<String>> = self.split(target).into_iter().map(Some).collect();
        match RootRelativePath::from_components(false, &comps) {
            Ok(r) => SymlinkTarget::Normalized(r.display_string()),
            Err(_) => SymlinkTarget::NotNormalized(target.to_string()),
        }
    }

    fn details(&self, node: &Node, at: &[String]) -> EntryDetails {
        match node {
            Node::Folder(_) => EntryDetails::Folder,
            Node::File { contents, modified } => EntryDetails::File { modified_time: *modified, size: contents.len() as u64 },
            Node::Symlink { kind, target } => {
                let kind = match kind {
                    LinkKind::File => SymlinkKind::File,
                    LinkKind::Folder => SymlinkKind::Folder,
                    LinkKind::Generic => match self.get(&self.canonical(at, true, 0)) {
                        Some(Node::File { .. }) => SymlinkKind::File,
                        Some(Node::Folder(_)) => SymlinkKind::Folder,
                        _ => SymlinkKind::Unknown,
                    },
                };
                EntryDetails::Symlink { kind, target: self.symlink_target(target) }
            }
        }
    }

    /// What a doer reports for a root: its details, `None` if it doesn't exist, or an error if it
    /// can't be read (a file named with a trailing slash, on Linux).
    fn root_details(&self, root: &str) -> Result<Option<EntryDetails>, String> {
        let trailing = root.ends_with(|c| self.is_sep(c));
        let comps = self.canonical(&self.absolute(root), trailing && !self.windows, 0);
        match self.get(&comps) {
            None => Ok(None),
            Some(n) => {
                if trailing && !self.windows && !matches!(n, Node::Folder(_)) {
                    return Err(format!("root '{}' can't be read: Not a directory (os error 20)", root));
                }
                Ok(Some(self.details(n, &comps)))
            }
        }
    }

    fn root_comps(&self, root: &str) -> Vec<String> {
        let trailing = root.ends_with(|c| self.is_sep(c));
        self.canonical(&self.absolute(root), trailing && !self.windows, 0)
    }

    fn full_path(&self, root: &str, p: &RootRelativePath) -> Vec<String> {
        let mut comps = self.root_comps(root);
        comps.extend(self.split(&p.to_platform_path(self.sep())));
        comps
    }

    /// The entries inside a root folder, parents before children, skipping what the filters exclude
    /// (and everything inside an excluded folder).
    fn entries(&self, root: &str, filters: &Filters) -> Vec<(RootRelativePath, EntryDetails)> {
        let mut out = vec![];
        let base = self.root_comps(root);
        self.walk(&base, &mut vec![], filters, &mut out);
        out
    }

    fn walk(&self, base: &[String], rel: &mut Vec<String>, filters: &Filters, out: &mut Vec<(RootRelativePath, EntryDetails)>) {
        let mut at = base.to_vec();
        at.extend(rel.iter().cloned());
        let children = match self.get(&at) {
            Some(Node::Folder(c)) => c.clone(),
            _ => return,
        };
        for (name, child) in children {
            rel.push(name.clone());
            let comps: Vec<Option<String>> = rel.iter().map(|c| Some(c.clone())).collect();
            let p = RootRelativePath::from_components(false, &comps).unwrap();
            if apply_filters(&p, filters) == FilterResult::Include {
                let mut child_at = at.clone();
                child_at.push(name.clone());
                out.push((p, self.details(&child, &child_at)));
                if matches!(child, Node::Folder(_)) {
                    self.walk(base, rel, filters, out);
                }
            }
            rel.pop();
        }
    }

    fn read_file(&self, root: &str, p: &RootRelativePath) -> Result<Vec<u8>, String> {
        match self.get(&self.full_path(root, p)) {
            Some(Node::File { contents, .. }) => Ok(contents.clone()),
            _ => Err(format!("Can't read file {}", p.display_string())),
        }
    }

    /// Carries out a command as a destination doer would.
    fn apply(&mut self, root: &str, cmd: Command) -> Result<(), String> {
        match cmd {
            Command::CreateRootAncestors => {
                // Like creating folders and their ancestors: each ancestor must be (or lead to) a
                // folder, and a missing one is created, unless something that is not a folder (such
                // as a broken symlink) is in the way.
                let comps = self.absolute(root);
                for i in 1..comps.len() {
                    let resolved = self.canonical(&comps[..i], true, 0);
                    match self.get(&resolved) {
                        Some(Node::Folder(_)) => {}
                        Some(_) => return Err(format!("Error creating folder and ancestors for '{}': File exists (os error 17)", root)),
                        None => {
                            let unfollowed = self.canonical(&comps[..i], false, 0);
                            if self.get(&unfollowed).is_some() {
                                return Err(format!("Error creating folder and ancestors for '{}': File exists (os error 17)", root));
                            }
                            self.set(&resolved, empty_folder())?;
                        }
                    }
                }
                Ok(())
            }
            Command::DeleteFile { path } | Command::DeleteSymlink { path, .. } => {
                let full = self.full_path_no_follow(root, &path);
                self.remove(&full).map(|_| ())
            }
            Command::DeleteFolder { path } => {
                let full = self.full_path_no_follow(root, &path);
                match self.get(&full) {
                    Some(Node::Folder(c)) if c.is_empty() => self.remove(&full).map(|_| ()),
                    Some(Node::Folder(_)) => Err(format!("Error deleting folder '{}': Directory not empty (os error 39)",
                        full.join("/"))),
                    _ => Err(format!("Error deleting folder '{}': Not a directory (os error 20)", full.join("/"))),
                }
            }
            Command::CreateFolder { path } => {
                let full = self.full_path_no_follow(root, &path);
                self.set(&full, empty_folder())
            }
            Command::CreateSymlink { path, kind, target } => {
                let full = self.full_path_no_follow(root, &path);
                let target = match target {
                    SymlinkTarget::Normalized(t) => t.replace('/', &self.sep().to_string()),
                    SymlinkTarget::NotNormalized(t) => t,
                };
                let kind = if self.windows {
                    match kind {
                        SymlinkKind::File => LinkKind::File,
                        SymlinkKind::Folder => LinkKind::Folder,
                        SymlinkKind::Unknown => return Err("Can't create a symlink of unknown kind".to_string()),
                    }
                } else {
                    LinkKind::Generic
                };
                self.set(&full, Node::Symlink { kind, target })
            }
            Command::CreateOrUpdateFile { path, data, set_modified_time, .. } => {
                let full = self.full_path_no_follow(root, &path);
                self.set(&full, Node::File { contents: data, modified: set_modified_time.unwrap_or_else(now) })
            }
            _ => Ok(()),
        }
    }

    /// The full path of an entry, without following a symlink at the root itself (which a
    /// command may be deleting or replacing).
    fn full_path_no_follow(&self, root: &str, p: &RootRelativePath) -> Vec<String> {
        self.full_path(root, p)
    }
}

// ====================================================================================
// Driving a sync
// ====================================================================================

/// The machines of a test: the local one and two remote ones.
struct Machines {
    worlds: BTreeMap<String, World>,
}

impl Machines {
    fn new() -> Machines {
        let mut worlds = BTreeMap::new();
        worlds.insert("".to_string(), World::new(false, "/tmp"));
        worlds.insert("windows".to_string(), World::new(true, "C:\\Temp"));
        worlds.insert("linux".to_string(), World::new(false, "/rtmp"));
        Machines { worlds }
    }

    fn substitute(p: &str) -> String {
        p.replace("$TEMP", "/tmp")
            .replace("$REMOTE_WINDOWS_TEMP", "windows:C:\\Temp")
            .replace("$REMOTE_LINUX_TEMP", "linux:/rtmp")
    }

    fn locate(p: &str) -> (String, String) {
        let d = RemotePathDesc::from_str(&Machines::substitute(p)).unwrap();
        (d.hostname, d.path)
    }

    fn save(&mut self, p: &str, node: &Node) {
        let (host, path) = Machines::locate(p);
        self.worlds.get_mut(&host).unwrap().save(&path, node);
    }

    fn load(&self, p: &str) -> Option<Node> {
        let (host, path) = Machines::locate(p);
        self.worlds[&host].load(&path)
    }
}

/// Counts of what a sync did.
#[derive(Default, Debug, PartialEq)]
struct NumActions {
    copied_files: u32,
    created_folders: u32,
    copied_symlinks: u32,
    deleted_files: u32,
    deleted_folders: u32,
    deleted_symlinks: u32,
}

fn counts(t: &SyncTotals) -> NumActions {
    NumActions {
        copied_files: t.num_files_copied,
        created_folders: t.num_folders_created,
        copied_symlinks: t.num_symlinks_copied,
        deleted_files: t.num_files_deleted,
        deleted_folders: t.num_folders_deleted,
        deleted_symlinks: t.num_symlinks_deleted,
    }
}

/// Runs one sync, from the source machine to the destination machine. Returns the totals, `None`
/// if the sync was skipped, or the error that stopped it.
fn sync(m: &mut Machines, sync_spec: &SyncSpec, answers: &mut Vec<PromptAnswer>) -> Result<Option<SyncTotals>, String> {
    sync_logged(m, sync_spec, answers, &mut vec![])
}

/// Runs one sync as `sync` does, adding to the log the questions asked, the error that stopped the
/// sync (if any) and the summary of what was done.
fn sync_logged(m: &mut Machines, sync_spec: &SyncSpec, answers: &mut Vec<PromptAnswer>, log: &mut Vec<String>)
    -> Result<Option<SyncTotals>, String> {
    let r = sync_steps(m, sync_spec, answers, log);
    match &r {
        Err(e) => log.push(e.clone()),
        Ok(Some(t)) => {
            if t.any_deleted() {
                log.push(t.delete_summary(false));
            }
            if t.any_copied() {
                log.push(t.copy_summary(false));
            }
            if t.nothing_done() {
                log.push("Nothing to do!".to_string());
            }
        }
        Ok(None) => {}
    }
    r
}

fn sync_steps(m: &mut Machines, sync_spec: &SyncSpec, answers: &mut Vec<PromptAnswer>, log: &mut Vec<String>)
    -> Result<Option<SyncTotals>, String> {
    let filters = compile_filters(&sync_spec.filters)?;
    let src = RemotePathDesc::from_str(&sync_spec.src)?;
    let dest = RemotePathDesc::from_str(&sync_spec.dest)?;
    let src_world = &m.worlds[&src.hostname];
    let src_details = check_src_root(&src.path, src_world.root_details(&src.path)?)?;
    let src_sep = src_world.sep();

    let dest_world = &m.worlds[&dest.hostname];
    let dest_sep = dest_world.sep();
    let differentiates = dest_world.windows;
    let mut dest_root = dest.path.clone();
    let mut dest_details = dest_world.root_details(&dest_root)?;
    check_dest_root(&dest_root, &dest_details)?;
    if let Some(d) = retargeted_dest_root(&src.path, &dest_root, &src_details) {
        dest_root = d;
        dest_details = dest_world.root_details(&dest_root)?;
    }

    if let Some(d) = &dest_details {
        if needs_delete(&src_details, d, differentiates) {
            let msg = root_delete_message(&src.path, &dest_root, &src_details, d, src_sep, dest_sep);
            let behaviour = match sync_spec.dest_root_needs_deleting_behaviour {
                DestRootNeedsDeletingBehaviour::Prompt => match { log.push(format!("{}. What do?", msg)); answers.first().copied() } {
                    Some(a) => {
                        answers.remove(0);
                        match a {
                            PromptAnswer::Skip | PromptAnswer::SkipAll => DestRootNeedsDeletingBehaviour::Skip,
                            PromptAnswer::Proceed | PromptAnswer::ProceedAll => DestRootNeedsDeletingBehaviour::Delete,
                            PromptAnswer::Cancel => DestRootNeedsDeletingBehaviour::Error,
                        }
                    }
                    None => DestRootNeedsDeletingBehaviour::Error,
                },
                b => b,
            };
            if !check_dest_root_delete_ok(behaviour, &msg)? {
                return Ok(None);
            }
        }
    }

    let dest_world = m.worlds.get_mut(&dest.hostname).unwrap();
    if dest_details.is_none() {
        dest_world.apply(&dest_root, Command::CreateRootAncestors)?;
    }

    let src_world = &m.worlds[&src.hostname];
    let dest_world = &m.worlds[&dest.hostname];
    let mut query = SyncQuery::new(src_details.clone(), dest_details.clone(), differentiates);
    if matches!(src_details, EntryDetails::Folder) {
        for (p, e) in src_world.entries(&src.path, &filters) {
            query.add_src_entry(p, e)?;
        }
    }
    if matches!(dest_details, Some(EntryDetails::Folder)) {
        for (p, e) in dest_world.entries(&dest_root, &filters) {
            query.add_dest_entry(p, e)?;
        }
    }
    let (mut actions, _stats) = query.finish();

    let ctx = PathContext {
        src_root: src.path.clone(),
        dest_root: dest_root.clone(),
        src_dir_separator: src_sep,
        dest_dir_separator: dest_sep,
    };
    let behaviours = Behaviours {
        dest_file_newer: sync_spec.dest_file_newer_behaviour,
        dest_file_older: sync_spec.dest_file_older_behaviour,
        dest_entry_needs_deleting: sync_spec.dest_entry_needs_deleting_behaviour,
    };
    let mut confirmation = Confirmation::new(&actions, &ctx, behaviours);
    let mut answer = None;
    loop {
        match confirmation.step(answer) {
            ConfirmStep::Done => break,
            ConfirmStep::Fail(e) => return Err(e),
            ConfirmStep::Ask(question, _kind) => {
                log.push(question);
                answer = Some(if answers.is_empty() { PromptAnswer::Cancel } else { answers.remove(0) });
            }
        }
    }
    confirmation.apply(&mut actions);

    let mut totals = SyncTotals::new();
    let deletes: Vec<(RootRelativePath, EntryDetails)> =
        actions.to_delete.iter().into_iter().map(|(p, (d, _))| (p.clone(), d.clone())).collect();
    let copies: Vec<(RootRelativePath, EntryDetails)> =
        actions.to_copy.iter().into_iter().map(|(p, (d, _))| (p.clone(), d.clone())).collect();
    for (p, d) in &deletes {
        assert!(totals.record_delete(d));
        let cmd = delete_command(p, d);
        m.worlds.get_mut(&dest.hostname).unwrap().apply(&dest_root, cmd)?;
    }
    for (p, d) in &copies {
        assert!(totals.record_copy(d));
        match copy_step(p, d) {
            CopyStep::FetchFile { path, modified_time, .. } => {
                let data = m.worlds[&src.hostname].read_file(&src.path, &path)?;
                let cmd = file_chunk_command(&path, data, false, modified_time);
                m.worlds.get_mut(&dest.hostname).unwrap().apply(&dest_root, cmd)?;
            }
            CopyStep::Send(cmd) => m.worlds.get_mut(&dest.hostname).unwrap().apply(&dest_root, cmd)?,
        }
    }
    Ok(Some(totals))
}

/// Describes a test: the files to set up, the arguments, and what is expected afterwards.
#[derive(Default)]
struct TestDesc<'a> {
    setup_filesystem_nodes: Vec<(&'a str, &'a Node)>,
    args: Vec<String>,
    prompt_responses: Vec<PromptAnswer>,
    expected_exit_code: i32,
    /// The totals of the sync, where given.
    expected_actions: Option<NumActions>,
    /// Text that the error must contain, where given.
    expected_error: Option<&'a str>,
    /// Patterns that must occur in the output this many times.
    expected_output_messages: Vec<(usize, &'a str)>,
    expected_filesystem_nodes: Vec<(&'a str, Option<&'a Node>)>,
}

fn run(desc: TestDesc) {
    let mut m = Machines::new();
    for (p, n) in &desc.setup_filesystem_nodes {
        m.save(p, n);
    }

    let mut spec = SyncSpec::default();
    let mut positional = vec![];
    let mut i = 0;
    while i < desc.args.len() {
        let a = &desc.args[i];
        if a == "--dest-entry-needs-deleting" {
            i += 1;
            spec.dest_entry_needs_deleting_behaviour = DestEntryNeedsDeletingBehaviour::from_str(&desc.args[i]).unwrap();
        } else if a == "--dest-file-newer" {
            i += 1;
            spec.dest_file_newer_behaviour = DestFileUpdateBehaviour::from_str(&desc.args[i]).unwrap();
        } else if a == "--dest-file-older" {
            i += 1;
            spec.dest_file_older_behaviour = DestFileUpdateBehaviour::from_str(&desc.args[i]).unwrap();
        } else if let Some(v) = a.strip_prefix("--dest-root-needs-deleting=") {
            spec.dest_root_needs_deleting_behaviour = DestRootNeedsDeletingBehaviour::from_str(v).unwrap();
        } else if a == "--dest-root-needs-deleting" {
            i += 1;
            spec.dest_root_needs_deleting_behaviour = DestRootNeedsDeletingBehaviour::from_str(&desc.args[i]).unwrap();
        } else if a == "--filter" {
            i += 1;
            spec.filters.push(desc.args[i].clone());
        } else if a.starts_with("--") {
            // Options that don't affect the sync itself (such as deployment)
        } else {
            positional.push(Machines::substitute(a));
        }
        i += 1;
    }
    spec.src = positional[0].clone();
    spec.dest = positional[1].clone();

    let mut answers = desc.prompt_responses.clone();
    let mut log = vec![];
    let result = sync_logged(&mut m, &spec, &mut answers, &mut log);
    let exit_code = if result.is_ok() { 0 } else { 12 };
    assert_eq!(exit_code, desc.expected_exit_code, "sync result: {:?}", result);

    if let Some(expected) = desc.expected_actions {
        let totals = result.as_ref().unwrap().as_ref().unwrap();
        assert_eq!(counts(totals), expected);
        let nothing = expected == NumActions::default();
        assert_eq!(totals.nothing_done(), nothing);
    }
    if let Some(e) = desc.expected_error {
        let msg = result.as_ref().unwrap_err();
        assert!(msg.contains(e), "error '{}' doesn't contain '{}'", msg, e);
    }

    let output = log.join("\n");
    for (n, pattern) in desc.expected_output_messages {
        let r = regex::Regex::new(pattern).unwrap();
        assert_eq!(r.find_iter(&output).count(), n, "occurrences of '{}' in:\n{}", pattern, output);
    }

    for (p, n) in desc.expected_filesystem_nodes {
        assert_eq!(m.load(p).as_ref(), n, "filesystem at {}", p);
    }
}

fn run_expect_success(src_node: &Node, dest_node: &Node, expected_actions: NumActions) {
    run(TestDesc {
        setup_filesystem_nodes: vec![("$TEMP/src", src_node), ("$TEMP/dest", dest_node)],
        args: vec![
            "$TEMP/src".to_string(),
            "$TEMP/dest".to_string(),
            String::from("--dest-root-needs-deleting"),
            String::from("delete"),
        ],
        expected_exit_code: 0,
        expected_actions: Some(expected_actions),
        expected_filesystem_nodes: vec![("$TEMP/src", Some(src_node)), ("$TEMP/dest", Some(src_node))],
        ..Default::default()
    });
}

fn copied_files(x: u32) -> NumActions {
    NumActions { copied_files: x, ..Default::default() }
}
fn copied_symlinks(x: u32) -> NumActions {
    NumActions { copied_symlinks: x, ..Default::default() }
}
fn copied_files_and_folders(files: u32, folders: u32) -> NumActions {
    NumActions { copied_files: files, created_folders: folders, ..Default::default() }
}
fn copied_files_and_symlinks(files: u32, symlinks: u32) -> NumActions {
    NumActions { copied_files: files, copied_symlinks: symlinks, ..Default::default() }
}
fn copied_files_folders_and_symlinks(files: u32, folders: u32, symlinks: u32) -> NumActions {
    NumActions { copied_files: files, created_folders: folders, copied_symlinks: symlinks, ..Default::default() }
}

/// The copies expected of a sync in the older tests, which count copied files only.
fn run_expect_files_copied(src_node: &Node, dest_node: &Node, expected_num_copies: u32) {
    let mut m = Machines::new();
    m.save("$TEMP/src", src_node);
    m.save("$TEMP/dest", dest_node);
    let mut spec = SyncSpec::default();
    spec.src = "/tmp/src".to_string();
    spec.dest = "/tmp/dest".to_string();
    let totals = sync(&mut m, &spec, &mut vec![]).unwrap().unwrap();
    assert_eq!(totals.num_files_copied, expected_num_copies);
    assert_eq!(m.load("$TEMP/src").as_ref(), Some(src_node));
    assert_eq!(m.load("$TEMP/dest").as_ref(), Some(src_node));
}

/// The older trailing-slash tests: success with this many files copied, or (for zero) failure
/// with both sides unchanged.
fn run_trailing_slashes_test(src_node: Option<&Node>, src_trailing_slash: &str, dest_node: Option<&Node>,
    dest_trailing_slash: &str, expected_num_copies: u32) {
    let mut m = Machines::new();
    if let Some(n) = src_node {
        m.save("$TEMP/src", n);
    }
    if let Some(n) = dest_node {
        m.save("$TEMP/dest", n);
    }
    let mut spec = SyncSpec::default();
    spec.src = "/tmp/src".to_string() + src_trailing_slash;
    spec.dest = "/tmp/dest".to_string() + dest_trailing_slash;
    let result = sync(&mut m, &spec, &mut vec![]);
    if expected_num_copies > 0 {
        assert_eq!(result.unwrap().unwrap().num_files_copied, expected_num_copies);
        assert_eq!(m.load("$TEMP/src").as_ref(), Some(src_node.unwrap()));
        assert_eq!(m.load("$TEMP/dest").as_ref(), Some(src_node.unwrap()));
    } else {
        assert!(result.is_err());
        assert_eq!(m.load("$TEMP/src").as_ref(), src_node);
        assert_eq!(m.load("$TEMP/dest").as_ref(), dest_node);
    }
}

// ====================================================================================
// Basic syncs
// ====================================================================================

#[test]
fn usage_tests_test_simple_folder_sync() {
    let src_folder = folder(&[
        ("c1", file("contents1")),
        ("c2", file("contents2")),
        ("c3", folder(&[("sc", file("contents3"))])),
    ]);
    run_expect_files_copied(&src_folder, &empty_folder(), 3);
}

#[test]
fn usage_tests_test_remove_dest_stuff() {
    let src_folder = folder(&[
        ("c1", file("contents1")),
        ("c2", file("contents2")),
        ("c3", folder(&[("sc", file("contents3"))])),
    ]);
    let dest_folder = folder(&[
        ("remove me", file("contents1")),
        ("remove me too", file("contents2")),
        ("remove this whole folder", folder(&[("sc", file("contents3"))])),
    ]);
    run_expect_files_copied(&src_folder, &dest_folder, 3);
}

#[test]
fn usage_tests_test_update_file() {
    let src_folder = folder(&[("file", file_with_modified("contents1", epoch_plus(1)))]);
    let dest_folder = folder(&[("file", file_with_modified("contents2", epoch_plus(0)))]);
    run_expect_files_copied(&src_folder, &dest_folder, 1);
}

#[test]
fn usage_tests_test_skip_unchanged() {
    let src_folder = folder(&[
        ("file1", file_with_modified("contentsNEW", epoch_plus(1))),
        ("file2", file_with_modified("contents2", epoch_plus(0))),
        ("file3", file_with_modified("contents3", epoch_plus(0))),
    ]);
    let dest_folder = folder(&[
        ("file1", file_with_modified("contentsOLD", epoch_plus(0))),
        ("file2", file_with_modified("contents2", epoch_plus(0))),
        ("file3", file_with_modified("contents3", epoch_plus(0))),
    ]);
    run_expect_files_copied(&src_folder, &dest_folder, 1);
}

#[test]
fn usage_tests_test_folder_no_trailing_slash_to_folder_no_trailing_slash() {
    let src_folder = folder(&[("c1", file("contents1"))]);
    run_trailing_slashes_test(Some(&src_folder), "", Some(&empty_folder()), "", 1);
}

#[test]
fn usage_tests_test_folder_no_trailing_slash_to_folder_trailing_slash() {
    let src_folder = folder(&[("c1", file("contents1"))]);
    run_trailing_slashes_test(Some(&src_folder), "", Some(&empty_folder()), "/", 1);
}

#[test]
fn usage_tests_test_folder_trailing_slash_to_folder_no_trailing_slash() {
    let src_folder = folder(&[("c1", file("contents1"))]);
    run_trailing_slashes_test(Some(&src_folder), "/", Some(&empty_folder()), "", 1);
}

#[test]
fn usage_tests_test_folder_trailing_slash_to_folder_trailing_slash() {
    let src_folder = folder(&[("c1", file("contents1"))]);
    run_trailing_slashes_test(Some(&src_folder), "/", Some(&empty_folder()), "/", 1);
}

/// Syncing a file to a folder replaces the folder with the file. Replacing the destination root
/// now asks first by default, so the deletion is allowed up front.
#[test]
fn usage_tests_test_file_no_trailing_slash_to_folder_no_trailing_slash() {
    let src = file("contents1");
    run(TestDesc {
        setup_filesystem_nodes: vec![("$TEMP/src", &src), ("$TEMP/dest", &empty_folder())],
        args: vec!["$TEMP/src".to_string(), "$TEMP/dest".to_string(), "--dest-root-needs-deleting=delete".to_string()],
        expected_exit_code: 0,
        expected_output_messages: vec![(1, r"Copied 1 file\(s\)")],
        expected_filesystem_nodes: vec![("$TEMP/src", Some(&src)), ("$TEMP/dest", Some(&src))],
        ..Default::default()
    });
}

#[test]
fn usage_tests_test_file_trailing_slash_to_folder_no_trailing_slash() {
    run_trailing_slashes_test(Some(&file("contents1")), "/", Some(&empty_folder()), "", 0);
}

#[test]
fn usage_tests_test_file_trailing_slash_to_folder_trailing_slash() {
    run_trailing_slashes_test(Some(&file("contents1")), "/", Some(&empty_folder()), "/", 0);
}

#[test]
fn sync_tests_test_simple_folder_sync() {
    let src_folder = folder(&[
        ("c1", file("contents1")),
        ("c2", file("contents2")),
        ("c3", folder(&[("sc", file("contents3"))])),
    ]);
    run_expect_success(&src_folder, &empty_folder(), copied_files_and_folders(3, 1));
}

#[test]
fn sync_tests_test_remove_dest_stuff() {
    let src_folder = folder(&[
        ("c1", file("contents1")),
        ("c2", file("contents2")),
        ("c3", folder(&[("sc", file("contents3"))])),
    ]);
    let dest_folder = folder(&[
        ("remove me", file("contents1")),
        ("remove me too", file("contents2")),
        ("remove this whole folder", folder(&[
            ("sc", file("contents3")),
            ("sc2", file("contents3")),
            ("remove this whole folder", folder(&[("sc", file("contents3"))])),
        ])),
    ]);
    run_expect_success(&src_folder, &dest_folder, NumActions { copied_files: 3, created_folders: 1, copied_symlinks: 0,
        deleted_files: 5, deleted_folders: 2, deleted_symlinks: 0 });
}

#[test]
fn sync_tests_test_update_file() {
    let src_folder = folder(&[("file", file_with_modified("contents1", epoch_plus(1)))]);
    let dest_folder = folder(&[("file", file_with_modified("contents2", epoch_plus(0)))]);
    run_expect_success(&src_folder, &dest_folder, copied_files(1));
}

#[test]
fn sync_tests_test_skip_unchanged() {
    let src_folder = folder(&[
        ("file1", file_with_modified("contentsNEW", epoch_plus(1))),
        ("file2", file_with_modified("contents2", epoch_plus(0))),
        ("file3", file_with_modified("contents3", epoch_plus(0))),
    ]);
    let dest_folder = folder(&[
        ("file1", file_with_modified("contentsOLD", epoch_plus(0))),
        ("file2", file_with_modified("contents2", epoch_plus(0))),
        ("file3", file_with_modified("contents3", epoch_plus(0))),
    ]);
    run_expect_success(&src_folder, &dest_folder, copied_files(1));
}

#[test]
fn test_dest_ancestors_dont_exist() {
    let src = file("contents");
    run(TestDesc {
        setup_filesystem_nodes: vec![("$TEMP/src.txt", &src)],
        args: vec!["$TEMP/src.txt".to_string(), "$TEMP/dest1/dest2/dest3/dest.txt".to_string()],
        expected_exit_code: 0,
        expected_actions: Some(copied_files(1)),
        expected_filesystem_nodes: vec![("$TEMP/src.txt", Some(&src)), ("$TEMP/dest1/dest2/dest3/dest.txt", Some(&src))],
        ..Default::default()
    });
}

#[test]
fn test_relative_paths() {
    let src_folder = folder(&[("c1", file("contents1"))]);
    run(TestDesc {
        setup_filesystem_nodes: vec![("$TEMP/src", &src_folder)],
        args: vec!["src".to_string(), "dest".to_string()],
        expected_exit_code: 0,
        expected_actions: Some(copied_files_and_folders(1, 1)),
        expected_filesystem_nodes: vec![("$TEMP/src", Some(&src_folder)), ("$TEMP/dest", Some(&src_folder))],
        ..Default::default()
    });
}

#[test]
fn test_large_file() {
    let src_folder = folder(&[("file", file(&"so much big!".repeat(1000 * 1000 * 10)))]);
    run_expect_success(&src_folder, &empty_folder(), copied_files(1));
}

// ====================================================================================
// Trailing slashes
// ====================================================================================

fn run_trailing_slashes_test_expect_success_override_dest(src_node: Option<&Node>, src_trailing_slash: &str,
    dest_node: Option<&Node>, dest_trailing_slash: &str, expected_num_copies: u32, override_dest: &str) {
    let mut setup_filesystem_nodes = vec![];
    if let Some(n) = src_node {
        setup_filesystem_nodes.push(("$TEMP/src", n));
    }
    if let Some(n) = dest_node {
        setup_filesystem_nodes.push(("$TEMP/dest", n));
    }
    let mut m = Machines::new();
    for (p, n) in &setup_filesystem_nodes {
        m.save(p, n);
    }
    let mut spec = SyncSpec::default();
    spec.src = "/tmp/src".to_string() + src_trailing_slash;
    spec.dest = "/tmp/dest".to_string() + dest_trailing_slash;
    spec.dest_root_needs_deleting_behaviour = DestRootNeedsDeletingBehaviour::Delete;
    let totals = sync(&mut m, &spec, &mut vec![]).unwrap().unwrap();
    if matches!(src_node, Some(Node::Symlink { .. })) {
        assert_eq!(totals.num_symlinks_copied, expected_num_copies);
    } else {
        assert_eq!(totals.num_files_copied, expected_num_copies);
    }
    assert_eq!(m.load("$TEMP/src").as_ref(), Some(src_node.unwrap()));
    assert_eq!(m.load(override_dest).as_ref(), Some(src_node.unwrap()));
}

fn run_trailing_slashes_test_expect_success(src_node: Option<&Node>, src_trailing_slash: &str,
    dest_node: Option<&Node>, dest_trailing_slash: &str, expected_num_copies: u32) {
    run_trailing_slashes_test_expect_success_override_dest(src_node, src_trailing_slash, dest_node,
        dest_trailing_slash, expected_num_copies, "$TEMP/dest");
}

#[test]
fn trailing_slash_tests_test_folder_no_trailing_slash_to_folder_no_trailing_slash() {
    let src_folder = folder(&[("c1", file("contents1"))]);
    run_trailing_slashes_test_expect_success(Some(&src_folder), "", Some(&empty_folder()), "", 1);
}

#[test]
fn trailing_slash_tests_test_folder_no_trailing_slash_to_folder_trailing_slash() {
    let src_folder = folder(&[("c1", file("contents1"))]);
    run_trailing_slashes_test_expect_success(Some(&src_folder), "", Some(&empty_folder()), "/", 1);
}

#[test]
fn trailing_slash_tests_test_folder_trailing_slash_to_folder_no_trailing_slash() {
    let src_folder = folder(&[("c1", file("contents1"))]);
    run_trailing_slashes_test_expect_success(Some(&src_folder), "/", Some(&empty_folder()), "", 1);
}

#[test]
fn trailing_slash_tests_test_folder_trailing_slash_to_folder_trailing_slash() {
    let src_folder = folder(&[("c1", file("contents1"))]);
    run_trailing_slashes_test_expect_success(Some(&src_folder), "/", Some(&empty_folder()), "/", 1);
}

#[test]
fn trailing_slash_tests_test_file_no_trailing_slash_to_folder_no_trailing_slash() {
    run_trailing_slashes_test_expect_success(Some(&file("contents1")), "", Some(&empty_folder()), "", 1);
}

/// A file synced to an existing folder named with a trailing slash: as the trailing-slash table
/// says, the file goes inside the folder, under its own name, and the folder stays.
#[test]
fn usage_tests_test_file_no_trailing_slash_to_folder_trailing_slash() {
    let src = file("contents1");
    let mut m = Machines::new();
    m.save("$TEMP/src", &src);
    m.save("$TEMP/dest", &empty_folder());
    let mut spec = SyncSpec::default();
    spec.src = "/tmp/src".to_string();
    spec.dest = "/tmp/dest/".to_string();
    let totals = sync(&mut m, &spec, &mut vec![]).unwrap().unwrap();
    assert_eq!(totals.num_files_copied, 1);
    assert_eq!(m.load("$TEMP/src").as_ref(), Some(&src));
    assert_eq!(m.load("$TEMP/dest").as_ref(), Some(&folder(&[("src", src.clone())])));
}

#[test]
fn trailing_slash_tests_test_file_no_trailing_slash_to_folder_trailing_slash() {
    run_trailing_slashes_test_expect_success_override_dest(Some(&file("contents1")), "", Some(&empty_folder()), "/", 1,
        "$TEMP/dest/src");
}

#[test]
fn test_folder_no_trailing_slash_to_file_no_trailing_slash() {
    let src_folder = folder(&[("file1", file("contents"))]);
    run_trailing_slashes_test_expect_success(Some(&src_folder), "", Some(&file("contents2")), "", 1);
}

#[test]
fn test_folder_trailing_slash_to_file_no_trailing_slash() {
    let src_folder = folder(&[("file1", file("contents"))]);
    run_trailing_slashes_test_expect_success(Some(&src_folder), "/", Some(&file("contents2")), "", 1);
}

#[test]
fn test_file_no_trailing_slash_to_file_no_trailing_slash() {
    run_trailing_slashes_test_expect_success(
        Some(&file_with_modified("contents1", epoch_plus(1))), "",
        Some(&file_with_modified("contents2", epoch_plus(0))), "",
        1);
}

#[test]
fn test_file_no_trailing_slash_to_non_existent_no_trailing_slash() {
    run_trailing_slashes_test_expect_success(Some(&file("contents1")), "", None, "", 1);
}

#[test]
fn test_file_no_trailing_slash_to_non_existent_trailing_slash() {
    run_trailing_slashes_test_expect_success_override_dest(Some(&file("contents1")), "", None, "/", 1, "$TEMP/dest/src");
}

#[test]
fn test_folder_no_trailing_slash_to_non_existent_no_trailing_slash() {
    let src_folder = folder(&[("c1", file("contents1"))]);
    run_trailing_slashes_test_expect_success(Some(&src_folder), "", None, "", 1);
}

#[test]
fn test_folder_no_trailing_slash_to_non_existent_trailing_slash() {
    let src_folder = folder(&[("c1", file("contents1"))]);
    run_trailing_slashes_test_expect_success(Some(&src_folder), "", None, "/", 1);
}

#[test]
fn test_folder_trailing_slash_to_non_existent_no_trailing_slash() {
    let src_folder = folder(&[("c1", file("contents1"))]);
    run_trailing_slashes_test_expect_success(Some(&src_folder), "/", None, "", 1);
}

#[test]
fn test_folder_trailing_slash_to_non_existent_trailing_slash() {
    let src_folder = folder(&[("c1", file("contents1"))]);
    run_trailing_slashes_test_expect_success(Some(&src_folder), "/", None, "/", 1);
}

/// A file named with a trailing slash is refused, on whichever side it is.
fn run_trailing_slashes_test_expected_failure(src_node: Option<&Node>, src_trailing_slash: &str,
    dest_node: Option<&Node>, dest_trailing_slash: &str) {
    let mut m = Machines::new();
    if let Some(n) = src_node {
        m.save("$TEMP/src", n);
    }
    if let Some(n) = dest_node {
        m.save("$TEMP/dest", n);
    }
    let mut spec = SyncSpec::default();
    spec.src = "/tmp/src".to_string() + src_trailing_slash;
    spec.dest = "/tmp/dest".to_string() + dest_trailing_slash;
    let e = sync(&mut m, &spec, &mut vec![]).unwrap_err();
    assert!(e.contains("is a file or symlink but is referred to with a trailing slash") || e.contains("can't be read"), "{}", e);
    assert_eq!(m.load("$TEMP/src").as_ref(), src_node);
    assert_eq!(m.load("$TEMP/dest").as_ref(), dest_node);
}

/// A sync that fails with an error matching the pattern, leaving both sides unchanged.
fn run_trailing_slashes_test_expected_failure_matching(src_node: Option<&Node>, src_trailing_slash: &str,
    dest_node: Option<&Node>, dest_trailing_slash: &str, pattern: &str) {
    let mut setup_filesystem_nodes = vec![];
    if let Some(n) = src_node {
        setup_filesystem_nodes.push(("$TEMP/src", n));
    }
    if let Some(n) = dest_node {
        setup_filesystem_nodes.push(("$TEMP/dest", n));
    }
    run(TestDesc {
        setup_filesystem_nodes,
        args: vec!["$TEMP/src".to_string() + src_trailing_slash, "$TEMP/dest".to_string() + dest_trailing_slash],
        expected_exit_code: 12,
        expected_output_messages: vec![(1, pattern)],
        expected_filesystem_nodes: vec![("$TEMP/src", src_node), ("$TEMP/dest", dest_node)],
        ..Default::default()
    });
}

const FILE_TRAILING_SLASH_ERROR: &str = "(is a file or symlink but is referred to with a trailing slash)|(can't be read)";

#[test]
fn trailing_slash_tests_test_file_trailing_slash_to_folder_no_trailing_slash() {
    run_trailing_slashes_test_expected_failure_matching(Some(&file("contents1")), "/", Some(&empty_folder()), "",
        FILE_TRAILING_SLASH_ERROR);
}

#[test]
fn trailing_slash_tests_test_file_trailing_slash_to_folder_trailing_slash() {
    run_trailing_slashes_test_expected_failure_matching(Some(&file("contents1")), "/", Some(&empty_folder()), "/",
        FILE_TRAILING_SLASH_ERROR);
}

#[test]
fn test_folder_trailing_slash_to_file_trailing_slash() {
    let src_folder = folder(&[("file1", file("contents"))]);
    run_trailing_slashes_test_expected_failure_matching(Some(&src_folder), "/", Some(&file("contents2")), "/",
        FILE_TRAILING_SLASH_ERROR);
}

#[test]
fn test_file_trailing_slash_to_file_no_trailing_slash() {
    run_trailing_slashes_test_expected_failure_matching(Some(&file("contents1")), "/", Some(&file("contents2")), "",
        FILE_TRAILING_SLASH_ERROR);
}

#[test]
fn test_file_trailing_slash_to_file_trailing_slash() {
    run_trailing_slashes_test_expected_failure_matching(Some(&file("contents1")), "/", Some(&file("contents2")), "/",
        FILE_TRAILING_SLASH_ERROR);
}

#[test]
fn test_file_trailing_slash_to_non_existent_trailing_slash() {
    run_trailing_slashes_test_expected_failure_matching(Some(&file("contents1")), "/", None, "/", FILE_TRAILING_SLASH_ERROR);
}

/// Syncing a path that doesn't exist fails, whatever the destination.
#[test]
fn test_non_existent_to_others() {
    for (dest, slashes) in [
        (Some(file("contents")), ["", "/"]),
        (Some(empty_folder()), ["", "/"]),
        (None, ["", "/"]),
    ] {
        for src_slash in ["", "/"] {
            for dest_slash in slashes {
                run_trailing_slashes_test_expected_failure_matching(None, src_slash, dest.as_ref(), dest_slash, "doesn't exist");
            }
        }
    }
}

/// On Linux, a trailing slash on a symlink means its target, which for these symlinks doesn't
/// exist.
#[test]
fn trailing_slash_tests_test_symlinks_broken_targets() {
    run_trailing_slashes_test_expected_failure_matching(Some(&symlink_file("hello")), "/", Some(&file("contents")), "",
        "src path .* doesn't exist");
    // The destination's target doesn't exist, so the file goes into a new folder there, which
    // can't be created because the symlink is in the way.
    run_trailing_slashes_test_expected_failure_matching(Some(&file("hello")), "", Some(&symlink_file("hello")), "/",
        "Error creating folder and ancestors .* File exists");
    run_trailing_slashes_test_expected_failure_matching(Some(&symlink_folder("hello")), "/", Some(&file("contents")), "",
        "src path .* doesn't exist");
    run_trailing_slashes_test_expected_failure_matching(Some(&file("hello")), "", Some(&symlink_folder("hello")), "/",
        "Error creating folder and ancestors .* File exists");
}

#[test]
fn test_symlink_no_trailing_slash_to_folder_trailing_slash() {
    run_trailing_slashes_test_expect_success_override_dest(Some(&symlink_file("target")), "", Some(&empty_folder()), "/", 1,
        "$TEMP/dest/src");
}

#[test]
fn test_symlink_no_trailing_slash_to_non_existent_trailing_slash() {
    run_trailing_slashes_test_expect_success_override_dest(Some(&symlink_file("target")), "", None, "/", 1,
        "$TEMP/dest/src");
}

#[test]
fn test_folder_no_trailing_slash_to_file_trailing_slash() {
    let src_folder = folder(&[("file1", file("contents"))]);
    run_trailing_slashes_test_expected_failure(Some(&src_folder), "", Some(&file("contents2")), "/");
}

#[test]
fn test_file_no_trailing_slash_to_file_trailing_slash() {
    run_trailing_slashes_test_expected_failure(Some(&file("contents1")), "", Some(&file("contents2")), "/");
}

#[test]
fn test_file_trailing_slash_to_non_existent_no_trailing_slash() {
    run_trailing_slashes_test_expected_failure(Some(&file("contents1")), "/", None, "");
}

#[test]
fn test_symlink_no_trailing_slash_to_folder_no_trailing_slash() {
    run_trailing_slashes_test_expect_success(Some(&symlink_file("target")), "", Some(&empty_folder()), "", 1);
}

#[test]
fn test_folder_no_trailing_slash_to_symlink_no_trailing_slash() {
    let src_folder = folder(&[("c1", file("contents1"))]);
    run_trailing_slashes_test_expect_success(Some(&src_folder), "", Some(&symlink_file("target")), "", 1);
}

#[test]
fn test_folder_trailing_slash_to_symlink_no_trailing_slash() {
    let src_folder = folder(&[("c1", file("contents1"))]);
    run_trailing_slashes_test_expect_success(Some(&src_folder), "/", Some(&symlink_file("target")), "", 1);
}

#[test]
fn test_symlink_no_trailing_slash_to_non_existent_no_trailing_slash() {
    run_trailing_slashes_test_expect_success(Some(&symlink_file("target")), "", None, "", 1);
}

// ====================================================================================
// Symlinks
// ====================================================================================

#[test]
fn test_symlink_file() {
    let src = folder(&[
        ("symlink", symlink_file("file.txt")),
        ("file.txt", file_with_modified("contents", epoch_plus(0))),
    ]);
    run_expect_success(&src, &empty_folder(), copied_files_and_symlinks(1, 1));
}

#[test]
fn test_symlink_folder() {
    let src = folder(&[
        ("symlink", symlink_folder("target")),
        ("target", folder(&[
            ("file1.txt", file_with_modified("contents1", epoch_plus(0))),
            ("file2.txt", file_with_modified("contents2", epoch_plus(0))),
        ])),
    ]);
    run_expect_success(&src, &empty_folder(), copied_files_folders_and_symlinks(2, 1, 1));
}

#[test]
fn test_symlink_broken() {
    let src = folder(&[("symlink", symlink_file("target"))]);
    run_expect_success(&src, &empty_folder(), copied_symlinks(1));
}

#[test]
fn test_symlink_folder_above_root() {
    let src = folder(&[
        ("symlink", symlink_folder("target")),
        ("target", folder(&[("file1.txt", file_with_modified("contents1", epoch_plus(0)))])),
    ]);
    let expected = file_with_modified("contents1", epoch_plus(0));
    run(TestDesc {
        setup_filesystem_nodes: vec![("$TEMP/src", &src)],
        args: vec!["$TEMP/src/symlink/file1.txt".to_string(), "$TEMP/dest.txt".to_string()],
        expected_exit_code: 0,
        expected_actions: Some(copied_files_and_symlinks(1, 0)),
        expected_filesystem_nodes: vec![("$TEMP/src", Some(&src)), ("$TEMP/dest.txt", Some(&expected))],
        ..Default::default()
    });
}

#[test]
fn test_symlink_file_root() {
    let src = symlink_file("target.txt");
    let target = file_with_modified("contents1", epoch_plus(0));
    run(TestDesc {
        setup_filesystem_nodes: vec![("$TEMP/src", &src), ("$TEMP/target.txt", &target)],
        args: vec!["$TEMP/src".to_string(), "$TEMP/dest".to_string()],
        expected_exit_code: 0,
        expected_actions: Some(copied_files_and_symlinks(0, 1)),
        expected_filesystem_nodes: vec![("$TEMP/src", Some(&src)), ("$TEMP/dest", Some(&src))],
        ..Default::default()
    });
}

#[test]
fn test_symlink_folder_root() {
    let src = symlink_folder("target");
    let target_folder = folder(&[("file1.txt", file_with_modified("contents1", epoch_plus(0)))]);
    run(TestDesc {
        setup_filesystem_nodes: vec![("$TEMP/src", &src), ("$TEMP/target", &target_folder)],
        args: vec!["$TEMP/src".to_string(), "$TEMP/dest".to_string()],
        expected_exit_code: 0,
        expected_actions: Some(copied_files_folders_and_symlinks(0, 0, 1)),
        expected_filesystem_nodes: vec![
            ("$TEMP/src", Some(&src)),
            ("$TEMP/dest", Some(&src)),
            ("$TEMP/target", Some(&target_folder)),
        ],
        ..Default::default()
    });
}

#[test]
fn test_symlink_unchanged() {
    let src = folder(&[
        ("symlink", symlink_file("target.txt")),
        ("target.txt", file_with_modified("contents", epoch_plus(0))),
    ]);
    run_expect_success(&src, &src, copied_files_and_symlinks(0, 0));
}

#[test]
fn test_symlink_new_target() {
    let src = folder(&[
        ("symlink", symlink_file("target1.txt")),
        ("target1.txt", file_with_modified("contents", epoch_plus(0))),
    ]);
    let dest = folder(&[
        ("symlink", symlink_file("target2.txt")),
        ("target2.txt", file_with_modified("contents", epoch_plus(0))),
    ]);
    run_expect_success(&src, &dest, NumActions { deleted_symlinks: 1, copied_symlinks: 1, copied_files: 1, deleted_files: 1, ..Default::default() });
}

#[test]
fn test_symlink_change_kind_folder_to_file() {
    let src = folder(&[
        ("symlink", symlink_file("target")),
        ("target", file_with_modified("contents", epoch_plus(0))),
    ]);
    let dest = folder(&[("symlink", symlink_folder("target")), ("target", empty_folder())]);
    // All symlinks are the same kind on Linux, so only the target changes.
    let expected_actions = NumActions { deleted_folders: 1, copied_files: 1, deleted_symlinks: 0, copied_symlinks: 0, ..Default::default() };
    run_expect_success(&src, &dest, expected_actions);
}

#[test]
fn test_symlink_change_kind_file_to_folder() {
    let src = folder(&[("symlink", symlink_folder("target")), ("target", empty_folder())]);
    let dest = folder(&[
        ("symlink", symlink_file("target")),
        ("target", file_with_modified("contents", epoch_plus(0))),
    ]);
    let expected_actions = NumActions { deleted_files: 1, created_folders: 1, deleted_symlinks: 0, copied_symlinks: 0, ..Default::default() };
    run_expect_success(&src, &dest, expected_actions);
}

#[test]
fn test_symlink_change_kind_broken() {
    let src = folder(&[
        ("symlink1", symlink_file("target1")),
        ("symlink2", symlink_file("target2")),
        ("symlink3", symlink_folder("target4")),
        ("target3", file_with_modified("contents", epoch_plus(0))),
        ("target4", empty_folder()),
    ]);
    let dest = folder(&[
        ("symlink1", symlink_folder("target1")),
        ("symlink2", symlink_file("target2")),
        ("symlink3", symlink_file("target4")),
        ("target1", empty_folder()),
        ("target2", file_with_modified("contents", epoch_plus(0))),
    ]);
    run_expect_success(&src, &dest, NumActions { deleted_files: 1, copied_files: 1,
        deleted_folders: 1, created_folders: 1,
        deleted_symlinks: 0, copied_symlinks: 0, ..Default::default() });
}

#[test]
fn test_symlink_delete_from_dest() {
    let src = folder(&[
        ("file-symlink1", file("not a symlink!")),
        ("folder-symlink1", empty_folder()),
    ]);
    let dest = folder(&[
        ("file-symlink1", symlink_file("target-file.txt")),
        ("folder-symlink1", symlink_folder("target-folder")),
        ("file-symlink2", symlink_file("target-file.txt")),
        ("folder-symlink2", symlink_folder("target-folder")),
        ("target-file.txt", file_with_modified("contents", epoch_plus(0))),
        ("target-folder", folder(&[
            ("file1.txt", file_with_modified("contents1", epoch_plus(0))),
            ("file2.txt", file_with_modified("contents2", epoch_plus(0))),
        ])),
    ]);
    run_expect_success(&src, &dest, NumActions { copied_files: 1, created_folders: 1, copied_symlinks: 0,
        deleted_files: 3, deleted_folders: 1, deleted_symlinks: 4 });
}

#[test]
fn test_symlink_root_broken() {
    let src = symlink_file("target doesn't exist");
    run_expect_success(&src, &empty_folder(), NumActions { copied_symlinks: 1, deleted_folders: 1, ..Default::default() });
}

// ====================================================================================
// Filters, destination root deletion, and syncing across platforms
// ====================================================================================

#[test]
fn test_filters() {
    let src_folder = folder(&[
        ("c1", file_with_modified("contents1", epoch_plus(0))),
        ("c2", file_with_modified("contents2", epoch_plus(0))),
        ("c3", folder(&[
            ("sc1", file_with_modified("contents3", epoch_plus(0))),
            ("sc2", file_with_modified("contents3", epoch_plus(0))),
        ])),
    ]);
    let expected_dest_folder = folder(&[
        ("c1", file_with_modified("contents1", epoch_plus(0))),
        ("c3", folder(&[("sc2", file_with_modified("contents3", epoch_plus(0)))])),
    ]);
    run(TestDesc {
        setup_filesystem_nodes: vec![("$TEMP/src", &src_folder)],
        args: vec![
            "$TEMP/src".to_string(),
            "$TEMP/dest".to_string(),
            "--filter".to_string(),
            "+c3.*".to_string(),
            "--filter".to_string(),
            "+c1".to_string(),
            "--filter".to_string(),
            "-.*/sc1".to_string(),
        ],
        expected_exit_code: 0,
        expected_actions: Some(copied_files_and_folders(2, 2)),
        expected_filesystem_nodes: vec![("$TEMP/src", Some(&src_folder)), ("$TEMP/dest", Some(&expected_dest_folder))],
        ..Default::default()
    });
}

#[test]
fn test_filters_partial_match() {
    let src_folder = folder(&[
        ("mybuilder.txt", file_with_modified("contents1", epoch_plus(0))),
        ("build", folder(&[("sc1", file_with_modified("contents3", epoch_plus(0)))])),
    ]);
    let expected_dest_folder = folder(&[("mybuilder.txt", file_with_modified("contents1", epoch_plus(0)))]);
    run(TestDesc {
        setup_filesystem_nodes: vec![("$TEMP/src", &src_folder)],
        args: vec!["$TEMP/src".to_string(), "$TEMP/dest".to_string(), "--filter".to_string(), "-build".to_string()],
        expected_exit_code: 0,
        expected_actions: Some(copied_files_and_folders(1, 1)),
        expected_filesystem_nodes: vec![("$TEMP/src", Some(&src_folder)), ("$TEMP/dest", Some(&expected_dest_folder))],
        ..Default::default()
    });
}

#[test]
fn dest_root_needs_deleting_tests_skip() {
    let src = file("this will replace the dest!");
    let dest = folder(&[
        ("c1", file_with_modified("contents3", epoch_plus(0))),
        ("c2", file_with_modified("contents4", epoch_plus(0))),
    ]);
    run(TestDesc {
        setup_filesystem_nodes: vec![("$TEMP/src", &src), ("$TEMP/dest", &dest)],
        args: vec!["$TEMP/src".to_string(), "$TEMP/dest".to_string(), "--dest-root-needs-deleting=skip".to_string()],
        expected_exit_code: 0,
        expected_filesystem_nodes: vec![("$TEMP/src", Some(&src)), ("$TEMP/dest", Some(&dest))],
        ..Default::default()
    });
}

#[test]
fn dest_root_needs_deleting_tests_delete() {
    let src = file("this will replace the dest!");
    let dest = folder(&[("c1", file_with_modified("contents2", epoch_plus(0)))]);
    run(TestDesc {
        setup_filesystem_nodes: vec![("$TEMP/src", &src), ("$TEMP/dest", &dest)],
        args: vec!["$TEMP/src".to_string(), "$TEMP/dest".to_string(), "--dest-root-needs-deleting=delete".to_string()],
        expected_exit_code: 0,
        expected_actions: Some(NumActions { deleted_files: 1, deleted_folders: 1, copied_files: 1, ..Default::default() }),
        expected_filesystem_nodes: vec![("$TEMP/src", Some(&src)), ("$TEMP/dest", Some(&src))],
        ..Default::default()
    });
}

#[test]
fn dest_root_needs_deleting_tests_error() {
    let src = file("this will replace the dest!");
    let dest = folder(&[
        ("c1", file_with_modified("contents3", epoch_plus(0))),
        ("c2", file_with_modified("contents4", epoch_plus(0))),
    ]);
    run(TestDesc {
        setup_filesystem_nodes: vec![("$TEMP/src", &src), ("$TEMP/dest", &dest)],
        args: vec!["$TEMP/src".to_string(), "$TEMP/dest".to_string(), "--dest-root-needs-deleting=error".to_string()],
        expected_exit_code: 12,
        expected_error: Some("Will not delete"),
        expected_filesystem_nodes: vec![("$TEMP/src", Some(&src)), ("$TEMP/dest", Some(&dest))],
        ..Default::default()
    });
}

#[test]
fn prompt_delete() {
    let src = file("this will replace the dest!");
    let dest = empty_folder();
    run(TestDesc {
        setup_filesystem_nodes: vec![("$TEMP/src", &src), ("$TEMP/dest", &dest)],
        args: vec!["$TEMP/src".to_string(), "$TEMP/dest".to_string(), "--dest-root-needs-deleting=prompt".to_string()],
        prompt_responses: vec![PromptAnswer::Proceed],
        expected_exit_code: 0,
        expected_actions: Some(NumActions { deleted_folders: 1, copied_files: 1, ..Default::default() }),
        expected_output_messages: vec![(1, "dest root folder .* needs deleting")],
        expected_filesystem_nodes: vec![("$TEMP/src", Some(&src)), ("$TEMP/dest", Some(&src))],
        ..Default::default()
    });
}

#[test]
fn test_cross_platform() {
    let src = folder(&[
        ("c1", file_with_modified("contents1", epoch_plus(0))),
        ("c2", file_with_modified("contents2", epoch_plus(0))),
        ("c3", folder(&[("sc", file_with_modified("contents3", epoch_plus(0)))])),
        ("same", folder(&[("same", file_with_modified("same", epoch_plus(0)))])),
    ]);
    let dest = folder(&[
        ("remove me", file_with_modified("contents1", epoch_plus(0))),
        ("remove me too", file_with_modified("contents2", epoch_plus(0))),
        ("remove this whole folder", folder(&[
            ("sc", file_with_modified("contents3", epoch_plus(0))),
            ("sc2", file_with_modified("contents3", epoch_plus(0))),
            ("remove this whole folder", folder(&[("sc", file_with_modified("contents3", epoch_plus(0)))])),
        ])),
        ("same", folder(&[("same", file_with_modified("same", epoch_plus(0)))])),
    ]);
    for src_path in ["$TEMP/src", "$REMOTE_WINDOWS_TEMP/src", "$REMOTE_LINUX_TEMP/src"] {
        for dest_path in ["$TEMP/dest", "$REMOTE_WINDOWS_TEMP/dest", "$REMOTE_LINUX_TEMP/dest"] {
            run(TestDesc {
                setup_filesystem_nodes: vec![(src_path, &src), (dest_path, &dest)],
                args: vec![src_path.to_string(), dest_path.to_string(), "--deploy=ok".to_string()],
                expected_exit_code: 0,
                expected_actions: Some(NumActions {
                    copied_files: 3,
                    created_folders: 1,
                    copied_symlinks: 0,
                    deleted_files: 5,
                    deleted_folders: 2,
                    deleted_symlinks: 0,
                }),
                expected_filesystem_nodes: vec![(src_path, Some(&src)), (dest_path, Some(&src))],
                ..Default::default()
            });
        }
    }
}

// ====================================================================================
// Destructive behaviours and prompts
// ====================================================================================

fn entry_prompt_args(behaviour: &str) -> Vec<String> {
    vec!["$TEMP/src".to_string(), "$TEMP/dest".to_string(), "--dest-entry-needs-deleting".to_string(), behaviour.to_string()]
}

fn newer_prompt_args(behaviour: &str) -> Vec<String> {
    vec!["$TEMP/src".to_string(), "$TEMP/dest".to_string(), "--dest-file-newer".to_string(), behaviour.to_string()]
}

/// Dest has three files which need deleting; the answers are skip, delete, skip. Deletions are
/// confirmed in reverse order, so the middle one goes.
#[test]
fn prompt_skip_then_delete() {
    let src = empty_folder();
    let dest = folder(&[
        ("c1", file_with_modified("contents3", epoch_plus(0))),
        ("c2", file_with_modified("contents4", epoch_plus(0))),
        ("c3", file_with_modified("contents7", epoch_plus(0))),
    ]);
    let expected = folder(&[
        ("c1", file_with_modified("contents3", epoch_plus(0))),
        ("c3", file_with_modified("contents7", epoch_plus(0))),
    ]);
    run(TestDesc {
        setup_filesystem_nodes: vec![("$TEMP/src", &src), ("$TEMP/dest", &dest)],
        args: entry_prompt_args("prompt"),
        prompt_responses: vec![PromptAnswer::Skip, PromptAnswer::Proceed, PromptAnswer::Skip],
        expected_exit_code: 0,
        expected_output_messages: vec![
            (1, "dest file .*c1.* needs deleting"),
            (1, "dest file .*c2.* needs deleting"),
            // Makes sure that the second answer affected one file only
            (1, "dest file .*c3.* needs deleting"),
            (1, r"Deleted 1 file\(s\)"),
        ],
        expected_filesystem_nodes: vec![("$TEMP/src", Some(&src)), ("$TEMP/dest", Some(&expected))],
        ..Default::default()
    });
}

#[test]
fn dest_entry_needs_deleting_tests_prompt_skip_all() {
    let src = empty_folder();
    let dest = folder(&[
        ("c1", file_with_modified("contents3", epoch_plus(0))),
        ("c2", file_with_modified("contents4", epoch_plus(0))),
    ]);
    run(TestDesc {
        setup_filesystem_nodes: vec![("$TEMP/src", &src), ("$TEMP/dest", &dest)],
        args: entry_prompt_args("prompt"),
        prompt_responses: vec![PromptAnswer::SkipAll],
        expected_exit_code: 0,
        expected_output_messages: vec![
            // Asked about the second file first, as deletions go in reverse order
            (1, "dest file .*c2.* needs deleting"),
            (1, "Nothing to do"),
            // Never asked about the first, after "skip all"
            (0, "dest file .*c1.* needs deleting"),
        ],
        expected_filesystem_nodes: vec![("$TEMP/src", Some(&src)), ("$TEMP/dest", Some(&dest))],
        ..Default::default()
    });
}

#[test]
fn prompt_delete_all() {
    let src = empty_folder();
    let dest = folder(&[
        ("c1", file_with_modified("contents3", epoch_plus(0))),
        ("c2", file_with_modified("contents4", epoch_plus(0))),
    ]);
    run(TestDesc {
        setup_filesystem_nodes: vec![("$TEMP/src", &src), ("$TEMP/dest", &dest)],
        args: entry_prompt_args("prompt"),
        prompt_responses: vec![PromptAnswer::ProceedAll],
        expected_exit_code: 0,
        expected_output_messages: vec![
            (1, "dest file .*c2.* needs deleting"),
            (1, r"Deleted 2 file\(s\)"),
            (0, "dest file .*c1.* needs deleting"),
        ],
        expected_filesystem_nodes: vec![("$TEMP/src", Some(&src)), ("$TEMP/dest", Some(&src))],
        ..Default::default()
    });
}

#[test]
fn dest_entry_needs_deleting_tests_prompt_cancel() {
    let src = empty_folder();
    let dest = folder(&[("c1", file_with_modified("contents2", epoch_plus(0)))]);
    run(TestDesc {
        setup_filesystem_nodes: vec![("$TEMP/src", &src), ("$TEMP/dest", &dest)],
        args: entry_prompt_args("prompt"),
        prompt_responses: vec![PromptAnswer::Cancel],
        expected_exit_code: 12,
        expected_output_messages: vec![
            // Once in the question and once in the error
            (2, "dest file .*c1.* needs deleting"),
            (1, "Will not delete"),
        ],
        expected_filesystem_nodes: vec![("$TEMP/src", Some(&src)), ("$TEMP/dest", Some(&dest))],
        ..Default::default()
    });
}

#[test]
fn dest_entry_needs_deleting_tests_error() {
    let src = empty_folder();
    let dest = folder(&[("c1", file_with_modified("contents2", epoch_plus(0)))]);
    run(TestDesc {
        setup_filesystem_nodes: vec![("$TEMP/src", &src), ("$TEMP/dest", &dest)],
        args: entry_prompt_args("error"),
        expected_exit_code: 12,
        expected_output_messages: vec![(1, "Will not delete")],
        expected_filesystem_nodes: vec![("$TEMP/src", Some(&src)), ("$TEMP/dest", Some(&dest))],
        ..Default::default()
    });
}

#[test]
fn dest_entry_needs_deleting_tests_skip() {
    let src = empty_folder();
    let dest = folder(&[("c1", file_with_modified("contents2", epoch_plus(0)))]);
    run(TestDesc {
        setup_filesystem_nodes: vec![("$TEMP/src", &src), ("$TEMP/dest", &dest)],
        args: entry_prompt_args("skip"),
        expected_exit_code: 0,
        expected_output_messages: vec![(1, "Nothing to do")],
        expected_filesystem_nodes: vec![("$TEMP/src", Some(&src)), ("$TEMP/dest", Some(&dest))],
        ..Default::default()
    });
}

#[test]
fn dest_entry_needs_deleting_tests_delete() {
    let src = empty_folder();
    let dest = folder(&[("c1", file_with_modified("contents2", epoch_plus(0)))]);
    run(TestDesc {
        setup_filesystem_nodes: vec![("$TEMP/src", &src), ("$TEMP/dest", &dest)],
        args: entry_prompt_args("delete"),
        expected_exit_code: 0,
        expected_output_messages: vec![(1, r"Deleted 1 file\(s\)")],
        expected_filesystem_nodes: vec![("$TEMP/src", Some(&src)), ("$TEMP/dest", Some(&src))],
        ..Default::default()
    });
}

/// Three files that are newer on the destination; the answers are skip, overwrite, skip.
#[test]
fn prompt_skip_then_overwrite() {
    let src = folder(&[
        ("c1", file_with_modified("contents1", epoch_plus(0))),
        ("c2", file_with_modified("contents2", epoch_plus(0))),
        ("c3", file_with_modified("contents6", epoch_plus(0))),
    ]);
    let dest = folder(&[
        ("c1", file_with_modified("contents3", epoch_plus(1))),
        ("c2", file_with_modified("contents4", epoch_plus(1))),
        ("c3", file_with_modified("contents7", epoch_plus(1))),
    ]);
    let expected = folder(&[
        ("c1", file_with_modified("contents3", epoch_plus(1))),
        ("c2", file_with_modified("contents2", epoch_plus(0))),
        ("c3", file_with_modified("contents7", epoch_plus(1))),
    ]);
    run(TestDesc {
        setup_filesystem_nodes: vec![("$TEMP/src", &src), ("$TEMP/dest", &dest)],
        args: newer_prompt_args("prompt"),
        prompt_responses: vec![PromptAnswer::Skip, PromptAnswer::Proceed, PromptAnswer::Skip],
        expected_exit_code: 0,
        expected_output_messages: vec![
            (1, "dest file .*c1.* is newer than source file .*c1.*"),
            (1, "dest file .*c2.* is newer than source file .*c2.*"),
            (1, "dest file .*c3.* is newer than source file .*c3.*"),
            (1, r"Copied 1 file\(s\)"),
        ],
        expected_filesystem_nodes: vec![("$TEMP/src", Some(&src)), ("$TEMP/dest", Some(&expected))],
        ..Default::default()
    });
}

#[test]
fn dest_file_newer_tests_prompt_skip_all() {
    let src = folder(&[
        ("c1", file_with_modified("contents1", epoch_plus(0))),
        ("c2", file_with_modified("contents2", epoch_plus(0))),
    ]);
    let dest = folder(&[
        ("c1", file_with_modified("contents3", epoch_plus(1))),
        ("c2", file_with_modified("contents4", epoch_plus(1))),
    ]);
    run(TestDesc {
        setup_filesystem_nodes: vec![("$TEMP/src", &src), ("$TEMP/dest", &dest)],
        args: newer_prompt_args("prompt"),
        prompt_responses: vec![PromptAnswer::SkipAll],
        expected_exit_code: 0,
        expected_output_messages: vec![
            (1, "dest file .*c1|2.* is newer than source file .*c1|2.*"),
            (1, "Nothing to do"),
        ],
        expected_filesystem_nodes: vec![("$TEMP/src", Some(&src)), ("$TEMP/dest", Some(&dest))],
        ..Default::default()
    });
}

#[test]
fn prompt_overwrite_all() {
    let src = folder(&[
        ("c1", file_with_modified("contents1", epoch_plus(0))),
        ("c2", file_with_modified("contents2", epoch_plus(0))),
    ]);
    let dest = folder(&[
        ("c1", file_with_modified("contents3", epoch_plus(1))),
        ("c2", file_with_modified("contents4", epoch_plus(1))),
    ]);
    run(TestDesc {
        setup_filesystem_nodes: vec![("$TEMP/src", &src), ("$TEMP/dest", &dest)],
        args: newer_prompt_args("prompt"),
        prompt_responses: vec![PromptAnswer::ProceedAll],
        expected_exit_code: 0,
        expected_output_messages: vec![
            (1, r"dest file .*c\d.* is newer than source file .*c\d.*"),
            (1, r"Copied 2 file\(s\)"),
        ],
        expected_filesystem_nodes: vec![("$TEMP/src", Some(&src)), ("$TEMP/dest", Some(&src))],
        ..Default::default()
    });
}

#[test]
fn dest_file_newer_tests_prompt_cancel() {
    let src = folder(&[("c1", file_with_modified("contents1", epoch_plus(0)))]);
    let dest = folder(&[("c1", file_with_modified("contents2", epoch_plus(1)))]);
    run(TestDesc {
        setup_filesystem_nodes: vec![("$TEMP/src", &src), ("$TEMP/dest", &dest)],
        args: newer_prompt_args("prompt"),
        prompt_responses: vec![PromptAnswer::Cancel],
        expected_exit_code: 12,
        expected_output_messages: vec![
            // Once in the question and once in the error
            (2, "dest file .*c1.* is newer than source file .*c1.*"),
            (1, "Will not overwrite"),
        ],
        expected_filesystem_nodes: vec![("$TEMP/src", Some(&src)), ("$TEMP/dest", Some(&dest))],
        ..Default::default()
    });
}

#[test]
fn dest_file_newer_tests_error() {
    let src = folder(&[("c1", file_with_modified("contents1", epoch_plus(0)))]);
    let dest = folder(&[("c1", file_with_modified("contents2", epoch_plus(1)))]);
    run(TestDesc {
        setup_filesystem_nodes: vec![("$TEMP/src", &src), ("$TEMP/dest", &dest)],
        args: newer_prompt_args("error"),
        expected_exit_code: 12,
        expected_output_messages: vec![(1, "Will not overwrite")],
        expected_filesystem_nodes: vec![("$TEMP/src", Some(&src)), ("$TEMP/dest", Some(&dest))],
        ..Default::default()
    });
}

#[test]
fn dest_file_newer_tests_skip() {
    let src = folder(&[("c1", file_with_modified("contents1", epoch_plus(0)))]);
    let dest = folder(&[("c1", file_with_modified("contents2", epoch_plus(1)))]);
    run(TestDesc {
        setup_filesystem_nodes: vec![("$TEMP/src", &src), ("$TEMP/dest", &dest)],
        args: newer_prompt_args("skip"),
        expected_exit_code: 0,
        expected_output_messages: vec![(1, "Nothing to do")],
        expected_filesystem_nodes: vec![("$TEMP/src", Some(&src)), ("$TEMP/dest", Some(&dest))],
        ..Default::default()
    });
}

#[test]
fn overwrite() {
    let src = folder(&[("c1", file_with_modified("contents1", epoch_plus(0)))]);
    let dest = folder(&[("c1", file_with_modified("contents2", epoch_plus(1)))]);
    run(TestDesc {
        setup_filesystem_nodes: vec![("$TEMP/src", &src), ("$TEMP/dest", &dest)],
        args: newer_prompt_args("overwrite"),
        expected_exit_code: 0,
        expected_output_messages: vec![(1, r"Copied 1 file\(s\)")],
        expected_filesystem_nodes: vec![("$TEMP/src", Some(&src)), ("$TEMP/dest", Some(&src))],
        ..Default::default()
    });
}

#[test]
fn dest_root_needs_deleting_tests_prompt_cancel() {
    let src = file("this will replace the dest!");
    let dest = folder(&[
        ("c1", file_with_modified("contents3", epoch_plus(0))),
        ("c2", file_with_modified("contents4", epoch_plus(0))),
    ]);
    run(TestDesc {
        setup_filesystem_nodes: vec![("$TEMP/src", &src), ("$TEMP/dest", &dest)],
        args: vec!["$TEMP/src".to_string(), "$TEMP/dest".to_string(), "--dest-root-needs-deleting=prompt".to_string()],
        prompt_responses: vec![PromptAnswer::Cancel],
        expected_exit_code: 12,
        expected_output_messages: vec![
            (2, "dest root folder .* needs deleting"),
            (1, "Will not delete"),
        ],
        expected_filesystem_nodes: vec![("$TEMP/src", Some(&src)), ("$TEMP/dest", Some(&dest))],
        ..Default::default()
    });
}

#[test]
fn prompt_skip() {
    let src = file("this will replace the dest!");
    let dest = empty_folder();
    run(TestDesc {
        setup_filesystem_nodes: vec![("$TEMP/src", &src), ("$TEMP/dest", &dest)],
        args: vec!["$TEMP/src".to_string(), "$TEMP/dest".to_string(), "--dest-root-needs-deleting=prompt".to_string()],
        prompt_responses: vec![PromptAnswer::Skip],
        expected_exit_code: 0,
        expected_output_messages: vec![(1, "dest root folder .* needs deleting")],
        expected_filesystem_nodes: vec![("$TEMP/src", Some(&src)), ("$TEMP/dest", Some(&dest))],
        ..Default::default()
    });
}

/// A folder that needs deleting on the destination has files which have been excluded, and so
/// the folder can't be deleted.
#[test]
fn test_remove_dest_folder_with_excluded_files() {
    let src_folder = folder(&[("c1", file("contents1"))]);
    let dest_folder = folder(&[(
        "This folder would be removed",
        folder(&[("EXCLUDED", file("But it can't because this file has been excluded from the sync"))]),
    )]);
    run(TestDesc {
        setup_filesystem_nodes: vec![("$TEMP/src", &src_folder), ("$TEMP/dest", &dest_folder)],
        args: vec!["$TEMP/src".to_string(), "$TEMP/dest".to_string(), "--filter".to_string(), "-.*/EXCLUDED".to_string()],
        expected_exit_code: 12,
        expected_output_messages: vec![(1, "(The directory is not empty)|(Directory not empty)")],
        expected_filesystem_nodes: vec![("$TEMP/src", Some(&src_folder))],
        ..Default::default()
    });
}

