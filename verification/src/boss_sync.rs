use vstd::prelude::*;
use crate::root_relative_path::RootRelativePath;
use crate::ordered_map::{OrderedMap, keys_in, lemma_keys_in_agree, lemma_keys_in_push, lemma_keys_in_remove};
use crate::boss_doer_interface::{EntryDetails, Command, ModifiedTime, ProgressPhase, Response, kind_name_of, target_view, time_before};
use crate::sync_roots::{Side, pretty_path, spec_pretty_path};
use crate::text::{concat, concat_all, decimal, grouped_digits, human_bytes, human_bytes_text, human_count};

verus! {

/// Why a destination entry is deleted.
#[derive(Clone, Copy, Debug, PartialEq, Eq, Structural)]
pub enum DeleteReason {
    /// There is no entry at this path on the source.
    NotOnSource,
    /// The source entry at this path cannot be copied over it (e.g. a folder replacing a file).
    Incompatible,
}

/// Why a source entry is copied.
#[derive(Clone, Copy, Debug, PartialEq, Eq, Structural)]
pub enum CopyReason {
    /// There is no (compatible) entry at this path on the destination.
    NotOnDest,
    /// The destination file is newer than the source file.
    DestNewer,
    /// The destination file is older than the source file.
    DestOlder,
}

/// The deletions and copies that a sync will perform, each with its reason.
pub struct Actions {
    pub to_delete: OrderedMap<(EntryDetails, DeleteReason)>,
    pub to_copy: OrderedMap<(EntryDetails, CopyReason)>,
}

/// Counts of what was found while querying.
pub struct Stats {
    pub num_src_entries: u32,
    pub num_src_files: u32,
    pub num_src_folders: u32,
    pub num_src_symlinks: u32,
    pub src_total_bytes: u64,
    pub num_dest_entries: u32,
    pub num_dest_files: u32,
    pub num_dest_folders: u32,
    pub num_dest_symlinks: u32,
    pub dest_total_bytes: u64,
}

impl Stats {
    /// All counts zero.
    pub fn new() -> (r: Stats)
        ensures
            r.num_src_entries == 0 && r.num_src_files == 0 && r.num_src_folders == 0 && r.num_src_symlinks == 0
                && r.src_total_bytes == 0,
            r.num_dest_entries == 0 && r.num_dest_files == 0 && r.num_dest_folders == 0 && r.num_dest_symlinks == 0
                && r.dest_total_bytes == 0,
    {
        Stats {
            num_src_entries: 0, num_src_files: 0, num_src_folders: 0, num_src_symlinks: 0, src_total_bytes: 0,
            num_dest_entries: 0, num_dest_files: 0, num_dest_folders: 0, num_dest_symlinks: 0, dest_total_bytes: 0,
        }
    }

    /// Whether counting one more source entry keeps every count in range.
    pub open spec fn can_count_src(&self, e: EntryDetails) -> bool {
        match e {
            EntryDetails::File { size, .. } => self.num_src_files < u32::MAX && self.src_total_bytes + size <= u64::MAX,
            EntryDetails::Folder => self.num_src_folders < u32::MAX,
            EntryDetails::Symlink { .. } => self.num_src_symlinks < u32::MAX,
        }
    }

    /// Whether counting one more destination entry keeps every count in range.
    pub open spec fn can_count_dest(&self, e: EntryDetails) -> bool {
        match e {
            EntryDetails::File { size, .. } => self.num_dest_files < u32::MAX && self.dest_total_bytes + size <= u64::MAX,
            EntryDetails::Folder => self.num_dest_folders < u32::MAX,
            EntryDetails::Symlink { .. } => self.num_dest_symlinks < u32::MAX,
        }
    }

    /// The counts after one more source entry.
    pub open spec fn counted_src(self, e: EntryDetails) -> Stats {
        match e {
            EntryDetails::File { size, .. } => Stats {
                num_src_files: (self.num_src_files + 1) as u32,
                src_total_bytes: (self.src_total_bytes + size) as u64,
                ..self
            },
            EntryDetails::Folder => Stats { num_src_folders: (self.num_src_folders + 1) as u32, ..self },
            EntryDetails::Symlink { .. } => Stats { num_src_symlinks: (self.num_src_symlinks + 1) as u32, ..self },
        }
    }

    /// The counts after one more destination entry.
    pub open spec fn counted_dest(self, e: EntryDetails) -> Stats {
        match e {
            EntryDetails::File { size, .. } => Stats {
                num_dest_files: (self.num_dest_files + 1) as u32,
                dest_total_bytes: (self.dest_total_bytes + size) as u64,
                ..self
            },
            EntryDetails::Folder => Stats { num_dest_folders: (self.num_dest_folders + 1) as u32, ..self },
            EntryDetails::Symlink { .. } => Stats { num_dest_symlinks: (self.num_dest_symlinks + 1) as u32, ..self },
        }
    }

    fn count_src(&mut self, e: &EntryDetails)
        requires
            old(self).can_count_src(*e),
        ensures
            *final(self) == old(self).counted_src(*e),
    {
        match e {
            EntryDetails::File { size, .. } => {
                self.num_src_files = self.num_src_files + 1;
                self.src_total_bytes = self.src_total_bytes + *size;
            }
            EntryDetails::Folder => self.num_src_folders = self.num_src_folders + 1,
            EntryDetails::Symlink { .. } => self.num_src_symlinks = self.num_src_symlinks + 1,
        }
    }

    fn count_dest(&mut self, e: &EntryDetails)
        requires
            old(self).can_count_dest(*e),
        ensures
            *final(self) == old(self).counted_dest(*e),
    {
        match e {
            EntryDetails::File { size, .. } => {
                self.num_dest_files = self.num_dest_files + 1;
                self.dest_total_bytes = self.dest_total_bytes + *size;
            }
            EntryDetails::Folder => self.num_dest_folders = self.num_dest_folders + 1,
            EntryDetails::Symlink { .. } => self.num_dest_symlinks = self.num_dest_symlinks + 1,
        }
    }
}

/// Whether an existing destination entry must be deleted and recreated, rather than updated,
/// to match the source entry: entries of different kinds, symlinks with different targets,
/// and symlinks of different kinds where the destination platform distinguishes them.
pub open spec fn spec_needs_delete(src: EntryDetails, dest: EntryDetails, dest_platform_differentiates_symlinks: bool) -> bool {
    match src {
        EntryDetails::File { .. } => !(dest is File),
        EntryDetails::Folder => !(dest is Folder),
        EntryDetails::Symlink { kind: src_kind, target: src_target } => match dest {
            EntryDetails::Symlink { kind: dest_kind, target: dest_target } =>
                target_view(src_target) != target_view(dest_target)
                    || (src_kind != dest_kind && dest_platform_differentiates_symlinks),
            _ => true,
        },
    }
}

/// Whether a source entry must be copied over a compatible destination entry: only files
/// are ever out of date, when their modified times differ.
pub open spec fn spec_needs_copy(src: EntryDetails, dest: EntryDetails) -> Option<CopyReason> {
    match src {
        EntryDetails::File { modified_time: src_time, .. } => match dest {
            EntryDetails::File { modified_time: dest_time, .. } =>
                if src_time == dest_time {
                    None
                } else if time_before(dest_time, src_time) {
                    Some(CopyReason::DestOlder)
                } else {
                    Some(CopyReason::DestNewer)
                },
            _ => None,
        },
        _ => None,
    }
}

/// Checks if an existing destination entry could be updated to match the source entry,
/// or if it needs to be deleted and recreated instead.
pub fn needs_delete(src: &EntryDetails, dest: &EntryDetails, dest_platform_differentiates_symlinks: bool) -> (r: bool)
    ensures
        r == spec_needs_delete(*src, *dest, dest_platform_differentiates_symlinks),
        (*src matches EntryDetails::Symlink { kind: sk, .. } && *dest matches EntryDetails::Symlink { kind: dk, .. }
            && sk != dk && dest_platform_differentiates_symlinks) ==> r,
        (*src matches EntryDetails::Symlink { kind: sk, target: st } && *dest matches EntryDetails::Symlink { kind: dk, target: dt }
            && target_view(st) == target_view(dt) && (sk == dk || !dest_platform_differentiates_symlinks)) ==> !r,
{
    match src {
        EntryDetails::File { .. } => match dest {
            EntryDetails::File { .. } => false,
            _ => true,
        },
        EntryDetails::Folder => match dest {
            EntryDetails::Folder => false,
            _ => true,
        },
        EntryDetails::Symlink { kind: src_kind, target: src_target } => match dest {
            EntryDetails::Symlink { kind: dest_kind, target: dest_target } => {
                if !src_target.same_as(dest_target) {
                    true
                } else if *src_kind != *dest_kind && dest_platform_differentiates_symlinks {
                    true
                } else {
                    false
                }
            }
            _ => true,
        },
    }
}

/// Checks if a source entry needs to be copied over the top of a compatible destination entry.
pub fn needs_copy(src: &EntryDetails, dest: &EntryDetails) -> (r: Option<CopyReason>)
    requires
        src is File ==> dest is File,
    ensures
        r == spec_needs_copy(*src, *dest),
{
    match src {
        EntryDetails::File { modified_time: src_time, .. } => {
            let dest_time = match dest {
                EntryDetails::File { modified_time, .. } => modified_time,
                _ => { return None; }
            };
            if *src_time == *dest_time {
                None
            } else if dest_time.is_before(src_time) {
                Some(CopyReason::DestOlder)
            } else {
                Some(CopyReason::DestNewer)
            }
        }
        EntryDetails::Folder | EntryDetails::Symlink { .. } => None,
    }
}

/// Whether the destination entry at a path is deleted, given all source and destination entries.
pub open spec fn should_delete(src: Map<Seq<char>, EntryDetails>, dest: Map<Seq<char>, EntryDetails>, diff: bool, p: Seq<char>) -> bool {
    dest.contains_key(p) && (!src.contains_key(p) || spec_needs_delete(src[p], dest[p], diff))
}

/// Whether the source entry at a path is copied, given all source and destination entries.
pub open spec fn should_copy(src: Map<Seq<char>, EntryDetails>, dest: Map<Seq<char>, EntryDetails>, diff: bool, p: Seq<char>) -> bool {
    src.contains_key(p) && (!dest.contains_key(p) || spec_needs_delete(src[p], dest[p], diff)
        || spec_needs_copy(src[p], dest[p]) is Some)
}

pub open spec fn delete_reason(src: Map<Seq<char>, EntryDetails>, p: Seq<char>) -> DeleteReason {
    if src.contains_key(p) { DeleteReason::Incompatible } else { DeleteReason::NotOnSource }
}

pub open spec fn copy_reason(src: Map<Seq<char>, EntryDetails>, dest: Map<Seq<char>, EntryDetails>, diff: bool, p: Seq<char>) -> CopyReason {
    if !dest.contains_key(p) || spec_needs_delete(src[p], dest[p], diff) {
        CopyReason::NotOnDest
    } else {
        spec_needs_copy(src[p], dest[p])->0
    }
}

/// The deletions implied by the source and destination entries: every destination entry that
/// is not on the source, or that is incompatible with the source entry.
pub open spec fn expected_deletes(src: Map<Seq<char>, EntryDetails>, dest: Map<Seq<char>, EntryDetails>, diff: bool)
    -> Map<Seq<char>, (EntryDetails, DeleteReason)> {
    Map::new(|p: Seq<char>| should_delete(src, dest, diff, p), |p: Seq<char>| (dest[p], delete_reason(src, p)))
}

/// The copies implied by the source and destination entries: every source entry that is not
/// on the destination, is incompatible with it, or is a file with a different modified time.
pub open spec fn expected_copies(src: Map<Seq<char>, EntryDetails>, dest: Map<Seq<char>, EntryDetails>, diff: bool)
    -> Map<Seq<char>, (EntryDetails, CopyReason)> {
    Map::new(|p: Seq<char>| should_copy(src, dest, diff, p), |p: Seq<char>| (src[p], copy_reason(src, dest, diff, p)))
}

/// The planned actions are exactly those implied by the entries seen so far.
pub open spec fn query_inv(
    src: Map<Seq<char>, EntryDetails>,
    dest: Map<Seq<char>, EntryDetails>,
    to_delete: Map<Seq<char>, (EntryDetails, DeleteReason)>,
    to_copy: Map<Seq<char>, (EntryDetails, CopyReason)>,
    diff: bool,
) -> bool {
    &&& to_delete == expected_deletes(src, dest, diff)
    &&& to_copy == expected_copies(src, dest, diff)
}

/// The planned actions list their paths in the order in which they were found: the copies in
/// the order of the source entries, the deletions in the order of the destination entries.
pub open spec fn order_inv<D, C>(
    src_order: Seq<Seq<char>>,
    dest_order: Seq<Seq<char>>,
    to_delete: OrderedMap<D>,
    to_copy: OrderedMap<C>,
) -> bool {
    &&& to_delete.order() == keys_in(dest_order, to_delete.map().dom())
    &&& to_copy.order() == keys_in(src_order, to_copy.map().dom())
}

/// Records a source entry and updates the planned actions: the entry is copied unless the
/// destination already holds an up-to-date compatible entry at the same path, and a destination
/// entry at that path is deleted only if it is incompatible.
pub fn process_src_entry(
    stats: &mut Stats,
    p: RootRelativePath,
    src_entry: EntryDetails,
    src_entries: &mut OrderedMap<EntryDetails>,
    dest_entries: &OrderedMap<EntryDetails>,
    dest_platform_differentiates_symlinks: bool,
    to_delete: &mut OrderedMap<(EntryDetails, DeleteReason)>,
    to_copy: &mut OrderedMap<(EntryDetails, CopyReason)>,
)
    requires
        old(src_entries).wf(),
        dest_entries.wf(),
        old(to_delete).wf(),
        old(to_copy).wf(),
        !old(src_entries).map().contains_key(p@),
        old(stats).can_count_src(src_entry),
        query_inv(old(src_entries).map(), dest_entries.map(), old(to_delete).map(), old(to_copy).map(),
            dest_platform_differentiates_symlinks),
        order_inv(old(src_entries).order(), dest_entries.order(), *old(to_delete), *old(to_copy)),
    ensures
        final(src_entries).wf(),
        final(to_delete).wf(),
        final(to_copy).wf(),
        final(src_entries).map() == old(src_entries).map().insert(p@, src_entry),
        final(src_entries).order() == old(src_entries).order().push(p@),
        *final(stats) == old(stats).counted_src(src_entry),
        query_inv(final(src_entries).map(), dest_entries.map(), final(to_delete).map(), final(to_copy).map(),
            dest_platform_differentiates_symlinks),
        order_inv(final(src_entries).order(), dest_entries.order(), *final(to_delete), *final(to_copy)),
{
    let ghost src0 = src_entries.map();
    let ghost dest = dest_entries.map();
    let ghost diff = dest_platform_differentiates_symlinks;
    let ghost src1 = src0.insert(p@, src_entry);
    stats.count_src(&src_entry);
    match dest_entries.lookup(&p) {
        None => {
            to_copy.add(p.duplicate(), (src_entry.duplicate(), CopyReason::NotOnDest));
        }
        Some(dest_entry) => {
            if !needs_delete(&src_entry, dest_entry, dest_platform_differentiates_symlinks) {
                // The destination entry was planned for deletion as it was not on the source.
                to_delete.remove(&p);
                match needs_copy(&src_entry, dest_entry) {
                    Some(r) => to_copy.add(p.duplicate(), (src_entry.duplicate(), r)),
                    None => {}
                }
            } else {
                // Still deleted, but now for a different reason.
                assert(to_delete.map().contains_key(p@));
                to_delete.update(&p, (dest_entry.duplicate(), DeleteReason::Incompatible));
                to_copy.add(p.duplicate(), (src_entry.duplicate(), CopyReason::NotOnDest));
            }
        }
    }
    src_entries.add(p, src_entry);
    assert(to_delete.map() =~= expected_deletes(src1, dest, diff));
    assert(to_copy.map() =~= expected_copies(src1, dest, diff));
    proof {
        let so = old(src_entries).order();
        let d0 = old(to_delete).map().dom();
        let c0 = old(to_copy).map().dom();
        let c1 = to_copy.map().dom();
        assert(!so.contains(p@));
        assert(!c0.contains(p@));
        lemma_keys_in_push(so, c1, p@);
        assert forall|i: int| 0 <= i < so.len() implies (c1.contains(#[trigger] so[i]) <==> c0.contains(so[i])) by {
            assert(so.contains(so[i]));
        }
        lemma_keys_in_agree(so, c1, c0);
        if d0.contains(p@) && !to_delete.map().contains_key(p@) {
            assert(to_delete.map().dom() =~= d0.remove(p@));
            lemma_keys_in_remove(dest_entries.order(), d0, p@);
        } else {
            assert(to_delete.map().dom() =~= d0);
        }
        if c1.contains(p@) {
            assert(to_copy.order() == keys_in(so, c0).push(p@));
        } else {
            assert(c1 =~= c0);
        }
    }
}

/// Records a destination entry and updates the planned actions: the entry is deleted if it is
/// not on the source or is incompatible with the source entry, and a source entry already seen
/// at that path is copied only if needed.
pub fn process_dest_entry(
    stats: &mut Stats,
    p: RootRelativePath,
    dest_entry: EntryDetails,
    src_entries: &OrderedMap<EntryDetails>,
    dest_entries: &mut OrderedMap<EntryDetails>,
    dest_platform_differentiates_symlinks: bool,
    to_delete: &mut OrderedMap<(EntryDetails, DeleteReason)>,
    to_copy: &mut OrderedMap<(EntryDetails, CopyReason)>,
)
    requires
        src_entries.wf(),
        old(dest_entries).wf(),
        old(to_delete).wf(),
        old(to_copy).wf(),
        !old(dest_entries).map().contains_key(p@),
        old(stats).can_count_dest(dest_entry),
        query_inv(src_entries.map(), old(dest_entries).map(), old(to_delete).map(), old(to_copy).map(),
            dest_platform_differentiates_symlinks),
        order_inv(src_entries.order(), old(dest_entries).order(), *old(to_delete), *old(to_copy)),
    ensures
        final(dest_entries).wf(),
        final(to_delete).wf(),
        final(to_copy).wf(),
        final(dest_entries).map() == old(dest_entries).map().insert(p@, dest_entry),
        final(dest_entries).order() == old(dest_entries).order().push(p@),
        *final(stats) == old(stats).counted_dest(dest_entry),
        query_inv(src_entries.map(), final(dest_entries).map(), final(to_delete).map(), final(to_copy).map(),
            dest_platform_differentiates_symlinks),
        order_inv(src_entries.order(), final(dest_entries).order(), *final(to_delete), *final(to_copy)),
{
    let ghost src = src_entries.map();
    let ghost dest0 = dest_entries.map();
    let ghost diff = dest_platform_differentiates_symlinks;
    let ghost dest1 = dest0.insert(p@, dest_entry);
    stats.count_dest(&dest_entry);
    dest_entries.add(p.duplicate(), dest_entry.duplicate());
    match src_entries.lookup(&p) {
        None => {
            to_delete.add(p, (dest_entry, DeleteReason::NotOnSource));
        }
        Some(src_entry) => {
            if needs_delete(src_entry, &dest_entry, dest_platform_differentiates_symlinks) {
                to_delete.add(p, (dest_entry, DeleteReason::Incompatible));
            } else {
                assert(to_copy.map().contains_key(p@));
                match needs_copy(src_entry, &dest_entry) {
                    // The source entry was planned for copying as it was not on the destination.
                    Some(r) => to_copy.update(&p, (src_entry.duplicate(), r)),
                    None => to_copy.remove(&p),
                }
            }
        }
    }
    assert(to_delete.map() =~= expected_deletes(src, dest1, diff));
    assert(to_copy.map() =~= expected_copies(src, dest1, diff));
    proof {
        let dord = old(dest_entries).order();
        let d0 = old(to_delete).map().dom();
        let c0 = old(to_copy).map().dom();
        let d1 = to_delete.map().dom();
        assert(!dord.contains(p@));
        assert(!d0.contains(p@));
        lemma_keys_in_push(dord, d1, p@);
        assert forall|i: int| 0 <= i < dord.len() implies (d1.contains(#[trigger] dord[i]) <==> d0.contains(dord[i])) by {
            assert(dord.contains(dord[i]));
        }
        lemma_keys_in_agree(dord, d1, d0);
        if c0.contains(p@) && !to_copy.map().contains_key(p@) {
            assert(to_copy.map().dom() =~= c0.remove(p@));
            lemma_keys_in_remove(src_entries.order(), c0, p@);
        } else {
            assert(to_copy.map().dom() =~= c0);
        }
        if d1.contains(p@) {
            assert(to_delete.order() == keys_in(dord, d0).push(p@));
        } else {
            assert(d1 =~= d0);
        }
    }
}

/// Whether a destination entry matches a source entry for the purposes of a sync: the same
/// kind, a file with the same modified time, a symlink with the same target (and the same
/// kind where the platform distinguishes symlink kinds).
pub open spec fn entries_match(src: EntryDetails, dest: EntryDetails, diff: bool) -> bool {
    !spec_needs_delete(src, dest, diff) && spec_needs_copy(src, dest) is None
}

/// The destination entries after deleting and then copying as planned.
pub open spec fn apply_actions(
    dest: Map<Seq<char>, EntryDetails>,
    to_delete: Map<Seq<char>, (EntryDetails, DeleteReason)>,
    to_copy: Map<Seq<char>, (EntryDetails, CopyReason)>,
) -> Map<Seq<char>, EntryDetails> {
    Map::new(
        |p: Seq<char>| (dest.contains_key(p) && !to_delete.contains_key(p)) || to_copy.contains_key(p),
        |p: Seq<char>| if to_copy.contains_key(p) { to_copy[p].0 } else { dest[p] },
    )
}

/// On a destination platform that distinguishes symlink kinds, a destination symlink of another
/// kind than the source symlink at the same path does not match it, even with the same target:
/// the plan deletes the destination symlink (as incompatible) and copies the source one (as not
/// on the destination). Where the platform does not distinguish kinds, a symlink with the same
/// target is left alone whatever its kind.
pub proof fn lemma_symlink_of_another_kind_is_replaced(
    src: Map<Seq<char>, EntryDetails>,
    dest: Map<Seq<char>, EntryDetails>,
    p: Seq<char>,
    diff: bool,
)
    requires
        src.contains_key(p),
        dest.contains_key(p),
        src[p] is Symlink,
        dest[p] is Symlink,
        target_view(src[p]->target) == target_view(dest[p]->target),
    ensures
        diff && src[p]->Symlink_kind != dest[p]->Symlink_kind ==> {
            &&& expected_deletes(src, dest, diff).contains_key(p)
            &&& expected_deletes(src, dest, diff)[p] == (dest[p], DeleteReason::Incompatible)
            &&& expected_copies(src, dest, diff).contains_key(p)
            &&& expected_copies(src, dest, diff)[p] == (src[p], CopyReason::NotOnDest)
        },
        (!diff || src[p]->Symlink_kind == dest[p]->Symlink_kind) ==> {
            &&& !expected_deletes(src, dest, diff).contains_key(p)
            &&& !expected_copies(src, dest, diff).contains_key(p)
        },
{
}

/// Every entry matches itself.
pub proof fn lemma_entry_matches_itself(e: EntryDetails, diff: bool)
    ensures
        entries_match(e, e, diff),
{
}

/// After a sync, the destination holds exactly the paths of the source, and each of its entries
/// matches the source entry at the same path.
pub proof fn lemma_sync_makes_dest_match_src(
    src: Map<Seq<char>, EntryDetails>,
    dest: Map<Seq<char>, EntryDetails>,
    diff: bool,
)
    ensures
        apply_actions(dest, expected_deletes(src, dest, diff), expected_copies(src, dest, diff)).dom() == src.dom(),
        forall|p: Seq<char>| #[trigger] src.contains_key(p) ==>
            entries_match(src[p], apply_actions(dest, expected_deletes(src, dest, diff), expected_copies(src, dest, diff))[p], diff),
{
    let after = apply_actions(dest, expected_deletes(src, dest, diff), expected_copies(src, dest, diff));
    assert(after.dom() =~= src.dom());
    assert forall|p: Seq<char>| #[trigger] src.contains_key(p) implies entries_match(src[p], after[p], diff) by {
        lemma_entry_matches_itself(src[p], diff);
    }
}

/// Syncing again straight after a sync does nothing: no entry needs deleting or copying.
pub proof fn lemma_sync_is_idempotent(
    src: Map<Seq<char>, EntryDetails>,
    dest: Map<Seq<char>, EntryDetails>,
    diff: bool,
)
    ensures
        expected_deletes(src, apply_actions(dest, expected_deletes(src, dest, diff), expected_copies(src, dest, diff)), diff)
            == Map::<Seq<char>, (EntryDetails, DeleteReason)>::empty(),
        expected_copies(src, apply_actions(dest, expected_deletes(src, dest, diff), expected_copies(src, dest, diff)), diff)
            == Map::<Seq<char>, (EntryDetails, CopyReason)>::empty(),
{
    let after = apply_actions(dest, expected_deletes(src, dest, diff), expected_copies(src, dest, diff));
    lemma_sync_makes_dest_match_src(src, dest, diff);
    assert(expected_deletes(src, after, diff) =~= Map::<Seq<char>, (EntryDetails, DeleteReason)>::empty());
    assert(expected_copies(src, after, diff) =~= Map::<Seq<char>, (EntryDetails, CopyReason)>::empty());
}


/// The copies planned from what both sides reported, in the order in which the source reported
/// them, each with its details and reason.
pub open spec fn planned_copies(
    src: Map<Seq<char>, EntryDetails>, dest: Map<Seq<char>, EntryDetails>, src_order: Seq<Seq<char>>, diff: bool,
) -> Seq<(Seq<char>, (EntryDetails, CopyReason))> {
    keys_in(src_order, expected_copies(src, dest, diff).dom())
        .map_values(|p: Seq<char>| (p, expected_copies(src, dest, diff)[p]))
}

/// The deletions planned from what both sides reported, in reverse order of what the
/// destination reported, each with its details and reason.
pub open spec fn planned_deletes(
    src: Map<Seq<char>, EntryDetails>, dest: Map<Seq<char>, EntryDetails>, dest_order: Seq<Seq<char>>, diff: bool,
) -> Seq<(Seq<char>, (EntryDetails, DeleteReason))> {
    keys_in(dest_order, expected_deletes(src, dest, diff).dom()).reverse()
        .map_values(|p: Seq<char>| (p, expected_deletes(src, dest, diff)[p]))
}

/// What a query has seen: the source entries and the order of their paths, then the same for the
/// destination.
pub type QueryReports = (Map<Seq<char>, EntryDetails>, Seq<Seq<char>>, Map<Seq<char>, EntryDetails>, Seq<Seq<char>>);

/// What a query has seen after the given entries were reported, in turn, to what it had seen:
/// each report says whether it came from the source (otherwise the destination), the path and
/// the details.
pub open spec fn query_after(start: QueryReports, reports: Seq<(bool, Seq<char>, EntryDetails)>) -> QueryReports
    decreases reports.len(),
{
    if reports.len() == 0 {
        start
    } else {
        let q = query_after(start, reports.drop_last());
        let (from_src, p, e) = reports.last();
        if from_src {
            (q.0.insert(p, e), q.1.push(p), q.2, q.3)
        } else {
            (q.0, q.1, q.2.insert(p, e), q.3.push(p))
        }
    }
}

/// The reports that came from one side, in the order in which they came.
pub open spec fn side_reports(reports: Seq<(bool, Seq<char>, EntryDetails)>, from_src: bool)
    -> Seq<(Seq<char>, EntryDetails)>
    decreases reports.len(),
{
    if reports.len() == 0 {
        Seq::empty()
    } else {
        let rest = side_reports(reports.drop_last(), from_src);
        if reports.last().0 == from_src { rest.push((reports.last().1, reports.last().2)) } else { rest }
    }
}

/// The entries, and the order of their paths, after one side reported the given entries in turn.
pub open spec fn seen_after(m: Map<Seq<char>, EntryDetails>, order: Seq<Seq<char>>, reports: Seq<(Seq<char>, EntryDetails)>)
    -> (Map<Seq<char>, EntryDetails>, Seq<Seq<char>>)
    decreases reports.len(),
{
    if reports.len() == 0 {
        (m, order)
    } else {
        let q = seen_after(m, order, reports.drop_last());
        (q.0.insert(reports.last().0, reports.last().1), q.1.push(reports.last().0))
    }
}

/// What a query has seen of each side depends only on what that side reported, in its own
/// order, whatever the interleaving of the two sides' reports.
pub proof fn lemma_query_sides_are_independent(start: QueryReports, reports: Seq<(bool, Seq<char>, EntryDetails)>)
    ensures
        ({
            let q = query_after(start, reports);
            let s = seen_after(start.0, start.1, side_reports(reports, true));
            let d = seen_after(start.2, start.3, side_reports(reports, false));
            q == (s.0, s.1, d.0, d.1)
        }),
    decreases reports.len(),
{
    if reports.len() > 0 {
        lemma_query_sides_are_independent(start, reports.drop_last());
        let srest = side_reports(reports.drop_last(), true);
        let drest = side_reports(reports.drop_last(), false);
        if reports.last().0 {
            assert(side_reports(reports, true) == srest.push((reports.last().1, reports.last().2)));
            assert(side_reports(reports, true).drop_last() =~= srest);
        } else {
            assert(side_reports(reports, false).drop_last() =~= drest);
        }
    }
}

/// The actions a query plans are the same for every interleaving of the two sides' reports: two
/// runs in which each side reported the same entries in the same order plan the same copies and
/// deletions, in the same order.
pub proof fn lemma_plan_independent_of_interleaving(
    start: QueryReports,
    reports1: Seq<(bool, Seq<char>, EntryDetails)>,
    reports2: Seq<(bool, Seq<char>, EntryDetails)>,
    diff: bool,
)
    requires
        side_reports(reports1, true) == side_reports(reports2, true),
        side_reports(reports1, false) == side_reports(reports2, false),
    ensures
        query_after(start, reports1) == query_after(start, reports2),
        ({
            let q = query_after(start, reports1);
            let r = query_after(start, reports2);
            &&& planned_copies(q.0, q.2, q.1, diff) == planned_copies(r.0, r.2, r.1, diff)
            &&& planned_deletes(q.0, q.2, q.3, diff) == planned_deletes(r.0, r.2, r.3, diff)
        }),
{
    lemma_query_sides_are_independent(start, reports1);
    lemma_query_sides_are_independent(start, reports2);
}

/// The entries seen so far on both sides of a sync, the counts of what was seen, and the actions
/// they imply.
pub struct SyncQuery {
    stats: Stats,
    src_entries: OrderedMap<EntryDetails>,
    dest_entries: OrderedMap<EntryDetails>,
    to_delete: OrderedMap<(EntryDetails, DeleteReason)>,
    to_copy: OrderedMap<(EntryDetails, CopyReason)>,
    dest_platform_differentiates_symlinks: bool,
}

impl SyncQuery {
    /// The source entries seen so far, by path.
    pub closed spec fn src(&self) -> Map<Seq<char>, EntryDetails> {
        self.src_entries.map()
    }

    /// The destination entries seen so far, by path.
    pub closed spec fn dest(&self) -> Map<Seq<char>, EntryDetails> {
        self.dest_entries.map()
    }

    /// The counts of what has been seen.
    pub closed spec fn counts(&self) -> Stats {
        self.stats
    }

    /// The counts of what has been seen.
    pub fn stats(&self) -> (r: &Stats)
        ensures
            *r == self.counts(),
    {
        &self.stats
    }

    /// Whether the destination platform distinguishes file symlinks from folder symlinks.
    pub closed spec fn differentiates_symlinks(&self) -> bool {
        self.dest_platform_differentiates_symlinks
    }

    /// The planned actions are those implied by the entries seen so far.
    pub closed spec fn wf(&self) -> bool {
        &&& self.src_entries.wf()
        &&& self.dest_entries.wf()
        &&& self.to_delete.wf()
        &&& self.to_copy.wf()
        &&& query_inv(self.src(), self.dest(), self.to_delete.map(), self.to_copy.map(),
            self.dest_platform_differentiates_symlinks)
        &&& order_inv(self.src_order(), self.dest_order(), self.to_delete, self.to_copy)
    }

    /// What the query has seen of both sides.
    pub open spec fn reported(&self) -> QueryReports {
        (self.src(), self.src_order(), self.dest(), self.dest_order())
    }

    /// The paths of the source entries, in the order in which they were found.
    pub closed spec fn src_order(&self) -> Seq<Seq<char>> {
        self.src_entries.order()
    }

    /// The paths of the destination entries, in the order in which they were found.
    pub closed spec fn dest_order(&self) -> Seq<Seq<char>> {
        self.dest_entries.order()
    }

    /// Starts a query from the details of the two roots (the destination root may not exist).
    pub fn new(src_root: EntryDetails, dest_root: Option<EntryDetails>, dest_platform_differentiates_symlinks: bool)
        -> (r: SyncQuery)
        ensures
            r.wf(),
            r.src() == Map::<Seq<char>, EntryDetails>::empty().insert(Seq::empty(), src_root),
            r.dest() == (match dest_root {
                Some(d) => Map::<Seq<char>, EntryDetails>::empty().insert(Seq::empty(), d),
                None => Map::<Seq<char>, EntryDetails>::empty(),
            }),
            r.differentiates_symlinks() == dest_platform_differentiates_symlinks,
            r.src_order() == seq![Seq::<char>::empty()],
            r.dest_order() == (match dest_root {
                Some(d) => seq![Seq::<char>::empty()],
                None => Seq::<Seq<char>>::empty(),
            }),
    {
        let mut stats = Stats::new();
        let mut src_entries = OrderedMap::new();
        let mut dest_entries = OrderedMap::new();
        let mut to_delete = OrderedMap::new();
        let mut to_copy = OrderedMap::new();
        assert(to_delete.map() =~= expected_deletes(src_entries.map(), dest_entries.map(), dest_platform_differentiates_symlinks));
        assert(to_copy.map() =~= expected_copies(src_entries.map(), dest_entries.map(), dest_platform_differentiates_symlinks));
        process_src_entry(&mut stats, RootRelativePath::root(), src_root, &mut src_entries, &dest_entries,
            dest_platform_differentiates_symlinks, &mut to_delete, &mut to_copy);
        match dest_root {
            Some(d) => process_dest_entry(&mut stats, RootRelativePath::root(), d, &src_entries, &mut dest_entries,
                dest_platform_differentiates_symlinks, &mut to_delete, &mut to_copy),
            None => {},
        }
        SyncQuery { stats, src_entries, dest_entries, to_delete, to_copy, dest_platform_differentiates_symlinks }
    }

    /// Records an entry found on the source side. Fails, changing nothing, for a path seen before
    /// or a count that would overflow.
    pub fn add_src_entry(&mut self, p: RootRelativePath, e: EntryDetails) -> (r: Result<(), String>)
        requires
            old(self).wf(),
        ensures
            final(self).wf(),
            final(self).differentiates_symlinks() == old(self).differentiates_symlinks(),
            final(self).dest() == old(self).dest(),
            r is Ok <==> !old(self).src().contains_key(p@) && old(self).counts().can_count_src(e),
            final(self).dest_order() == old(self).dest_order(),
            r is Ok ==> final(self).src() == old(self).src().insert(p@, e)
                && final(self).counts() == old(self).counts().counted_src(e)
                && final(self).src_order() == old(self).src_order().push(p@),
            r is Err ==> final(self).src() == old(self).src() && final(self).counts() == old(self).counts()
                && final(self).src_order() == old(self).src_order(),
            r is Ok ==> final(self).reported() == query_after(old(self).reported(), seq![(true, p@, e)]),
    {
        proof {
            reveal_with_fuel(query_after, 2);
            assert(seq![(true, p@, e)].drop_last() =~= Seq::<(bool, Seq<char>, EntryDetails)>::empty());
        }
        if self.src_entries.lookup(&p).is_some() {
            return Err(String::from_str("Source entry reported twice"));
        }
        if !self.stats.can_count_src_entry(&e) {
            return Err(String::from_str("Too many source entries"));
        }
        process_src_entry(&mut self.stats, p, e, &mut self.src_entries, &self.dest_entries,
            self.dest_platform_differentiates_symlinks, &mut self.to_delete, &mut self.to_copy);
        Ok(())
    }

    /// Records an entry found on the destination side. Fails, changing nothing, for a path seen
    /// before or a count that would overflow.
    pub fn add_dest_entry(&mut self, p: RootRelativePath, e: EntryDetails) -> (r: Result<(), String>)
        requires
            old(self).wf(),
        ensures
            final(self).wf(),
            final(self).differentiates_symlinks() == old(self).differentiates_symlinks(),
            final(self).src() == old(self).src(),
            r is Ok <==> !old(self).dest().contains_key(p@) && old(self).counts().can_count_dest(e),
            final(self).src_order() == old(self).src_order(),
            r is Ok ==> final(self).dest() == old(self).dest().insert(p@, e)
                && final(self).counts() == old(self).counts().counted_dest(e)
                && final(self).dest_order() == old(self).dest_order().push(p@),
            r is Err ==> final(self).dest() == old(self).dest() && final(self).counts() == old(self).counts()
                && final(self).dest_order() == old(self).dest_order(),
            r is Ok ==> final(self).reported() == query_after(old(self).reported(), seq![(false, p@, e)]),
    {
        proof {
            reveal_with_fuel(query_after, 2);
            assert(seq![(false, p@, e)].drop_last() =~= Seq::<(bool, Seq<char>, EntryDetails)>::empty());
        }
        if self.dest_entries.lookup(&p).is_some() {
            return Err(String::from_str("Destination entry reported twice"));
        }
        if !self.stats.can_count_dest_entry(&e) {
            return Err(String::from_str("Too many destination entries"));
        }
        process_dest_entry(&mut self.stats, p, e, &self.src_entries, &mut self.dest_entries,
            self.dest_platform_differentiates_symlinks, &mut self.to_delete, &mut self.to_copy);
        Ok(())
    }

    /// Ends the query: the deletions and copies that make the destination match the source, the
    /// copies in the order in which the source entries were found, the deletions in reverse order
    /// of discovery of the destination entries so that a folder's contents go before the folder.
    pub fn finish(self) -> (r: (Actions, Stats))
        requires
            self.wf(),
        ensures
            r.0.to_delete.wf(),
            r.0.to_copy.wf(),
            r.0.to_delete.map() == expected_deletes(self.src(), self.dest(), self.differentiates_symlinks()),
            r.0.to_copy.map() == expected_copies(self.src(), self.dest(), self.differentiates_symlinks()),
            r.0.to_copy.order() == keys_in(self.src_order(), r.0.to_copy.map().dom()),
            r.0.to_delete.order() == keys_in(self.dest_order(), r.0.to_delete.map().dom()).reverse(),
            r.0.to_copy.entries() == planned_copies(self.src(), self.dest(), self.src_order(), self.differentiates_symlinks()),
            r.0.to_delete.entries() == planned_deletes(self.src(), self.dest(), self.dest_order(), self.differentiates_symlinks()),
            r.1 == self.counts(),
    {
        let SyncQuery { stats, src_entries, dest_entries, mut to_delete, to_copy, dest_platform_differentiates_symlinks } = self;
        to_delete.reverse_order();
        (Actions { to_delete, to_copy }, stats)
    }
}

impl Stats {
    /// Whether one more source entry can be counted.
    pub fn can_count_src_entry(&self, e: &EntryDetails) -> (r: bool)
        ensures
            r == self.can_count_src(*e),
    {
        match e {
            EntryDetails::File { size, .. } => self.num_src_files < u32::MAX && self.src_total_bytes <= u64::MAX - *size,
            EntryDetails::Folder => self.num_src_folders < u32::MAX,
            EntryDetails::Symlink { .. } => self.num_src_symlinks < u32::MAX,
        }
    }

    /// Whether one more destination entry can be counted.
    pub fn can_count_dest_entry(&self, e: &EntryDetails) -> (r: bool)
        ensures
            r == self.can_count_dest(*e),
    {
        match e {
            EntryDetails::File { size, .. } => self.num_dest_files < u32::MAX && self.dest_total_bytes <= u64::MAX - *size,
            EntryDetails::Folder => self.num_dest_folders < u32::MAX,
            EntryDetails::Symlink { .. } => self.num_dest_symlinks < u32::MAX,
        }
    }
}


/// The command that deletes a destination entry of the given kind.
pub fn delete_command(path: &RootRelativePath, details: &EntryDetails) -> (r: Command)
    ensures
        match *details {
            EntryDetails::File { .. } => r matches Command::DeleteFile { path: p } && p == *path,
            EntryDetails::Folder => r matches Command::DeleteFolder { path: p } && p == *path,
            EntryDetails::Symlink { kind, .. } => r matches Command::DeleteSymlink { path: p, kind: k } && p == *path && k == kind,
        },
{
    match details {
        EntryDetails::File { .. } => Command::DeleteFile { path: path.duplicate() },
        EntryDetails::Folder => Command::DeleteFolder { path: path.duplicate() },
        EntryDetails::Symlink { kind, .. } => Command::DeleteSymlink { path: path.duplicate(), kind: *kind },
    }
}

/// How a source entry is copied to the destination.
pub enum CopyStep {
    /// Fetch the file's contents from the source and send them to the destination in chunks,
    /// setting the modified time with the last one.
    FetchFile { path: RootRelativePath, size: u64, modified_time: ModifiedTime },
    /// Send this command to the destination.
    Send(Command),
}

/// How a source entry is copied: a folder is created, a symlink is created with the same kind and
/// target, and a file is fetched and sent.
pub fn copy_step(path: &RootRelativePath, details: &EntryDetails) -> (r: CopyStep)
    ensures
        match *details {
            EntryDetails::File { modified_time, size } => r matches CopyStep::FetchFile { path: p, size: s, modified_time: m }
                && p == *path && s == size && m == modified_time,
            EntryDetails::Folder => r matches CopyStep::Send(Command::CreateFolder { path: p }) && p == *path,
            EntryDetails::Symlink { kind, target } => r matches CopyStep::Send(Command::CreateSymlink { path: p, kind: k, target: t })
                && p == *path && k == kind && t == target,
        },
{
    match details {
        EntryDetails::File { modified_time, size } => CopyStep::FetchFile { path: path.duplicate(), size: *size, modified_time: *modified_time },
        EntryDetails::Folder => CopyStep::Send(Command::CreateFolder { path: path.duplicate() }),
        EntryDetails::Symlink { kind, target } => CopyStep::Send(Command::CreateSymlink { path: path.duplicate(), kind: *kind, target: target.duplicate() }),
    }
}

/// The command that writes one chunk of a file on the destination; the modified time is set
/// with the last chunk only.
pub fn file_chunk_command(path: &RootRelativePath, data: Vec<u8>, more_to_follow: bool, modified_time: ModifiedTime) -> (r: Command)
    ensures
        r matches Command::CreateOrUpdateFile { path: p, data: d, set_modified_time: t, more_to_follow: m }
            && p == *path && d == data && m == more_to_follow
            && t == (if more_to_follow { None } else { Some(modified_time) }),
{
    Command::CreateOrUpdateFile {
        path: path.duplicate(),
        data,
        set_modified_time: if more_to_follow { None } else { Some(modified_time) },
        more_to_follow,
    }
}

/// The command that creates the destination root's missing ancestors before anything is copied:
/// sent only where the destination root does not exist yet, and never in a dry run.
pub fn root_ancestors_command(dest_root_exists: bool, dry_run: bool) -> (r: Option<Command>)
    ensures
        r is Some <==> (!dest_root_exists && !dry_run),
        r matches Some(c) ==> c is CreateRootAncestors,
{
    if !dest_root_exists && !dry_run { Some(Command::CreateRootAncestors) } else { None }
}

/// What carrying out one planned action comes to.
pub enum RunStep {
    /// Send this command to the destination.
    SendDest(Command),
    /// Fetch this file from the source and send it on to the destination in chunks, setting the
    /// modified time with the last one.
    CopyFile { path: RootRelativePath, modified_time: ModifiedTime },
    /// In a dry run: only report, with this text, what would have been done.
    Report(String),
}

/// Whether a command deletes the destination entry at `p`, of the kind that `d` describes.
pub open spec fn deletes(c: Command, p: Seq<char>, d: EntryDetails) -> bool {
    match d {
        EntryDetails::File { .. } => c matches Command::DeleteFile { path } && path@ == p,
        EntryDetails::Folder => c matches Command::DeleteFolder { path } && path@ == p,
        EntryDetails::Symlink { kind, .. } => c matches Command::DeleteSymlink { path, kind: k } && path@ == p && k == kind,
    }
}

/// The step for deleting the destination entry at `p`: the deleting command, or in a dry run
/// only its report.
pub open spec fn is_delete_step(s: RunStep, p: Seq<char>, d: EntryDetails, dry_run: bool, dest_root: Seq<char>, dest_sep: char) -> bool {
    if dry_run {
        s matches RunStep::Report(t)
            && t@ == "Would delete "@ + spec_pretty_path(Side::Dest, dest_root, p, kind_name_of(d), dest_sep)
    } else {
        s matches RunStep::SendDest(c) && deletes(c, p, d)
    }
}

/// The step for copying the source entry at `p`: a file is fetched and sent, a folder or symlink
/// created; in a dry run each is only reported.
pub open spec fn is_copy_step(s: RunStep, p: Seq<char>, d: EntryDetails, dry_run: bool, src_root: Seq<char>,
    dest_root: Seq<char>, src_sep: char, dest_sep: char) -> bool
{
    match d {
        EntryDetails::File { modified_time, .. } => if dry_run {
            s matches RunStep::Report(t) && t@ == "Would copy "@ + spec_pretty_path(Side::Source, src_root, p, "file"@, src_sep)
                + " => "@ + spec_pretty_path(Side::Dest, dest_root, p, "file"@, dest_sep)
        } else {
            s matches RunStep::CopyFile { path, modified_time: m } && path@ == p && m == modified_time
        },
        EntryDetails::Folder => if dry_run {
            s matches RunStep::Report(t) && t@ == "Would create "@ + spec_pretty_path(Side::Dest, dest_root, p, "folder"@, dest_sep)
        } else {
            s matches RunStep::SendDest(Command::CreateFolder { path }) && path@ == p
        },
        EntryDetails::Symlink { kind, target } => if dry_run {
            s matches RunStep::Report(t) && t@ == "Would create "@ + spec_pretty_path(Side::Dest, dest_root, p, "symlink"@, dest_sep)
        } else {
            s matches RunStep::SendDest(Command::CreateSymlink { path, kind: k, target: t }) && path@ == p && k == kind && t == target
        },
    }
}

/// The step for one deletion.
fn delete_run_step(path: &RootRelativePath, details: &EntryDetails, dry_run: bool, dest_root: &str, dest_sep: char) -> (r: RunStep)
    ensures
        is_delete_step(r, path@, *details, dry_run, dest_root@, dest_sep),
{
    if dry_run {
        let pretty = pretty_path(Side::Dest, dest_root, path, details.kind_name(), dest_sep);
        let t = concat(&["Would delete ", pretty.as_str()]);
        proof {
            reveal_with_fuel(concat_all, 3);
            assert(seq!["Would delete "@, pretty@].drop_last().drop_last() =~= Seq::<Seq<char>>::empty());
            assert(Seq::<char>::empty() + "Would delete "@ =~= "Would delete "@);
        }
        RunStep::Report(t)
    } else {
        RunStep::SendDest(delete_command(path, details))
    }
}

/// The step for one copy.
fn copy_run_step(path: &RootRelativePath, details: &EntryDetails, dry_run: bool, src_root: &str, dest_root: &str,
    src_sep: char, dest_sep: char) -> (r: RunStep)
    ensures
        is_copy_step(r, path@, *details, dry_run, src_root@, dest_root@, src_sep, dest_sep),
{
    proof { reveal_with_fuel(concat_all, 5); }
    match copy_step(path, details) {
        CopyStep::FetchFile { path: p, modified_time, .. } => if dry_run {
            let from = pretty_path(Side::Source, src_root, &p, "file", src_sep);
            let to = pretty_path(Side::Dest, dest_root, &p, "file", dest_sep);
            let t = concat(&["Would copy ", from.as_str(), " => ", to.as_str()]);
            assert(Seq::<char>::empty() + "Would copy "@ =~= "Would copy "@);
            RunStep::Report(t)
        } else {
            RunStep::CopyFile { path: p, modified_time }
        },
        CopyStep::Send(c) => if dry_run {
            let kind = match details { EntryDetails::Folder => "folder", _ => "symlink" };
            let to = pretty_path(Side::Dest, dest_root, path, kind, dest_sep);
            let t = concat(&["Would create ", to.as_str()]);
            assert(Seq::<char>::empty() + "Would create "@ =~= "Would create "@);
            RunStep::Report(t)
        } else {
            RunStep::SendDest(c)
        },
    }
}

/// The steps that carry out the planned actions, in order: first each deletion (in the order of
/// `to_delete`), then each copy (in the order of `to_copy`). In a dry run every step is only a
/// report, so that nothing is sent to either side.
pub fn run_steps(actions: &Actions, dry_run: bool, src_root: &str, dest_root: &str, src_sep: char, dest_sep: char) -> (r: Vec<RunStep>)
    requires
        actions.to_delete.wf(),
        actions.to_copy.wf(),
    ensures
        r@.len() == actions.to_delete.entries().len() + actions.to_copy.entries().len(),
        forall|i: int| 0 <= i < actions.to_delete.entries().len() ==> is_delete_step(#[trigger] r@[i],
            actions.to_delete.entries()[i].0, actions.to_delete.entries()[i].1.0, dry_run, dest_root@, dest_sep),
        forall|i: int| 0 <= i < actions.to_copy.entries().len() ==> is_copy_step(
            #[trigger] r@[actions.to_delete.entries().len() + i],
            actions.to_copy.entries()[i].0, actions.to_copy.entries()[i].1.0, dry_run, src_root@, dest_root@, src_sep, dest_sep),
        dry_run ==> forall|i: int| 0 <= i < r@.len() ==> #[trigger] r@[i] is Report,
{
    let deletes = actions.to_delete.iter();
    let copies = actions.to_copy.iter();
    let ghost del_entries = actions.to_delete.entries();
    let ghost copy_entries = actions.to_copy.entries();
    assert(deletes@.len() == del_entries.len());
    assert(copies@.len() == copy_entries.len());
    let mut r: Vec<RunStep> = Vec::new();
    let mut i: usize = 0;
    while i < deletes.len()
        invariant
            0 <= i <= deletes@.len(),
            deletes@.len() == del_entries.len(),
            deletes@.map_values(|e: (&RootRelativePath, &(EntryDetails, DeleteReason))| (e.0@, *e.1)) == del_entries,
            r@.len() == i,
            forall|j: int| 0 <= j < i ==> is_delete_step(#[trigger] r@[j], del_entries[j].0, del_entries[j].1.0, dry_run, dest_root@, dest_sep),
            dry_run ==> forall|j: int| 0 <= j < r@.len() ==> #[trigger] r@[j] is Report,
        decreases deletes.len() - i,
    {
        let (path, value) = deletes[i];
        assert(del_entries[i as int] == (path@, *value));
        r.push(delete_run_step(path, &value.0, dry_run, dest_root, dest_sep));
        i = i + 1;
    }
    let n = i;
    let mut k: usize = 0;
    while k < copies.len()
        invariant
            0 <= k <= copies@.len(),
            n == del_entries.len(),
            copies@.len() == copy_entries.len(),
            copies@.map_values(|e: (&RootRelativePath, &(EntryDetails, CopyReason))| (e.0@, *e.1)) == copy_entries,
            r@.len() == n + k,
            forall|j: int| 0 <= j < n ==> is_delete_step(#[trigger] r@[j], del_entries[j].0, del_entries[j].1.0, dry_run, dest_root@, dest_sep),
            forall|j: int| 0 <= j < k ==> is_copy_step(#[trigger] r@[n + j], copy_entries[j].0, copy_entries[j].1.0, dry_run,
                src_root@, dest_root@, src_sep, dest_sep),
            dry_run ==> forall|j: int| 0 <= j < r@.len() ==> #[trigger] r@[j] is Report,
        decreases copies.len() - k,
    {
        let (path, value) = copies[k];
        assert(copy_entries[k as int] == (path@, *value));
        let ghost before = r@;
        r.push(copy_run_step(path, &value.0, dry_run, src_root, dest_root, src_sep, dest_sep));
        assert forall|j: int| 0 <= j < k + 1 implies is_copy_step(#[trigger] r@[n + j], copy_entries[j].0, copy_entries[j].1.0, dry_run,
                src_root@, dest_root@, src_sep, dest_sep) by {
            if j < k {
                assert(r@[n + j] == before[n + j]);
            }
        }
        k = k + 1;
    }
    r
}

/// Counts of what a sync deleted and copied.
#[derive(Clone, Copy, Debug, PartialEq, Eq, Structural)]
pub struct SyncTotals {
    pub num_files_deleted: u32,
    pub num_bytes_deleted: u64,
    pub num_folders_deleted: u32,
    pub num_symlinks_deleted: u32,
    pub num_files_copied: u32,
    pub num_bytes_copied: u64,
    pub num_folders_created: u32,
    pub num_symlinks_copied: u32,
}

/// The totals after one more deletion, if every count stays in range.
pub open spec fn deleted(t: SyncTotals, d: EntryDetails) -> Option<SyncTotals> {
    match d {
        EntryDetails::File { size, .. } => if t.num_files_deleted < u32::MAX && t.num_bytes_deleted + size <= u64::MAX {
            Some(SyncTotals { num_files_deleted: (t.num_files_deleted + 1) as u32, num_bytes_deleted: (t.num_bytes_deleted + size) as u64, ..t })
        } else { None },
        EntryDetails::Folder => if t.num_folders_deleted < u32::MAX {
            Some(SyncTotals { num_folders_deleted: (t.num_folders_deleted + 1) as u32, ..t })
        } else { None },
        EntryDetails::Symlink { .. } => if t.num_symlinks_deleted < u32::MAX {
            Some(SyncTotals { num_symlinks_deleted: (t.num_symlinks_deleted + 1) as u32, ..t })
        } else { None },
    }
}

/// The totals after one more copy, if every count stays in range.
pub open spec fn copied(t: SyncTotals, d: EntryDetails) -> Option<SyncTotals> {
    match d {
        EntryDetails::File { size, .. } => if t.num_files_copied < u32::MAX && t.num_bytes_copied + size <= u64::MAX {
            Some(SyncTotals { num_files_copied: (t.num_files_copied + 1) as u32, num_bytes_copied: (t.num_bytes_copied + size) as u64, ..t })
        } else { None },
        EntryDetails::Folder => if t.num_folders_created < u32::MAX {
            Some(SyncTotals { num_folders_created: (t.num_folders_created + 1) as u32, ..t })
        } else { None },
        EntryDetails::Symlink { .. } => if t.num_symlinks_copied < u32::MAX {
            Some(SyncTotals { num_symlinks_copied: (t.num_symlinks_copied + 1) as u32, ..t })
        } else { None },
    }
}

impl SyncTotals {
    /// All counts zero.
    pub fn new() -> (r: SyncTotals)
        ensures
            r == (SyncTotals { num_files_deleted: 0, num_bytes_deleted: 0, num_folders_deleted: 0, num_symlinks_deleted: 0,
                num_files_copied: 0, num_bytes_copied: 0, num_folders_created: 0, num_symlinks_copied: 0 }),
    {
        SyncTotals { num_files_deleted: 0, num_bytes_deleted: 0, num_folders_deleted: 0, num_symlinks_deleted: 0,
            num_files_copied: 0, num_bytes_copied: 0, num_folders_created: 0, num_symlinks_copied: 0 }
    }

    /// Counts a deletion; fails, changing nothing, if a count would overflow.
    pub fn record_delete(&mut self, d: &EntryDetails) -> (r: bool)
        ensures
            r == deleted(*old(self), *d) is Some,
            r ==> *final(self) == deleted(*old(self), *d)->0,
            !r ==> *final(self) == *old(self),
    {
        match d {
            EntryDetails::File { size, .. } => if self.num_files_deleted < u32::MAX && self.num_bytes_deleted <= u64::MAX - *size {
                self.num_files_deleted = self.num_files_deleted + 1;
                self.num_bytes_deleted = self.num_bytes_deleted + *size;
                true
            } else { false },
            EntryDetails::Folder => if self.num_folders_deleted < u32::MAX {
                self.num_folders_deleted = self.num_folders_deleted + 1;
                true
            } else { false },
            EntryDetails::Symlink { .. } => if self.num_symlinks_deleted < u32::MAX {
                self.num_symlinks_deleted = self.num_symlinks_deleted + 1;
                true
            } else { false },
        }
    }

    /// Counts a copy; fails, changing nothing, if a count would overflow.
    pub fn record_copy(&mut self, d: &EntryDetails) -> (r: bool)
        ensures
            r == copied(*old(self), *d) is Some,
            r ==> *final(self) == copied(*old(self), *d)->0,
            !r ==> *final(self) == *old(self),
    {
        match d {
            EntryDetails::File { size, .. } => if self.num_files_copied < u32::MAX && self.num_bytes_copied <= u64::MAX - *size {
                self.num_files_copied = self.num_files_copied + 1;
                self.num_bytes_copied = self.num_bytes_copied + *size;
                true
            } else { false },
            EntryDetails::Folder => if self.num_folders_created < u32::MAX {
                self.num_folders_created = self.num_folders_created + 1;
                true
            } else { false },
            EntryDetails::Symlink { .. } => if self.num_symlinks_copied < u32::MAX {
                self.num_symlinks_copied = self.num_symlinks_copied + 1;
                true
            } else { false },
        }
    }

    /// Whether nothing was deleted or copied.
    pub fn nothing_done(&self) -> (r: bool)
        ensures
            r == (self.num_files_deleted == 0 && self.num_folders_deleted == 0 && self.num_symlinks_deleted == 0
                && self.num_files_copied == 0 && self.num_folders_created == 0 && self.num_symlinks_copied == 0),
    {
        self.num_files_deleted == 0 && self.num_folders_deleted == 0 && self.num_symlinks_deleted == 0
            && self.num_files_copied == 0 && self.num_folders_created == 0 && self.num_symlinks_copied == 0
    }
}

/// A count as the summaries write it.
pub open spec fn count_text(n: u32) -> Seq<char> {
    grouped_digits(decimal(n as nat))
}

/// The summary of the deletions of a sync (or of those that a dry run would make).
pub open spec fn spec_delete_summary(t: SyncTotals, dry_run: bool) -> Seq<char> {
    (if dry_run { "Would delete"@ } else { "Deleted"@ }) + " "@ + count_text(t.num_files_deleted)
        + " file(s) totalling "@ + human_bytes_text(t.num_bytes_deleted) + ", "@ + count_text(t.num_folders_deleted)
        + " folder(s) and "@ + count_text(t.num_symlinks_deleted) + " symlink(s)"@
}

/// The summary of the copies of a sync (or of those that a dry run would make).
pub open spec fn spec_copy_summary(t: SyncTotals, dry_run: bool) -> Seq<char> {
    (if dry_run { "Would copy"@ } else { "Copied"@ }) + " "@ + count_text(t.num_files_copied)
        + " file(s) totalling "@ + human_bytes_text(t.num_bytes_copied) + ", "@
        + (if dry_run { "would create"@ } else { "created"@ }) + " "@ + count_text(t.num_folders_created)
        + " folder(s) and "@ + (if dry_run { "would copy"@ } else { "copied"@ }) + " "@
        + count_text(t.num_symlinks_copied) + " symlink(s)"@
}

/// The summary of what a side of a sync holds, labelled with the side.
pub open spec fn spec_side_summary(label: Seq<char>, files: u32, bytes: u64, folders: u32, symlinks: u32) -> Seq<char> {
    label + ": "@ + count_text(files) + " file(s) totalling "@ + human_bytes_text(bytes) + ", "@
        + count_text(folders) + " folder(s) and "@ + count_text(symlinks) + " symlink(s)"@
}

/// Writes a side's summary, as `spec_side_summary` says.
fn side_summary(label: &str, files: u32, bytes: u64, folders: u32, symlinks: u32) -> (r: String)
    ensures
        r@ == spec_side_summary(label@, files, bytes, folders, symlinks),
{
    let f = human_count(files as u64);
    let b = human_bytes(bytes);
    let d = human_count(folders as u64);
    let l = human_count(symlinks as u64);
    proof { reveal_with_fuel(concat_all, 11); }
    concat(&[label, ": ", f.as_str(), " file(s) totalling ", b.as_str(), ", ", d.as_str(), " folder(s) and ",
        l.as_str(), " symlink(s)"])
}

impl Stats {
    /// What the source holds, as the statistics after a query show it.
    pub fn source_summary(&self) -> (r: String)
        ensures
            r@ == spec_side_summary("Source"@, self.num_src_files, self.src_total_bytes, self.num_src_folders,
                self.num_src_symlinks),
    {
        proof { reveal_strlit("Source"); }
        side_summary("Source", self.num_src_files, self.src_total_bytes, self.num_src_folders, self.num_src_symlinks)
    }

    /// What the destination holds, as the statistics after a query show it.
    pub fn dest_summary(&self) -> (r: String)
        ensures
            r@ == spec_side_summary("Dest"@, self.num_dest_files, self.dest_total_bytes, self.num_dest_folders,
                self.num_dest_symlinks),
    {
        proof { reveal_strlit("Dest"); }
        side_summary("Dest", self.num_dest_files, self.dest_total_bytes, self.num_dest_folders, self.num_dest_symlinks)
    }
}

impl SyncTotals {
    /// Whether anything was deleted.
    pub fn any_deleted(&self) -> (r: bool)
        ensures
            r == (self.num_files_deleted > 0 || self.num_folders_deleted > 0 || self.num_symlinks_deleted > 0),
    {
        self.num_files_deleted > 0 || self.num_folders_deleted > 0 || self.num_symlinks_deleted > 0
    }

    /// Whether anything was copied or created.
    pub fn any_copied(&self) -> (r: bool)
        ensures
            r == (self.num_files_copied > 0 || self.num_folders_created > 0 || self.num_symlinks_copied > 0),
    {
        self.num_files_copied > 0 || self.num_folders_created > 0 || self.num_symlinks_copied > 0
    }

    /// The summary of the deletions, as `spec_delete_summary` says.
    pub fn delete_summary(&self, dry_run: bool) -> (r: String)
        ensures
            r@ == spec_delete_summary(*self, dry_run),
    {
        let f = human_count(self.num_files_deleted as u64);
        let b = human_bytes(self.num_bytes_deleted);
        let d = human_count(self.num_folders_deleted as u64);
        let l = human_count(self.num_symlinks_deleted as u64);
        let verb = if dry_run { "Would delete" } else { "Deleted" };
        proof { reveal_with_fuel(concat_all, 11); }
        concat(&[verb, " ", f.as_str(), " file(s) totalling ", b.as_str(), ", ", d.as_str(), " folder(s) and ",
            l.as_str(), " symlink(s)"])
    }

    /// The summary of the copies, as `spec_copy_summary` says.
    pub fn copy_summary(&self, dry_run: bool) -> (r: String)
        ensures
            r@ == spec_copy_summary(*self, dry_run),
    {
        let f = human_count(self.num_files_copied as u64);
        let b = human_bytes(self.num_bytes_copied);
        let d = human_count(self.num_folders_created as u64);
        let l = human_count(self.num_symlinks_copied as u64);
        let verb = if dry_run { "Would copy" } else { "Copied" };
        let create = if dry_run { "would create" } else { "created" };
        let copy = if dry_run { "would copy" } else { "copied" };
        proof { reveal_with_fuel(concat_all, 15); }
        concat(&[verb, " ", f.as_str(), " file(s) totalling ", b.as_str(), ", ", create, " ", d.as_str(),
            " folder(s) and ", copy, " ", l.as_str(), " symlink(s)"])
    }
}

/// What arrives from a destination doer while commands are sent to it.
pub enum DestReport {
    /// A response.
    Response(Response),
    /// The connection to the doer failed.
    CommsError(String),
}

/// How a response reads in messages: its `Debug` text.
pub uninterp spec fn response_debug_text(r: Response) -> Seq<char>;

/// Writes a response with `format!("{:?}")`. Trusted: the text is the response's `Debug` text, as
/// named by `response_debug_text`; what that text is, is not stated.
#[verifier::external_body]
fn debug_text(r: &Response) -> (t: String)
    ensures
        t@ == response_debug_text(*r),
{
    format!("{:?}", r)
}

/// Texts joined with a separator between each two.
pub open spec fn joined(texts: Seq<Seq<char>>, sep: Seq<char>) -> Seq<char>
    decreases texts.len(),
{
    if texts.len() == 0 {
        Seq::empty()
    } else if texts.len() == 1 {
        texts[0]
    } else {
        joined(texts.drop_last(), sep) + sep + texts.last()
    }
}

/// Checks what a destination doer reports while commands are sent to it without waiting for each
/// to be done. Errors are collected; after the first, waiting stops, so that only what has
/// already arrived is still looked at. A communication failure, or the marker that says that the
/// doer has done everything, ends the check.
pub struct DestResponseCheck {
    errors: Vec<String>,
    waiting: bool,
}

impl DestResponseCheck {
    /// The errors collected so far.
    pub closed spec fn errors(&self) -> Seq<Seq<char>> {
        self.errors@.map_values(|e: String| e@)
    }

    /// Whether the check still waits (blocking) for more reports.
    pub closed spec fn waiting(&self) -> bool {
        self.waiting
    }

    /// A check with no errors yet, which waits until the doer is done if asked to.
    pub fn new(wait_until_done: bool) -> (r: DestResponseCheck)
        ensures
            r.errors() == Seq::<Seq<char>>::empty(),
            r.waiting() == wait_until_done,
    {
        DestResponseCheck { errors: Vec::new(), waiting: wait_until_done }
    }

    /// Whether to wait for the next report rather than only take one that has already arrived.
    pub fn should_wait(&self) -> (r: bool)
        ensures
            r == self.waiting(),
    {
        self.waiting
    }

    /// Takes one report. Returns whether to carry on with the next one.
    pub fn on_report(&mut self, report: DestReport) -> (r: bool)
        ensures
            match report {
                DestReport::Response(Response::Error(e)) => r && !final(self).waiting()
                    && final(self).errors() == old(self).errors().push(e@),
                DestReport::Response(Response::Marker(m)) => r == (m.phase != ProgressPhase::Done)
                    && final(self).waiting() == old(self).waiting() && final(self).errors() == old(self).errors(),
                DestReport::CommsError(e) => !r && final(self).waiting() == old(self).waiting()
                    && final(self).errors() == old(self).errors().push(e@),
                DestReport::Response(other) => r && final(self).waiting() == old(self).waiting()
                    && final(self).errors() == old(self).errors().push(
                        "Unexpected response (expected Error or Marker): Ok("@ + response_debug_text(other) + ")"@),
            },
    {
        let ghost before = self.errors@;
        match report {
            DestReport::Response(Response::Error(e)) => {
                self.errors.push(e);
                self.waiting = false;
                assert(self.errors@.map_values(|e: String| e@) =~= before.map_values(|e: String| e@).push(self.errors@.last()@));
                true
            },
            DestReport::Response(Response::Marker(m)) => {
                m.phase != ProgressPhase::Done
            },
            DestReport::CommsError(e) => {
                self.errors.push(e);
                assert(self.errors@.map_values(|e: String| e@) =~= before.map_values(|e: String| e@).push(self.errors@.last()@));
                false
            },
            DestReport::Response(other) => {
                let text = debug_text(&other);
                proof { reveal_with_fuel(concat_all, 4); }
                self.errors.push(concat(&["Unexpected response (expected Error or Marker): Ok(", text.as_str(), ")"]));
                assert(self.errors@.map_values(|e: String| e@) =~= before.map_values(|e: String| e@).push(self.errors@.last()@));
                true
            },
        }
    }

    /// The outcome: success if nothing went wrong, otherwise all the errors, separated by commas.
    pub fn finish(self) -> (r: Result<(), String>)
        ensures
            self.errors().len() == 0 <==> r is Ok,
            r matches Err(e) ==> e@ == joined(self.errors(), ", "@),
    {
        if self.errors.len() == 0 {
            return Ok(());
        }
        let ghost es = self.errors@.map_values(|e: String| e@);
        let mut r = self.errors[0].clone();
        let mut i: usize = 1;
        proof { reveal_strlit(", "); }
        assert(es.take(1).drop_last() =~= Seq::<Seq<char>>::empty());
        while i < self.errors.len()
            invariant
                1 <= i <= self.errors.len(),
                es == self.errors@.map_values(|e: String| e@),
                r@ == joined(es.take(i as int), ", "@),
            decreases self.errors.len() - i,
        {
            r.append(", ");
            r.append(self.errors[i].as_str());
            assert(es.take(i + 1).drop_last() =~= es.take(i as int));
            i = i + 1;
        }
        assert(es.take(i as int) =~= es);
        Err(r)
    }
}

} // verus!
