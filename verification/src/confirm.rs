use vstd::prelude::*;
use crate::root_relative_path::RootRelativePath;
use crate::boss_doer_interface::{EntryDetails, kind_name_of};
use crate::boss_frontend::{DestEntryNeedsDeletingBehaviour, DestFileUpdateBehaviour};
use crate::boss_sync::{Actions, CopyReason, DeleteReason};
use crate::ordered_map::{keys_in, lemma_keys_in_all, lemma_keys_in_remove};
use crate::sync_roots::{Side, pretty_path, spec_pretty_path};
use crate::text::{concat, concat_all};

verus! {

/// Where the two roots of a sync are, for naming entries in messages.
pub struct PathContext {
    pub src_root: String,
    pub dest_root: String,
    pub src_dir_separator: char,
    pub dest_dir_separator: char,
}

/// Which setting governs a planned action that may need confirming.
#[derive(Clone, Copy, Debug, PartialEq, Eq, Structural)]
pub enum ConfirmKind {
    /// Deleting a destination entry.
    Delete,
    /// Overwriting a destination file that is newer than the source file.
    Newer,
    /// Overwriting a destination file that is older than the source file.
    Older,
}

/// The settings that decide whether destructive actions go ahead.
#[derive(Clone, Copy, Debug, PartialEq, Eq, Structural)]
pub struct Behaviours {
    pub dest_file_newer: DestFileUpdateBehaviour,
    pub dest_file_older: DestFileUpdateBehaviour,
    pub dest_entry_needs_deleting: DestEntryNeedsDeletingBehaviour,
}

/// The user's answer to a question about one action.
#[derive(Clone, Copy, Debug, PartialEq, Eq, Structural)]
pub enum PromptAnswer {
    /// Leave this entry alone.
    Skip,
    /// Leave this and every later entry of the same kind alone.
    SkipAll,
    /// Go ahead with this action.
    Proceed,
    /// Go ahead with this and every later action of the same kind.
    ProceedAll,
    /// Stop the sync.
    Cancel,
}

/// How a planned action is settled.
#[derive(Clone, Copy, Debug, PartialEq, Eq, Structural)]
pub enum Settled {
    Keep,
    Drop,
    Fail,
    Ask,
}

/// How a behaviour that is not to prompt settles an action.
pub open spec fn settle_delete(b: DestEntryNeedsDeletingBehaviour) -> Settled {
    match b {
        DestEntryNeedsDeletingBehaviour::Prompt => Settled::Ask,
        DestEntryNeedsDeletingBehaviour::Error => Settled::Fail,
        DestEntryNeedsDeletingBehaviour::Skip => Settled::Drop,
        DestEntryNeedsDeletingBehaviour::Delete => Settled::Keep,
    }
}

/// How a behaviour that is not to prompt settles an action.
pub open spec fn settle_update(b: DestFileUpdateBehaviour) -> Settled {
    match b {
        DestFileUpdateBehaviour::Prompt => Settled::Ask,
        DestFileUpdateBehaviour::Error => Settled::Fail,
        DestFileUpdateBehaviour::Skip => Settled::Drop,
        DestFileUpdateBehaviour::Overwrite => Settled::Keep,
    }
}

/// How an answer settles an action.
pub open spec fn settle_answer(a: PromptAnswer) -> Settled {
    match a {
        PromptAnswer::Skip | PromptAnswer::SkipAll => Settled::Drop,
        PromptAnswer::Proceed | PromptAnswer::ProceedAll => Settled::Keep,
        PromptAnswer::Cancel => Settled::Fail,
    }
}

/// How the current behaviours settle an action of a kind.
pub open spec fn settle_kind(bs: Behaviours, k: ConfirmKind) -> Settled {
    match k {
        ConfirmKind::Delete => settle_delete(bs.dest_entry_needs_deleting),
        ConfirmKind::Newer => settle_update(bs.dest_file_newer),
        ConfirmKind::Older => settle_update(bs.dest_file_older),
    }
}

/// The behaviours after an answer: an answer "for all" becomes the behaviour for the kind.
pub open spec fn remember(bs: Behaviours, k: ConfirmKind, a: PromptAnswer) -> Behaviours {
    match (k, a) {
        (ConfirmKind::Delete, PromptAnswer::SkipAll) => Behaviours { dest_entry_needs_deleting: DestEntryNeedsDeletingBehaviour::Skip, ..bs },
        (ConfirmKind::Delete, PromptAnswer::ProceedAll) => Behaviours { dest_entry_needs_deleting: DestEntryNeedsDeletingBehaviour::Delete, ..bs },
        (ConfirmKind::Newer, PromptAnswer::SkipAll) => Behaviours { dest_file_newer: DestFileUpdateBehaviour::Skip, ..bs },
        (ConfirmKind::Newer, PromptAnswer::ProceedAll) => Behaviours { dest_file_newer: DestFileUpdateBehaviour::Overwrite, ..bs },
        (ConfirmKind::Older, PromptAnswer::SkipAll) => Behaviours { dest_file_older: DestFileUpdateBehaviour::Skip, ..bs },
        (ConfirmKind::Older, PromptAnswer::ProceedAll) => Behaviours { dest_file_older: DestFileUpdateBehaviour::Overwrite, ..bs },
        _ => bs,
    }
}

/// What a planned deletion is called in messages.
pub open spec fn delete_message(ctx_src: Seq<char>, ctx_dest: Seq<char>, dest_sep: char, path: Seq<char>,
    details: EntryDetails, reason: DeleteReason) -> Seq<char> {
    spec_pretty_path(Side::Dest, ctx_dest, path, kind_name_of(details), dest_sep) + " needs deleting "@
        + match reason {
            DeleteReason::NotOnSource => "as it doesn't exist on the src"@,
            DeleteReason::Incompatible => "to allow the source entry to be copied"@,
        }
}

/// What a planned overwrite of a newer (or older) destination file is called in messages.
pub open spec fn update_message(src_root: Seq<char>, dest_root: Seq<char>, src_sep: char, dest_sep: char,
    path: Seq<char>, newer: bool) -> Seq<char> {
    spec_pretty_path(Side::Dest, dest_root, path, "file"@, dest_sep)
        + (if newer { " is newer than "@ } else { " is older than "@ })
        + spec_pretty_path(Side::Source, src_root, path, "file"@, src_sep)
}

/// The error when an action is refused.
pub open spec fn refusal(k: ConfirmKind, msg: Seq<char>) -> Seq<char> {
    match k {
        ConfirmKind::Delete => msg + ". Will not delete. See --dest-entry-needs-deleting."@,
        ConfirmKind::Newer => msg + ". Will not overwrite. See --dest-file-newer."@,
        ConfirmKind::Older => msg + ". Will not overwrite. See --dest-file-older."@,
    }
}

/// The actions that may need confirming: each deletion, then each copy over a newer or older
/// destination file, with its kind, path and message.
pub open spec fn update_items(src_root: Seq<char>, dest_root: Seq<char>, src_sep: char, dest_sep: char,
    copies: Seq<(Seq<char>, (EntryDetails, CopyReason))>) -> Seq<(ConfirmKind, Seq<char>, Seq<char>)>
    decreases copies.len(),
{
    if copies.len() == 0 {
        Seq::empty()
    } else {
        let rest = update_items(src_root, dest_root, src_sep, dest_sep, copies.drop_last());
        let (p, (_, reason)) = copies.last();
        match reason {
            CopyReason::NotOnDest => rest,
            CopyReason::DestNewer => rest.push((ConfirmKind::Newer, p, update_message(src_root, dest_root, src_sep, dest_sep, p, true))),
            CopyReason::DestOlder => rest.push((ConfirmKind::Older, p, update_message(src_root, dest_root, src_sep, dest_sep, p, false))),
        }
    }
}

/// The planned deletions as actions to confirm.
pub open spec fn delete_items(src_root: Seq<char>, dest_root: Seq<char>, dest_sep: char,
    deletes: Seq<(Seq<char>, (EntryDetails, DeleteReason))>) -> Seq<(ConfirmKind, Seq<char>, Seq<char>)> {
    deletes.map_values(|d: (Seq<char>, (EntryDetails, DeleteReason))|
        (ConfirmKind::Delete, d.0, delete_message(src_root, dest_root, dest_sep, d.0, d.1.0, d.1.1)))
}

/// Where confirming a list of actions gets to, from item `pos`, given the answer (if any) to the
/// question last asked.
pub enum ConfirmOutcome {
    /// Every action is settled.
    Done,
    /// The action at this position needs an answer to this question.
    Ask(int, Seq<char>),
    /// An action is refused, with this error.
    Fail(Seq<char>),
}

/// Settles the actions from `pos` on, in order: each under the behaviour for its kind, or, where
/// that is to prompt, by the answer given (which then serves for that one action). Returns how it
/// ends, the behaviours by then, and the actions dropped on the way.
pub open spec fn confirm_from(items: Seq<(ConfirmKind, Seq<char>, Seq<char>)>, pos: int, bs: Behaviours,
    answer: Option<PromptAnswer>) -> (ConfirmOutcome, Behaviours, Seq<(ConfirmKind, Seq<char>)>)
    decreases items.len() - pos,
{
    if pos < 0 || pos >= items.len() {
        (ConfirmOutcome::Done, bs, Seq::empty())
    } else {
        let (k, p, msg) = items[pos];
        let asks = settle_kind(bs, k) == Settled::Ask;
        if asks && answer is None {
            (ConfirmOutcome::Ask(pos, msg + ". What do?"@), bs, Seq::empty())
        } else {
            let settled = if asks { settle_answer(answer->0) } else { settle_kind(bs, k) };
            let bs2 = if asks { remember(bs, k, answer->0) } else { bs };
            let answer2 = if asks { None } else { answer };
            if settled == Settled::Fail {
                (ConfirmOutcome::Fail(refusal(k, msg)), bs2, Seq::empty())
            } else {
                let rest = confirm_from(items, pos + 1, bs2, answer2);
                if settled == Settled::Drop {
                    (rest.0, rest.1, seq![(k, p)] + rest.2)
                } else {
                    rest
                }
            }
        }
    }
}


/// Whether settling an action this way stops confirming there (to ask, or to fail).
pub open spec fn stops(s: Settled) -> bool {
    s == Settled::Ask || s == Settled::Fail
}

/// One step of confirming with no answer pending: an action that asks or fails stops there with
/// no behaviour changed; one that is dropped is listed before the rest; one that is kept is not.
proof fn lemma_confirm_step(items: Seq<(ConfirmKind, Seq<char>, Seq<char>)>, i: int, bs: Behaviours)
    requires
        0 <= i < items.len(),
    ensures
        ({
            let r = confirm_from(items, i, bs, None);
            let rest = confirm_from(items, i + 1, bs, None);
            let sk = settle_kind(bs, items[i].0);
            &&& sk == Settled::Ask ==> r.0 == ConfirmOutcome::Ask(i, items[i].2 + ". What do?"@) && r.1 == bs && r.2.len() == 0
            &&& sk == Settled::Fail ==> r.0 is Fail && r.1 == bs && r.2.len() == 0
            &&& sk == Settled::Drop ==> r.0 == rest.0 && r.1 == rest.1 && r.2 == seq![(items[i].0, items[i].1)] + rest.2
            &&& sk == Settled::Keep ==> r == rest
        }),
{
}

/// While the behaviour for a kind of action is to skip, confirming never asks about an action of
/// that kind and changes no behaviour (with no answer pending).
pub proof fn lemma_skipped_kind_is_never_asked(
    items: Seq<(ConfirmKind, Seq<char>, Seq<char>)>, i: int, bs: Behaviours, k: ConfirmKind,
)
    requires
        0 <= i,
        settle_kind(bs, k) == Settled::Drop,
    ensures
        ({
            let r = confirm_from(items, i, bs, None);
            &&& r.0 matches ConfirmOutcome::Ask(f, _) ==> i <= f < items.len() && items[f].0 != k
            &&& r.1 == bs
        }),
    decreases items.len() - i,
{
    if i < items.len() {
        lemma_confirm_step(items, i, bs);
        lemma_skipped_kind_is_never_asked(items, i + 1, bs, k);
    }
}

/// While the behaviour for a kind of action is to skip, confirming (with no answer pending)
/// drops each action of that kind that it reaches: one before which no action of another kind
/// stops it, to ask or to fail.
pub proof fn lemma_skipped_kind_is_dropped(
    items: Seq<(ConfirmKind, Seq<char>, Seq<char>)>, i: int, bs: Behaviours, k: ConfirmKind, j: int,
)
    requires
        0 <= i <= j < items.len(),
        settle_kind(bs, k) == Settled::Drop,
        items[j].0 == k,
        forall|f: int| i <= f < j ==> items[f].0 == k || !stops(#[trigger] settle_kind(bs, items[f].0)),
    ensures
        confirm_from(items, i, bs, None).2.contains((k, items[j].1)),
    decreases j - i,
{
    lemma_confirm_step(items, i, bs);
    let r = confirm_from(items, i, bs, None);
    let rest = confirm_from(items, i + 1, bs, None);
    if j == i {
        assert(r.2[0] == (k, items[j].1));
    } else {
        assert(items[i].0 == k || !stops(settle_kind(bs, items[i].0)));
        lemma_skipped_kind_is_dropped(items, i + 1, bs, k, j);
        let w = choose|w: int| 0 <= w < rest.2.len() && rest.2[w] == (k, items[j].1);
        if settle_kind(bs, items[i].0) == Settled::Drop {
            assert(r.2[w + 1] == (k, items[j].1));
        } else {
            assert(r.2[w] == (k, items[j].1));
        }
    }
}

/// While the behaviour for a kind of action is to go ahead, confirming never asks about an action
/// of that kind, changes no behaviour (with no answer pending), and drops none of that kind.
#[verifier::rlimit(40)]
pub proof fn lemma_kept_kind_is_kept(
    items: Seq<(ConfirmKind, Seq<char>, Seq<char>)>, i: int, bs: Behaviours, k: ConfirmKind,
)
    requires
        0 <= i,
        settle_kind(bs, k) == Settled::Keep,
    ensures
        ({
            let r = confirm_from(items, i, bs, None);
            &&& r.0 matches ConfirmOutcome::Ask(f, _) ==> i <= f < items.len() && items[f].0 != k
            &&& r.1 == bs
            &&& forall|d: int| 0 <= d < r.2.len() ==> (#[trigger] r.2[d]).0 != k
        }),
    decreases items.len() - i,
{
    if i < items.len() {
        lemma_confirm_step(items, i, bs);
        lemma_kept_kind_is_kept(items, i + 1, bs, k);
        let r = confirm_from(items, i, bs, None);
        let rest = confirm_from(items, i + 1, bs, None);
        if settle_kind(bs, items[i].0) == Settled::Drop {
            assert(items[i].0 != k);
            assert forall|d: int| 0 <= d < r.2.len() implies (#[trigger] r.2[d]).0 != k by {
                if d > 0 {
                    assert(r.2[d] == rest.2[d - 1]);
                }
            }
        }
    }
}

/// An answer for all becomes the behaviour for its kind, leaving the other kinds as they were.
proof fn lemma_remembered_for_all(bs: Behaviours, k: ConfirmKind, k2: ConfirmKind)
    ensures
        settle_kind(remember(bs, k, PromptAnswer::SkipAll), k) == Settled::Drop,
        settle_kind(remember(bs, k, PromptAnswer::ProceedAll), k) == Settled::Keep,
        k2 != k ==> settle_kind(remember(bs, k, PromptAnswer::SkipAll), k2) == settle_kind(bs, k2),
{
}

/// Answering "skip all" to a question about an action skips that action and every later action
/// of the same kind, which is then never asked about: each is dropped unless confirming stopped
/// (at an action of another kind) before it. Answering "go ahead with all" keeps that action and
/// every later one of the same kind, which is never asked about either.
pub proof fn lemma_answers_for_all(items: Seq<(ConfirmKind, Seq<char>, Seq<char>)>, pos: int, bs: Behaviours)
    requires
        0 <= pos < items.len(),
        settle_kind(bs, items[pos].0) == Settled::Ask,
    ensures
        ({
            let k = items[pos].0;
            let r = confirm_from(items, pos, bs, Some(PromptAnswer::SkipAll));
            &&& r.2.contains((k, items[pos].1))
            &&& r.0 matches ConfirmOutcome::Ask(f, _) ==> items[f].0 != k
            &&& forall|j: int| pos < j < items.len() && #[trigger] items[j].0 == k
                && (forall|f: int| pos < f < j ==> items[f].0 == k || !stops(#[trigger] settle_kind(bs, items[f].0)))
                ==> r.2.contains((k, items[j].1))
        }),
        ({
            let k = items[pos].0;
            let r = confirm_from(items, pos, bs, Some(PromptAnswer::ProceedAll));
            &&& r.0 matches ConfirmOutcome::Ask(f, _) ==> items[f].0 != k
            &&& forall|d: int| 0 <= d < r.2.len() ==> (#[trigger] r.2[d]).0 != k
        }),
{
    let k = items[pos].0;
    let skip = remember(bs, k, PromptAnswer::SkipAll);
    let all = remember(bs, k, PromptAnswer::ProceedAll);
    lemma_remembered_for_all(bs, k, k);
    lemma_skipped_kind_is_never_asked(items, pos + 1, skip, k);
    lemma_kept_kind_is_kept(items, pos + 1, all, k);
    let r = confirm_from(items, pos, bs, Some(PromptAnswer::SkipAll));
    let rest = confirm_from(items, pos + 1, skip, None);
    assert(r.2 == seq![(k, items[pos].1)] + rest.2);
    assert(r.2[0] == (k, items[pos].1));
    assert forall|j: int| pos < j < items.len() && #[trigger] items[j].0 == k
        && (forall|f: int| pos < f < j ==> items[f].0 == k || !stops(#[trigger] settle_kind(bs, items[f].0)))
        implies r.2.contains((k, items[j].1)) by {
        assert forall|f: int| pos + 1 <= f < j implies items[f].0 == k || !stops(#[trigger] settle_kind(skip, items[f].0)) by {
            lemma_remembered_for_all(bs, k, items[f].0);
            assert(items[f].0 == k || !stops(settle_kind(bs, items[f].0)));
        }
        lemma_skipped_kind_is_dropped(items, pos + 1, skip, k, j);
        let w = choose|w: int| 0 <= w < rest.2.len() && rest.2[w] == (k, items[j].1);
        assert(r.2[w + 1] == (k, items[j].1));
    }
}

/// What confirming needs next.
pub enum ConfirmStep {
    /// Ask the user this question about an action of this kind, then step again with the answer.
    Ask(String, ConfirmKind),
    /// Stop the sync with this error.
    Fail(String),
    /// Every action is settled: apply the result to the actions.
    Done,
}

/// A confirmation of planned actions in progress.
pub struct Confirmation {
    items: Vec<(ConfirmKind, RootRelativePath, String)>,
    position: usize,
    behaviours: Behaviours,
    dropped: Vec<(ConfirmKind, RootRelativePath)>,
}

pub open spec fn item_view(i: (ConfirmKind, RootRelativePath, String)) -> (ConfirmKind, Seq<char>, Seq<char>) {
    (i.0, i.1@, i.2@)
}

pub open spec fn dropped_view(d: (ConfirmKind, RootRelativePath)) -> (ConfirmKind, Seq<char>) {
    (d.0, d.1@)
}

/// A map without the paths dropped as actions of the given kinds.
pub open spec fn without_dropped<V>(m: Map<Seq<char>, V>, dropped: Seq<(ConfirmKind, Seq<char>)>, deletes: bool) -> Map<Seq<char>, V> {
    Map::new(
        |p: Seq<char>| m.contains_key(p) && !(if deletes { dropped.contains((ConfirmKind::Delete, p)) } else {
            dropped.contains((ConfirmKind::Newer, p)) || dropped.contains((ConfirmKind::Older, p)) }),
        |p: Seq<char>| m[p],
    )
}

fn delete_text(ctx: &PathContext, path: &RootRelativePath, details: &EntryDetails, reason: DeleteReason) -> (r: String)
    ensures
        r@ == delete_message(ctx.src_root@, ctx.dest_root@, ctx.dest_dir_separator, path@, *details, reason),
{
    let pretty = pretty_path(Side::Dest, ctx.dest_root.as_str(), path, details.kind_name(), ctx.dest_dir_separator);
    let why = match reason {
        DeleteReason::NotOnSource => "as it doesn't exist on the src",
        DeleteReason::Incompatible => "to allow the source entry to be copied",
    };
    proof { reveal_with_fuel(concat_all, 4); }
    concat(&[pretty.as_str(), " needs deleting ", why])
}

fn update_text(ctx: &PathContext, path: &RootRelativePath, newer: bool) -> (r: String)
    ensures
        r@ == update_message(ctx.src_root@, ctx.dest_root@, ctx.src_dir_separator, ctx.dest_dir_separator, path@, newer),
{
    let d = pretty_path(Side::Dest, ctx.dest_root.as_str(), path, "file", ctx.dest_dir_separator);
    let s = pretty_path(Side::Source, ctx.src_root.as_str(), path, "file", ctx.src_dir_separator);
    let middle = if newer { " is newer than " } else { " is older than " };
    proof { reveal_with_fuel(concat_all, 4); }
    concat(&[d.as_str(), middle, s.as_str()])
}

fn refusal_text(k: ConfirmKind, msg: &str) -> (r: String)
    ensures
        r@ == refusal(k, msg@),
{
    let tail = match k {
        ConfirmKind::Delete => ". Will not delete. See --dest-entry-needs-deleting.",
        ConfirmKind::Newer => ". Will not overwrite. See --dest-file-newer.",
        ConfirmKind::Older => ". Will not overwrite. See --dest-file-older.",
    };
    proof { reveal_with_fuel(concat_all, 3); }
    concat(&[msg, tail])
}

fn settle_now(bs: &Behaviours, k: ConfirmKind) -> (r: Settled)
    ensures
        r == settle_kind(*bs, k),
{
    match k {
        ConfirmKind::Delete => match bs.dest_entry_needs_deleting {
            DestEntryNeedsDeletingBehaviour::Prompt => Settled::Ask,
            DestEntryNeedsDeletingBehaviour::Error => Settled::Fail,
            DestEntryNeedsDeletingBehaviour::Skip => Settled::Drop,
            DestEntryNeedsDeletingBehaviour::Delete => Settled::Keep,
        },
        ConfirmKind::Newer => match bs.dest_file_newer {
            DestFileUpdateBehaviour::Prompt => Settled::Ask,
            DestFileUpdateBehaviour::Error => Settled::Fail,
            DestFileUpdateBehaviour::Skip => Settled::Drop,
            DestFileUpdateBehaviour::Overwrite => Settled::Keep,
        },
        ConfirmKind::Older => match bs.dest_file_older {
            DestFileUpdateBehaviour::Prompt => Settled::Ask,
            DestFileUpdateBehaviour::Error => Settled::Fail,
            DestFileUpdateBehaviour::Skip => Settled::Drop,
            DestFileUpdateBehaviour::Overwrite => Settled::Keep,
        },
    }
}

fn settle_by_answer(a: PromptAnswer) -> (r: Settled)
    ensures
        r == settle_answer(a),
{
    match a {
        PromptAnswer::Skip | PromptAnswer::SkipAll => Settled::Drop,
        PromptAnswer::Proceed | PromptAnswer::ProceedAll => Settled::Keep,
        PromptAnswer::Cancel => Settled::Fail,
    }
}

fn remembered(bs: Behaviours, k: ConfirmKind, a: PromptAnswer) -> (r: Behaviours)
    ensures
        r == remember(bs, k, a),
{
    match (k, a) {
        (ConfirmKind::Delete, PromptAnswer::SkipAll) => Behaviours { dest_entry_needs_deleting: DestEntryNeedsDeletingBehaviour::Skip, ..bs },
        (ConfirmKind::Delete, PromptAnswer::ProceedAll) => Behaviours { dest_entry_needs_deleting: DestEntryNeedsDeletingBehaviour::Delete, ..bs },
        (ConfirmKind::Newer, PromptAnswer::SkipAll) => Behaviours { dest_file_newer: DestFileUpdateBehaviour::Skip, ..bs },
        (ConfirmKind::Newer, PromptAnswer::ProceedAll) => Behaviours { dest_file_newer: DestFileUpdateBehaviour::Overwrite, ..bs },
        (ConfirmKind::Older, PromptAnswer::SkipAll) => Behaviours { dest_file_older: DestFileUpdateBehaviour::Skip, ..bs },
        (ConfirmKind::Older, PromptAnswer::ProceedAll) => Behaviours { dest_file_older: DestFileUpdateBehaviour::Overwrite, ..bs },
        _ => bs,
    }
}

impl Confirmation {
    /// The actions to confirm, in order.
    pub closed spec fn items(&self) -> Seq<(ConfirmKind, Seq<char>, Seq<char>)> {
        self.items@.map_values(|i: (ConfirmKind, RootRelativePath, String)| item_view(i))
    }

    /// How many actions are settled.
    pub closed spec fn position(&self) -> int {
        self.position as int
    }

    /// The behaviours in force.
    pub closed spec fn behaviours(&self) -> Behaviours {
        self.behaviours
    }

    /// The actions dropped so far.
    pub closed spec fn dropped(&self) -> Seq<(ConfirmKind, Seq<char>)> {
        self.dropped@.map_values(|d: (ConfirmKind, RootRelativePath)| dropped_view(d))
    }

    /// Starts confirming the planned actions: every deletion, then every copy over a newer or
    /// older destination file.
    pub fn new(actions: &Actions, ctx: &PathContext, behaviours: Behaviours) -> (r: Confirmation)
        requires
            actions.to_delete.wf(),
            actions.to_copy.wf(),
        ensures
            r.items() == delete_items(ctx.src_root@, ctx.dest_root@, ctx.dest_dir_separator, actions.to_delete.entries())
                + update_items(ctx.src_root@, ctx.dest_root@, ctx.src_dir_separator, ctx.dest_dir_separator,
                    actions.to_copy.entries()),
            r.position() == 0,
            r.behaviours() == behaviours,
            r.dropped() == Seq::<(ConfirmKind, Seq<char>)>::empty(),
    {
        let ghost sr = ctx.src_root@;
        let ghost dr = ctx.dest_root@;
        let ghost ss = ctx.src_dir_separator;
        let ghost ds = ctx.dest_dir_separator;
        let deletes = actions.to_delete.iter();
        let mut items: Vec<(ConfirmKind, RootRelativePath, String)> = Vec::new();
        let ghost dview = deletes@.map_values(|e: (&RootRelativePath, &(EntryDetails, DeleteReason))| (e.0@, *e.1));
        let mut i: usize = 0;
        while i < deletes.len()
            invariant
                i <= deletes@.len(),
                dview == deletes@.map_values(|e: (&RootRelativePath, &(EntryDetails, DeleteReason))| (e.0@, *e.1)),
                items@.map_values(|i: (ConfirmKind, RootRelativePath, String)| item_view(i))
                    == delete_items(sr, dr, ds, dview.take(i as int)),
                sr == ctx.src_root@, dr == ctx.dest_root@, ds == ctx.dest_dir_separator,
            decreases deletes.len() - i,
        {
            let (p, (d, reason)) = deletes[i];
            let msg = delete_text(ctx, p, d, *reason);
            let ghost before = items@;
            items.push((ConfirmKind::Delete, p.duplicate(), msg));
            assert(dview.take(i + 1) =~= dview.take(i as int).push(dview[i as int]));
            assert(dview[i as int] == (p@, (*d, *reason)));
            assert(items@.map_values(|i: (ConfirmKind, RootRelativePath, String)| item_view(i))
                =~= before.map_values(|i: (ConfirmKind, RootRelativePath, String)| item_view(i)).push(
                    (ConfirmKind::Delete, p@, msg@)));
            assert(items@.map_values(|i: (ConfirmKind, RootRelativePath, String)| item_view(i))
                =~= delete_items(sr, dr, ds, dview.take(i + 1)));
            i = i + 1;
        }
        assert(dview.take(deletes@.len() as int) =~= dview);
        let ghost with_deletes = items@.map_values(|i: (ConfirmKind, RootRelativePath, String)| item_view(i));
        let copies = actions.to_copy.iter();
        let ghost cview = copies@.map_values(|e: (&RootRelativePath, &(EntryDetails, CopyReason))| (e.0@, *e.1));
        let mut j: usize = 0;
        while j < copies.len()
            invariant
                j <= copies@.len(),
                cview == copies@.map_values(|e: (&RootRelativePath, &(EntryDetails, CopyReason))| (e.0@, *e.1)),
                items@.map_values(|i: (ConfirmKind, RootRelativePath, String)| item_view(i))
                    == with_deletes + update_items(sr, dr, ss, ds, cview.take(j as int)),
                sr == ctx.src_root@, dr == ctx.dest_root@, ds == ctx.dest_dir_separator, ss == ctx.src_dir_separator,
            decreases copies.len() - j,
        {
            let (p, (_d, reason)) = copies[j];
            let ghost before = items@;
            assert(cview.take(j + 1).drop_last() =~= cview.take(j as int));
            assert(cview.take(j + 1).last() == (p@, (*_d, *reason)));
            match reason {
                CopyReason::NotOnDest => {},
                CopyReason::DestNewer => {
                    let msg = update_text(ctx, p, true);
                    items.push((ConfirmKind::Newer, p.duplicate(), msg));
                    assert(items@.map_values(|i: (ConfirmKind, RootRelativePath, String)| item_view(i))
                        =~= before.map_values(|i: (ConfirmKind, RootRelativePath, String)| item_view(i)).push(
                            (ConfirmKind::Newer, p@, msg@)));
                },
                CopyReason::DestOlder => {
                    let msg = update_text(ctx, p, false);
                    items.push((ConfirmKind::Older, p.duplicate(), msg));
                    assert(items@.map_values(|i: (ConfirmKind, RootRelativePath, String)| item_view(i))
                        =~= before.map_values(|i: (ConfirmKind, RootRelativePath, String)| item_view(i)).push(
                            (ConfirmKind::Older, p@, msg@)));
                },
            }
            assert(items@.map_values(|i: (ConfirmKind, RootRelativePath, String)| item_view(i))
                =~= with_deletes + update_items(sr, dr, ss, ds, cview.take(j + 1)));
            j = j + 1;
        }
        assert(cview.take(copies@.len() as int) =~= cview);
        let r = Confirmation { items, position: 0, behaviours, dropped: Vec::new() };
        assert(r.dropped() =~= Seq::<(ConfirmKind, Seq<char>)>::empty());
        r
    }

    /// Settles actions in order until one needs an answer, one is refused, or all are settled.
    /// `answer` answers the question asked by the previous step, if any.
    pub fn step(&mut self, answer: Option<PromptAnswer>) -> (r: ConfirmStep)
        ensures
            final(self).items() == old(self).items(),
            ({
                let run = confirm_from(old(self).items(), old(self).position(), old(self).behaviours(), answer);
                &&& final(self).behaviours() == run.1
                &&& final(self).dropped() == old(self).dropped() + run.2
                &&& match run.0 {
                    ConfirmOutcome::Done => r is Done,
                    ConfirmOutcome::Ask(p, q) => r matches ConfirmStep::Ask(t, k) && t@ == q && k == old(self).items()[p].0
                        && final(self).position() == p,
                    ConfirmOutcome::Fail(e) => r matches ConfirmStep::Fail(t) && t@ == e,
                }
            }),
    {
        let ghost items = self.items();
        let ghost run0 = confirm_from(items, self.position(), self.behaviours(), answer);
        let ghost dropped0 = self.dropped();
        let mut answer = answer;
        let mut result = ConfirmStep::Done;
        while self.position < self.items.len()
            invariant_except_break
                self.items() == items,
                result is Done,
                run0.0 == confirm_from(items, self.position(), self.behaviours(), answer).0,
                run0.1 == confirm_from(items, self.position(), self.behaviours(), answer).1,
                dropped0 + run0.2 == self.dropped() + confirm_from(items, self.position(), self.behaviours(), answer).2,
            ensures
                self.items() == items,
                run0.1 == self.behaviours(),
                dropped0 + run0.2 == self.dropped(),
                match run0.0 {
                    ConfirmOutcome::Done => result is Done,
                    ConfirmOutcome::Ask(p, q) => result matches ConfirmStep::Ask(t, k) && t@ == q && k == items[p].0
                        && self.position() == p,
                    ConfirmOutcome::Fail(e) => result matches ConfirmStep::Fail(t) && t@ == e,
                },
            decreases self.items.len() - self.position,
        {
            let ghost before = confirm_from(items, self.position(), self.behaviours(), answer);
            let k = self.items[self.position].0;
            let now = settle_now(&self.behaviours, k);
            let mut stop = false;
            let settled = match now {
                Settled::Ask => match answer {
                    None => {
                        let mut q = self.items[self.position].2.clone();
                        q.append(". What do?");
                        result = ConfirmStep::Ask(q, k);
                        stop = true;
                        Settled::Ask
                    },
                    Some(a) => {
                        self.behaviours = remembered(self.behaviours, k, a);
                        answer = None;
                        settle_by_answer(a)
                    },
                },
                other => other,
            };
            if stop {
                assert(dropped0 + run0.2 =~= self.dropped());
                break;
            }
            match settled {
                Settled::Fail => {
                    let msg = refusal_text(k, self.items[self.position].2.as_str());
                    result = ConfirmStep::Fail(msg);
                    assert(dropped0 + run0.2 =~= self.dropped());
                    break;
                },
                Settled::Drop => {
                    let p = self.items[self.position].1.duplicate();
                    self.dropped.push((k, p));
                },
                _ => {},
            }
            self.position = self.position + 1;
            assert(self.dropped() + confirm_from(items, self.position(), self.behaviours(), answer).2
                =~= dropped0 + run0.2);
        }
        result
    }

    /// Removes the dropped actions from the planned actions.
    pub fn apply(&self, actions: &mut Actions)
        requires
            old(actions).to_delete.wf(),
            old(actions).to_copy.wf(),
        ensures
            final(actions).to_delete.wf(),
            final(actions).to_copy.wf(),
            final(actions).to_delete.map() == without_dropped(old(actions).to_delete.map(), self.dropped(), true),
            final(actions).to_copy.map() == without_dropped(old(actions).to_copy.map(), self.dropped(), false),
            final(actions).to_delete.order() == keys_in(old(actions).to_delete.order(), final(actions).to_delete.map().dom()),
            final(actions).to_copy.order() == keys_in(old(actions).to_copy.order(), final(actions).to_copy.map().dom()),
    {
        proof {
            let od = old(actions).to_delete.order();
            let oc = old(actions).to_copy.order();
            assert forall|i: int| 0 <= i < od.len() implies old(actions).to_delete.map().dom().contains(#[trigger] od[i]) by {
                assert(od.contains(od[i]));
            }
            assert forall|i: int| 0 <= i < oc.len() implies old(actions).to_copy.map().dom().contains(#[trigger] oc[i]) by {
                assert(oc.contains(oc[i]));
            }
            lemma_keys_in_all(od, old(actions).to_delete.map().dom());
            lemma_keys_in_all(oc, old(actions).to_copy.map().dom());
        }
        let ghost dv = self.dropped();
        let mut i: usize = 0;
        while i < self.dropped.len()
            invariant
                i <= self.dropped@.len(),
                dv == self.dropped(),
                actions.to_delete.wf(),
                actions.to_copy.wf(),
                actions.to_delete.map() == without_dropped(old(actions).to_delete.map(), dv.take(i as int), true),
                actions.to_copy.map() == without_dropped(old(actions).to_copy.map(), dv.take(i as int), false),
                actions.to_delete.order() == keys_in(old(actions).to_delete.order(), actions.to_delete.map().dom()),
                actions.to_copy.order() == keys_in(old(actions).to_copy.order(), actions.to_copy.map().dom()),
            decreases self.dropped.len() - i,
        {
            let (k, p) = &self.dropped[i];
            let ghost before = dv.take(i as int);
            let ghost after = dv.take(i + 1);
            assert(after =~= before.push((*k, p@)));
            let ghost dd = actions.to_delete.map().dom();
            let ghost cd = actions.to_copy.map().dom();
            match k {
                ConfirmKind::Delete => {
                    actions.to_delete.remove(p);
                    proof {
                        lemma_keys_in_remove(old(actions).to_delete.order(), dd, p@);
                        assert(actions.to_delete.map().dom() =~= dd.remove(p@));
                    }
                }
                _ => {
                    actions.to_copy.remove(p);
                    proof {
                        lemma_keys_in_remove(old(actions).to_copy.order(), cd, p@);
                        assert(actions.to_copy.map().dom() =~= cd.remove(p@));
                    }
                }
            }
            assert forall|q: (ConfirmKind, Seq<char>)| after.contains(q) <==> (before.contains(q) || q == (*k, p@)) by {
                if after.contains(q) {
                    let j = choose|j: int| 0 <= j < after.len() && after[j] == q;
                    if j < before.len() {
                        assert(before[j] == q);
                    }
                }
                if before.contains(q) {
                    let j = choose|j: int| 0 <= j < before.len() && before[j] == q;
                    assert(after[j] == q);
                }
                if q == (*k, p@) {
                    assert(after[before.len() as int] == q);
                }
            }
            assert(actions.to_delete.map() =~= without_dropped(old(actions).to_delete.map(), after, true));
            assert(actions.to_copy.map() =~= without_dropped(old(actions).to_copy.map(), after, false));
            i = i + 1;
        }
        assert(dv.take(dv.len() as int) =~= dv);
    }
}

} // verus!
