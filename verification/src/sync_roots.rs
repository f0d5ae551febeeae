use vstd::prelude::*;
use crate::root_relative_path::RootRelativePath;
use crate::boss_doer_interface::{EntryDetails, kind_name_of};
use crate::boss_frontend::DestRootNeedsDeletingBehaviour;
use crate::text::{chars_of, concat, concat_all, push_char};

verus! {

/// Which end of a sync something is on.
#[derive(Clone, Copy, Debug, PartialEq, Eq, Structural)]
pub enum Side {
    Source,
    Dest,
}

pub open spec fn side_name(side: Side) -> Seq<char> {
    match side {
        Side::Source => "source"@,
        Side::Dest => "dest"@,
    }
}

/// A path relative to a root in the syntax of the platform that holds it.
pub open spec fn platform_path(path: Seq<char>, sep: char) -> Seq<char> {
    path.map_values(|c: char| if c == '/' { sep } else { c })
}

/// How an entry is named in messages: its side and kind, and its full path in quotes; the root
/// itself is called the root.
pub open spec fn spec_pretty_path(side: Side, root: Seq<char>, path: Seq<char>, kind: Seq<char>, sep: char) -> Seq<char> {
    if path.len() == 0 {
        side_name(side) + " root "@ + kind + " '"@ + root + "'"@
    } else {
        side_name(side) + " "@ + kind + " '"@ + root + seq![sep] + platform_path(path, sep) + "'"@
    }
}

/// Names an entry for a message, as `spec_pretty_path` says.
pub fn pretty_path(side: Side, root: &str, path: &RootRelativePath, kind: &str, sep: char) -> (r: String)
    ensures
        r@ == spec_pretty_path(side, root@, path@, kind@, sep),
{
    let side_text = match side {
        Side::Source => "source",
        Side::Dest => "dest",
    };
    proof { reveal_with_fuel(concat_all, 7); }
    if path.is_root() {
        concat(&[side_text, " root ", kind, " '", root, "'"])
    } else {
        let mut r = concat(&[side_text, " ", kind, " '", root]);
        push_char(&mut r, sep);
        let p = path.to_platform_path(sep);
        r.append(p.as_str());
        r.append("'");
        r
    }
}

/// Whether a path ends with a forward or backward slash.
pub open spec fn has_trailing_slash(s: Seq<char>) -> bool {
    s.len() > 0 && (s.last() == '/' || s.last() == '\\')
}

fn file_like(d: &EntryDetails) -> (r: bool)
    ensures
        r == is_file_like(*d),
{
    match d {
        EntryDetails::Folder => false,
        _ => true,
    }
}

fn ends_with_slash(s: &str) -> (r: bool)
    ensures
        r == has_trailing_slash(s@),
{
    let cs = chars_of(s);
    if cs.len() == 0 {
        false
    } else {
        let c = cs[cs.len() - 1];
        c == '/' || c == '\\'
    }
}

/// Whether an entry is treated as a file when it is a root (files and symlinks are).
pub open spec fn is_file_like(d: EntryDetails) -> bool {
    d is File || d is Symlink
}

/// The error for a file or symlink named with a trailing slash, which suggests the user thinks it
/// is a folder.
pub open spec fn trailing_slash_error(root: Seq<char>) -> Seq<char> {
    "'"@ + root + "' is a file or symlink but is referred to with a trailing slash."@
}

/// Checks that a root that is a file or symlink is not named with a trailing slash.
pub fn validate_trailing_slash(root_path: &str, entry_details: &EntryDetails) -> (r: Result<(), String>)
    ensures
        r is Err <==> is_file_like(*entry_details) && has_trailing_slash(root_path@),
        r matches Err(e) ==> e@ == trailing_slash_error(root_path@),
{
    if file_like(entry_details) && ends_with_slash(root_path) {
        proof { reveal_with_fuel(concat_all, 4); }
        return Err(concat(&["'", root_path, "' is a file or symlink but is referred to with a trailing slash."]));
    }
    Ok(())
}

/// What the source root must be: it must exist, and not be a file named with a trailing slash.
pub open spec fn spec_check_src_root(root: Seq<char>, details: Option<EntryDetails>) -> Result<EntryDetails, Seq<char>> {
    match details {
        None => Err("src path '"@ + root + "' doesn't exist!"@),
        Some(d) => if is_file_like(d) && has_trailing_slash(root) {
            Err("src path "@ + trailing_slash_error(root))
        } else {
            Ok(d)
        },
    }
}

/// Checks the details of the source root.
pub fn check_src_root(src_root: &str, details: Option<EntryDetails>) -> (r: Result<EntryDetails, String>)
    ensures
        match (r, spec_check_src_root(src_root@, details)) {
            (Ok(a), Ok(b)) => a == b,
            (Err(a), Err(b)) => a@ == b,
            _ => false,
        },
{
    proof { reveal_with_fuel(concat_all, 4); }
    match details {
        None => Err(concat(&["src path '", src_root, "' doesn't exist!"])),
        Some(d) => match validate_trailing_slash(src_root, &d) {
            Err(e) => {
                let mut msg = String::from_str("src path ");
                msg.append(e.as_str());
                Err(msg)
            }
            Ok(()) => Ok(d),
        },
    }
}

/// Checks the details of the destination root: it need not exist, but must not be a file named
/// with a trailing slash.
pub fn check_dest_root(dest_root: &str, details: &Option<EntryDetails>) -> (r: Result<(), String>)
    ensures
        r is Err <==> (*details matches Some(d) && is_file_like(d) && has_trailing_slash(dest_root@)),
        r matches Err(e) ==> e@ == "dest path "@ + trailing_slash_error(dest_root@),
{
    match details {
        None => Ok(()),
        Some(d) => match validate_trailing_slash(dest_root, d) {
            Err(e) => {
                let mut msg = String::from_str("dest path ");
                msg.append(e.as_str());
                Err(msg)
            }
            Ok(()) => Ok(()),
        },
    }
}

/// The last component of a path: what follows its last forward or backward slash.
pub open spec fn last_component(s: Seq<char>) -> Seq<char>
    decreases s.len(),
{
    if s.len() == 0 {
        s
    } else if s.last() == '/' || s.last() == '\\' {
        Seq::empty()
    } else {
        last_component(s.drop_last()).push(s.last())
    }
}

/// The destination root to sync to instead, if any: a file or symlink synced to a destination
/// named with a trailing slash goes inside that folder, under its own name.
pub open spec fn spec_retargeted_dest_root(src_root: Seq<char>, dest_root: Seq<char>, src: EntryDetails) -> Option<Seq<char>> {
    if is_file_like(src) && has_trailing_slash(dest_root) {
        Some(dest_root + last_component(src_root))
    } else {
        None
    }
}

/// The destination root to sync to instead, as `spec_retargeted_dest_root` says.
pub fn retargeted_dest_root(src_root: &str, dest_root: &str, src_root_details: &EntryDetails) -> (r: Option<String>)
    ensures
        match r {
            Some(s) => spec_retargeted_dest_root(src_root@, dest_root@, *src_root_details) == Some(s@),
            None => spec_retargeted_dest_root(src_root@, dest_root@, *src_root_details) is None,
        },
{
    if !(file_like(src_root_details) && ends_with_slash(dest_root)) {
        return None;
    }
    let cs = chars_of(src_root);
    let mut start: usize = cs.len();
    assert(cs@.take(cs@.len() as int) =~= cs@);
    assert(last_component(cs@) + cs@.skip(cs@.len() as int) =~= last_component(cs@));
    while start > 0 && cs[start - 1] != '/' && cs[start - 1] != '\\'
        invariant
            start <= cs@.len(),
            cs@ == src_root@,
            last_component(src_root@) == last_component(cs@.take(start as int)) + cs@.skip(start as int),
        decreases start,
    {
        let ghost t = cs@.take(start as int);
        assert(t.drop_last() =~= cs@.take(start - 1));
        assert(cs@.skip(start - 1) =~= seq![t.last()] + cs@.skip(start as int));
        assert(last_component(cs@.take(start - 1)).push(t.last()) + cs@.skip(start as int)
            =~= last_component(cs@.take(start - 1)) + cs@.skip(start - 1));
        start = start - 1;
    }
    let mut r = String::from_str(dest_root);
    let mut i: usize = start;
    while i < cs.len()
        invariant
            start <= i <= cs@.len(),
            cs@ == src_root@,
            r@ == dest_root@ + cs@.subrange(start as int, i as int),
        decreases cs.len() - i,
    {
        push_char(&mut r, cs[i]);
        assert(cs@.subrange(start as int, i + 1) =~= cs@.subrange(start as int, i as int).push(cs@[i as int]));
        i = i + 1;
    }
    assert(last_component(cs@.take(start as int)) =~= Seq::<char>::empty());
    assert(cs@.subrange(start as int, cs@.len() as int) =~= cs@.skip(start as int));
    Some(r)
}

/// The message shown when the destination root has to be deleted to make way for the source root.
pub open spec fn spec_root_delete_message(
    src_root: Seq<char>, dest_root: Seq<char>, src: EntryDetails, dest: EntryDetails, src_sep: char, dest_sep: char,
) -> Seq<char> {
    spec_pretty_path(Side::Dest, dest_root, Seq::empty(), kind_name_of(dest), dest_sep) + " needs deleting as it is incompatible with "@
        + spec_pretty_path(Side::Source, src_root, Seq::empty(), kind_name_of(src), src_sep)
}

/// The message shown when the destination root has to be deleted, as `spec_root_delete_message`
/// says.
pub fn root_delete_message(
    src_root: &str, dest_root: &str, src: &EntryDetails, dest: &EntryDetails, src_sep: char, dest_sep: char,
) -> (r: String)
    ensures
        r@ == spec_root_delete_message(src_root@, dest_root@, *src, *dest, src_sep, dest_sep),
{
    let root = RootRelativePath::root();
    let d = pretty_path(Side::Dest, dest_root, &root, dest.kind_name(), dest_sep);
    let s = pretty_path(Side::Source, src_root, &root, src.kind_name(), src_sep);
    proof { reveal_with_fuel(concat_all, 4); }
    concat(&[d.as_str(), " needs deleting as it is incompatible with ", s.as_str()])
}

/// Decides, under a settled behaviour (not `Prompt`), whether the destination root may be deleted:
/// `Ok(true)` to go ahead, `Ok(false)` to skip the whole sync without an error, or the error.
pub fn check_dest_root_delete_ok(behaviour: DestRootNeedsDeletingBehaviour, msg: &str) -> (r: Result<bool, String>)
    requires
        behaviour != DestRootNeedsDeletingBehaviour::Prompt,
    ensures
        behaviour == DestRootNeedsDeletingBehaviour::Delete ==> r == Ok::<bool, String>(true),
        behaviour == DestRootNeedsDeletingBehaviour::Skip ==> r == Ok::<bool, String>(false),
        behaviour == DestRootNeedsDeletingBehaviour::Error ==>
            (r matches Err(e) && e@ == msg@ + ". Will not delete. See --dest-root-needs-deleting"@),
{
    match behaviour {
        DestRootNeedsDeletingBehaviour::Delete => Ok(true),
        DestRootNeedsDeletingBehaviour::Skip => Ok(false),
        _ => {
            proof { reveal_with_fuel(concat_all, 3); }
            Err(concat(&[msg, ". Will not delete. See --dest-root-needs-deleting"]))
        }
    }
}

} // verus!
