use vstd::prelude::*;

use crate::config_file::{ends_slash, spec_base_of, spec_escape_var, spec_file_name_of,
    spec_validated_path, valid_file_name, PathError};
use crate::sync::{copy_set, excluded, need_copy, sync_count, sync_to, EntryKind, FileRec};
use crate::sync::glob_match;

verus! {

/// A path specification ending in `/` resolves to exactly the directory
/// it expands to, with the include pattern left untouched — so a bare
/// string gets the match-everything default.
pub proof fn lemma_trailing_slash_resolves_to_directory(
    val: Seq<char>,
    env: Map<Seq<char>, Seq<char>>,
    p: Seq<char>,
    include0: Option<Seq<char>>,
)
    requires
        ends_slash(val),
        spec_escape_var(val, env) == Some(p),
    ensures
        spec_validated_path(val, env, true, include0) == Ok::<
            (Seq<char>, Option<Seq<char>>),
            PathError,
        >((p, include0)),
{
}

/// A path specification without a trailing `/` that names a file resolves
/// to the file's parent directory, with exactly the file's name as the
/// include pattern.
pub proof fn lemma_file_path_splits_into_parent_and_name(
    val: Seq<char>,
    env: Map<Seq<char>, Seq<char>>,
    p: Seq<char>,
)
    requires
        !ends_slash(val),
        spec_escape_var(val, env) == Some(p),
        valid_file_name(spec_file_name_of(p)),
    ensures
        spec_validated_path(val, env, false, None) == Ok::<
            (Seq<char>, Option<Seq<char>>),
            PathError,
        >((spec_base_of(p), Some(spec_file_name_of(p)))),
{
}

/// A path specification naming an existing directory without a trailing
/// `/` never resolves: the trailing slash is what asserts "this is a
/// directory".
pub proof fn lemma_directory_needs_trailing_slash(
    val: Seq<char>,
    env: Map<Seq<char>, Seq<char>>,
    include0: Option<Seq<char>>,
)
    requires
        !ends_slash(val),
        spec_escape_var(val, env) is Some,
    ensures
        spec_validated_path(val, env, true, include0) == Err::<
            (Seq<char>, Option<Seq<char>>),
            PathError,
        >(PathError::InvalidDirectorySpec),
{
}

/// A bidirectional pass settles the two trees: running it again copies
/// nothing in either direction, so the second run counts zero both ways.
pub proof fn lemma_sync_idempotent(
    origin: Map<Seq<char>, FileRec>,
    linked: Map<Seq<char>, FileRec>,
    inc: Seq<char>,
    exc: Option<Seq<char>>,
)
    ensures
        ({
            let l1 = sync_to(origin, linked, inc, exc, false);
            let o1 = sync_to(l1, origin, inc, exc, false);
            let l2 = sync_to(o1, l1, inc, exc, false);
            &&& sync_count(o1, l1, inc, exc, false) == 0
            &&& l2 == l1
            &&& sync_count(l2, o1, inc, exc, false) == 0
        }),
{
    broadcast use vstd::set::axiom_set_empty_len;

    let cs1 = copy_set(origin, linked, inc, exc, false);
    let l1 = sync_to(origin, linked, inc, exc, false);
    let cs2 = copy_set(l1, origin, inc, exc, false);
    let o1 = sync_to(l1, origin, inc, exc, false);

    // nothing is left to pull: every eligible origin file already sits in
    // the linked tree with an equal or later modification time
    assert forall|p: Seq<char>| !(#[trigger] copy_set(o1, l1, inc, exc, false).contains(p)) by {
        if copy_set(o1, l1, inc, exc, false).contains(p) {
            if cs2.contains(p) {
                assert(o1[p] == l1[p]);
            } else {
                assert(o1[p] == origin[p]);
                if cs1.contains(p) {
                    assert(l1[p] == origin[p]);
                } else {
                    assert(!need_copy(origin[p], linked, p, false));
                    assert(l1[p] == linked[p]);
                }
            }
        }
    }
    assert(copy_set(o1, l1, inc, exc, false) =~= Set::<Seq<char>>::empty());

    let l2 = sync_to(o1, l1, inc, exc, false);
    assert(l2 =~= l1);

    // nothing is left to push either
    assert forall|p: Seq<char>| !(#[trigger] copy_set(l1, o1, inc, exc, false).contains(p)) by {
        if copy_set(l1, o1, inc, exc, false).contains(p) {
            if cs1.contains(p) {
                assert(l1[p] == origin[p]);
                assert(!need_copy(l1[p], origin, p, false));
                assert(!cs2.contains(p));
                assert(o1[p] == origin[p]);
            } else {
                assert(l1[p] == linked[p]);
                if cs2.contains(p) {
                    assert(o1[p] == l1[p]);
                } else {
                    assert(!need_copy(l1[p], origin, p, false));
                    assert(o1[p] == origin[p]);
                }
            }
        }
    }
    assert(copy_set(l2, o1, inc, exc, false) =~= Set::<Seq<char>>::empty());
}

/// When the linked copy of a file is the newer one, a bidirectional pass
/// leaves the pull direction alone and pushes it back: after the pass the
/// origin carries the linked record.
pub proof fn lemma_newer_wins(
    origin: Map<Seq<char>, FileRec>,
    linked: Map<Seq<char>, FileRec>,
    inc: Seq<char>,
    exc: Option<Seq<char>>,
    p: Seq<char>,
)
    requires
        origin.dom().contains(p),
        linked.dom().contains(p),
        origin[p].kind == EntryKind::File,
        linked[p].kind == EntryKind::File,
        glob_match(inc, p),
        !excluded(exc, p),
        linked[p].mtime > origin[p].mtime,
    ensures
        !copy_set(origin, linked, inc, exc, false).contains(p),
        copy_set(sync_to(origin, linked, inc, exc, false), origin, inc, exc, false).contains(p),
        sync_to(sync_to(origin, linked, inc, exc, false), origin, inc, exc, false)[p] == linked[p],
{
    let l1 = sync_to(origin, linked, inc, exc, false);
    assert(l1[p] == linked[p]);
}

/// With the force flag set, an eligible source file is copied whatever
/// the modification times are: the destination ends up with the source
/// record.
pub proof fn lemma_force_overrides(
    from: Map<Seq<char>, FileRec>,
    to: Map<Seq<char>, FileRec>,
    inc: Seq<char>,
    exc: Option<Seq<char>>,
    p: Seq<char>,
)
    requires
        from.dom().contains(p),
        from[p].kind == EntryKind::File,
        glob_match(inc, p),
        !excluded(exc, p),
    ensures
        copy_set(from, to, inc, exc, true).contains(p),
        sync_to(from, to, inc, exc, true)[p] == from[p],
{
}

/// Pulling from a tree that holds one eligible file into an empty tree
/// copies exactly that file, bytes and modification time, and counts one.
/// That nothing pins the matcher on given pattern texts is by design, so
/// the two matching facts stand as hypotheses.
pub proof fn lemma_single_file_pull(
    p: Seq<char>,
    rec: FileRec,
    inc: Seq<char>,
    exc: Option<Seq<char>>,
    force: bool,
)
    requires
        rec.kind == EntryKind::File,
        glob_match(inc, p),
        !excluded(exc, p),
    ensures
        ({
            let origin = Map::<Seq<char>, FileRec>::empty().insert(p, rec);
            let to0 = Map::<Seq<char>, FileRec>::empty();
            &&& copy_set(origin, to0, inc, exc, force) == Set::<Seq<char>>::empty().insert(p)
            &&& sync_count(origin, to0, inc, exc, force) == 1
            &&& sync_to(origin, to0, inc, exc, force) == origin
        }),
{
    broadcast use vstd::set::axiom_set_insert_len;
    broadcast use vstd::set::axiom_set_empty_len;

    let origin = Map::<Seq<char>, FileRec>::empty().insert(p, rec);
    let to0 = Map::<Seq<char>, FileRec>::empty();
    assert(copy_set(origin, to0, inc, exc, force) =~= Set::<Seq<char>>::empty().insert(p));
    assert(sync_to(origin, to0, inc, exc, force) =~= origin);
}

/// A path the exclude pattern matches is never copied, even when the
/// include pattern matches it too: the destination keeps whatever it had
/// there.
pub proof fn lemma_exclude_precedence(
    from: Map<Seq<char>, FileRec>,
    to: Map<Seq<char>, FileRec>,
    inc: Seq<char>,
    exc_pat: Seq<char>,
    force: bool,
    p: Seq<char>,
)
    requires
        glob_match(exc_pat, p),
    ensures
        !copy_set(from, to, inc, Some(exc_pat), force).contains(p),
        sync_to(from, to, inc, Some(exc_pat), force).dom().contains(p) == to.dom().contains(p),
        to.dom().contains(p) ==> sync_to(from, to, inc, Some(exc_pat), force)[p] == to[p],
{
}

} // verus!
