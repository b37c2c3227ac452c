use vstd::prelude::*;

use crate::strutil::str_eq;

verus! {

/// What a filesystem entry is; only plain files are ever copied.
#[derive(Clone, Copy, Debug, PartialEq, Eq, Structural)]
pub enum EntryKind {
    File,
    Dir,
    Symlink,
}

/// The facts the engine reads of one entry: its kind, its modification
/// time and its bytes.
pub struct FileRec {
    pub kind: EntryKind,
    pub mtime: u64,
    pub content: Seq<u8>,
}

/// One entry of an in-memory file tree, under its path relative to the
/// tree's base directory.
#[derive(Clone, Debug)]
pub struct FsFile {
    pub path: String,
    pub kind: EntryKind,
    pub mtime: u64,
    pub content: Vec<u8>,
}

impl FsFile {
    pub open spec fn rec(self) -> FileRec {
        FileRec { kind: self.kind, mtime: self.mtime, content: self.content@ }
    }
}

/// The map a sequence of entries denotes, from relative path to record.
pub open spec fn tree_map(s: Seq<FsFile>) -> Map<Seq<char>, FileRec>
    decreases s.len(),
{
    if s.len() == 0 {
        Map::empty()
    } else {
        tree_map(s.drop_last()).insert(s.last().path@, s.last().rec())
    }
}

pub proof fn lemma_tree_map_dom(s: Seq<FsFile>, p: Seq<char>)
    ensures
        tree_map(s).dom().contains(p) <==> exists|i: int|
            0 <= i < s.len() && (#[trigger] s[i]).path@ == p,
    decreases s.len(),
{
    if s.len() > 0 {
        lemma_tree_map_dom(s.drop_last(), p);
        if tree_map(s).dom().contains(p) {
            if s.last().path@ != p {
                let i = choose|i: int|
                    0 <= i < s.drop_last().len() && (#[trigger] s.drop_last()[i]).path@ == p;
                assert(s[i].path@ == p);
            }
        }
        if exists|i: int| 0 <= i < s.len() && (#[trigger] s[i]).path@ == p {
            let i = choose|i: int| 0 <= i < s.len() && (#[trigger] s[i]).path@ == p;
            if i < s.len() - 1 {
                assert(s.drop_last()[i].path@ == p);
            }
        }
    }
}

pub proof fn lemma_tree_map_get(s: Seq<FsFile>, i: int)
    requires
        0 <= i < s.len(),
        forall|a: int, b: int|
            0 <= a < b < s.len() ==> (#[trigger] s[a]).path@ != (#[trigger] s[b]).path@,
    ensures
        tree_map(s).dom().contains(s[i].path@),
        tree_map(s)[s[i].path@] == s[i].rec(),
    decreases s.len(),
{
    if i < s.len() - 1 {
        assert(s.drop_last()[i] == s[i]);
        lemma_tree_map_get(s.drop_last(), i);
        assert(s[i].path@ != s.last().path@);
    }
}

pub proof fn lemma_tree_map_update(s: Seq<FsFile>, i: int, f: FsFile)
    requires
        0 <= i < s.len(),
        forall|a: int, b: int|
            0 <= a < b < s.len() ==> (#[trigger] s[a]).path@ != (#[trigger] s[b]).path@,
        f.path@ == s[i].path@,
    ensures
        tree_map(s.update(i, f)) == tree_map(s).insert(f.path@, f.rec()),
    decreases s.len(),
{
    if i == s.len() - 1 {
        assert(s.update(i, f).drop_last() =~= s.drop_last());
        assert(tree_map(s.update(i, f)) =~= tree_map(s).insert(f.path@, f.rec()));
    } else {
        assert(s.update(i, f).drop_last() =~= s.drop_last().update(i, f));
        lemma_tree_map_update(s.drop_last(), i, f);
        assert(s.update(i, f).last() == s.last());
        assert(s[i].path@ != s.last().path@);
        assert(tree_map(s.update(i, f)) =~= tree_map(s).insert(f.path@, f.rec()));
    }
}

/// An in-memory picture of a file tree: every entry under one base
/// directory, keyed by relative path.
#[derive(Clone, Debug)]
pub struct FsTree {
    pub entries: Vec<FsFile>,
}

impl FsTree {
    /// Distinct paths.
    pub open spec fn wf(self) -> bool {
        forall|a: int, b: int|
            0 <= a < b < self.entries@.len() ==> (#[trigger] self.entries@[a]).path@ != (
            #[trigger] self.entries@[b]).path@
    }

    /// Index of the entry at `path`, if any.
    pub fn find(&self, path: &str) -> (r: Option<usize>)
        ensures
            match r {
                Some(i) => i < self.entries@.len() && self.entries@[i as int].path@ == path@
                    && self@.dom().contains(path@),
                None => !self@.dom().contains(path@),
            },
    {
        let n = self.entries.len();
        let mut i: usize = 0;
        while i < n
            invariant
                n == self.entries@.len(),
                0 <= i <= n,
                forall|j: int| 0 <= j < i ==> (#[trigger] self.entries@[j]).path@ != path@,
            decreases n - i,
        {
            if str_eq(self.entries[i].path.as_str(), path) {
                proof {
                    lemma_tree_map_dom(self.entries@, path@);
                }
                return Some(i);
            }
            i += 1;
        }
        proof {
            lemma_tree_map_dom(self.entries@, path@);
        }
        None
    }

    /// Writes a plain file at `path`: the record there becomes `rec`,
    /// every other path keeps its record.
    pub fn set_file(&mut self, path: &str, kind: EntryKind, mtime: u64, content: Vec<u8>)
        requires
            old(self).wf(),
        ensures
            final(self).wf(),
            final(self)@ == old(self)@.insert(
                path@,
                FileRec { kind, mtime, content: content@ },
            ),
    {
        let f = FsFile { path: path.to_owned(), kind, mtime, content };
        match self.find(path) {
            Some(i) => {
                proof {
                    lemma_tree_map_update(self.entries@, i as int, f);
                }
                self.entries.set(i, f);
                proof {
                    assert forall|a: int, b: int|
                        0 <= a < b < self.entries@.len() implies (#[trigger] self.entries@[a]).path@
                        != (#[trigger] self.entries@[b]).path@ by {}
                }
            },
            None => {
                let ghost s0 = self.entries@;
                self.entries.push(f);
                proof {
                    assert(self.entries@.drop_last() =~= s0);
                    lemma_tree_map_dom(s0, f.path@);
                    assert forall|a: int, b: int|
                        0 <= a < b < self.entries@.len() implies (#[trigger] self.entries@[a]).path@
                        != (#[trigger] self.entries@[b]).path@ by {
                        if b == self.entries@.len() - 1 {
                            assert(s0[a] == self.entries@[a]);
                        } else {
                            assert(s0[a] == self.entries@[a] && s0[b] == self.entries@[b]);
                        }
                    }
                }
            },
        }
    }
}

impl View for FsTree {
    type V = Map<Seq<char>, FileRec>;

    open spec fn view(&self) -> Map<Seq<char>, FileRec> {
        tree_map(self.entries@)
    }
}

/// Whether a glob pattern text compiles.
pub uninterp spec fn glob_pat_ok(pat: Seq<char>) -> bool;

/// Whether a path matches a glob pattern; a function of the two strings
/// alone.
pub uninterp spec fn glob_match(pat: Seq<char>, path: Seq<char>) -> bool;

/// Relies on glob::Pattern::new: whether the pattern text compiles, which
/// depends on the text alone.
#[verifier::external_body]
fn glob_pat_check(pat: &str) -> (r: bool)
    ensures
        r == glob_pat_ok(pat@),
{
    glob::Pattern::new(pat).is_ok()
}

/// Relies on glob::Pattern::new and glob::Pattern::matches: whether `path`
/// matches the compiled pattern under the default match options, which
/// depends on the two strings alone.
#[verifier::external_body]
fn glob_match_str(pat: &str, path: &str) -> (r: bool)
    requires
        glob_pat_ok(pat@),
    ensures
        r == glob_match(pat@, path@),
{
    match glob::Pattern::new(pat) {
        Ok(p) => p.matches(path),
        Err(_) => false,
    }
}

/// Whether a path is shut out by the optional exclude pattern.
pub open spec fn excluded(exc: Option<Seq<char>>, p: Seq<char>) -> bool {
    match exc {
        Some(e) => glob_match(e, p),
        None => false,
    }
}

/// Whether a source record takes part in a pass: a plain file whose path
/// the include pattern matches and the exclude pattern does not.
pub open spec fn eligible(r: FileRec, p: Seq<char>, inc: Seq<char>, exc: Option<Seq<char>>) -> bool {
    r.kind == EntryKind::File && glob_match(inc, p) && !excluded(exc, p)
}

/// Whether a copy is due: forced, or the destination is missing, or the
/// source was modified strictly later.
pub open spec fn need_copy(
    r: FileRec,
    to: Map<Seq<char>, FileRec>,
    p: Seq<char>,
    force: bool,
) -> bool {
    force || !to.dom().contains(p) || r.mtime > to[p].mtime
}

/// The paths one directional pass copies.
pub open spec fn copy_set(
    from: Map<Seq<char>, FileRec>,
    to: Map<Seq<char>, FileRec>,
    inc: Seq<char>,
    exc: Option<Seq<char>>,
    force: bool,
) -> Set<Seq<char>> {
    from.dom().filter(|p: Seq<char>| eligible(from[p], p, inc, exc) && need_copy(from[p], to, p, force))
}

/// The destination tree after one directional pass: every copied path
/// carries the source record — the copy keeps the bytes and the
/// modification time — and every other path is untouched.
pub open spec fn sync_to(
    from: Map<Seq<char>, FileRec>,
    to: Map<Seq<char>, FileRec>,
    inc: Seq<char>,
    exc: Option<Seq<char>>,
    force: bool,
) -> Map<Seq<char>, FileRec> {
    Map::new(
        |p: Seq<char>| to.dom().contains(p) || copy_set(from, to, inc, exc, force).contains(p),
        |p: Seq<char>|
            if copy_set(from, to, inc, exc, force).contains(p) {
                from[p]
            } else {
                to[p]
            },
    )
}

/// How many files one directional pass copies.
pub open spec fn sync_count(
    from: Map<Seq<char>, FileRec>,
    to: Map<Seq<char>, FileRec>,
    inc: Seq<char>,
    exc: Option<Seq<char>>,
    force: bool,
) -> nat {
    copy_set(from, to, inc, exc, force).len()
}

/// Whether one file is to be copied, from the plain facts the decision
/// reads: the force flag, the source's modification time, and the
/// destination's, absent when the destination does not exist.
pub fn should_sync(force: bool, from_mtime: u64, to_mtime: Option<u64>) -> (r: bool)
    ensures
        r == (force || to_mtime is None || from_mtime > to_mtime.unwrap()),
{
    force || match to_mtime {
        None => true,
        Some(t) => from_mtime > t,
    }
}

fn clone_bytes(v: &Vec<u8>) -> (r: Vec<u8>)
    ensures
        r@ == v@,
{
    let n = v.len();
    let mut r: Vec<u8> = Vec::new();
    let mut i: usize = 0;
    while i < n
        invariant
            n == v@.len(),
            0 <= i <= n,
            r@ == v@.take(i as int),
        decreases n - i,
    {
        r.push(v[i]);
        proof {
            assert(v@.take(i + 1) =~= v@.take(i as int).push(v@[i as int]));
        }
        i += 1;
    }
    proof {
        assert(v@.take(n as int) =~= v@);
    }
    r
}

/// Why a pass failed.
#[derive(Clone, Copy, Debug, PartialEq, Eq, Structural)]
pub enum SyncError {
    /// A malformed include or exclude glob pattern.
    GlobPatternError,
}

/// One file of a pass. A directory or a symbolic link is skipped; a plain
/// file is copied when a copy is due, and the copy carries the source's
/// bytes and modification time.
pub fn sync_file(from: &FsTree, to: &mut FsTree, file_path: &str, force: bool) -> (updated: bool)
    requires
        from.wf(),
        old(to).wf(),
        from@.dom().contains(file_path@),
    ensures
        final(to).wf(),
        ({
            let r = from@[file_path@];
            if r.kind == EntryKind::File && need_copy(r, old(to)@, file_path@, force) {
                updated && final(to)@ == old(to)@.insert(file_path@, r)
            } else {
                !updated && final(to)@ == old(to)@
            }
        }),
{
    let i = match from.find(file_path) {
        Some(i) => i,
        None => {
            // the precondition puts the path in the source tree
            proof {
                assert(false);
            }
            return false;
        },
    };
    proof {
        lemma_tree_map_get(from.entries@, i as int);
    }
    let entry = &from.entries[i];
    match entry.kind {
        EntryKind::Dir | EntryKind::Symlink => {
            // directories are made as needed when files are copied, and
            // symbolic links are not synchronized
            return false;
        },
        EntryKind::File => {},
    }
    let to_mtime: Option<u64> = match to.find(file_path) {
        Some(j) => {
            proof {
                lemma_tree_map_get(to.entries@, j as int);
            }
            Some(to.entries[j].mtime)
        },
        None => None,
    };
    let do_copy = should_sync(force, entry.mtime, to_mtime);
    if do_copy {
        let bytes = clone_bytes(&entry.content);
        to.set_file(file_path, EntryKind::File, entry.mtime, bytes);
        proof {
            assert(from@[file_path@] == entry.rec());
        }
    }
    do_copy
}

/// The paths of the first `n` entries.
spec fn pset(s: Seq<FsFile>, n: int) -> Set<Seq<char>> {
    Set::new(|p: Seq<char>| exists|j: int| 0 <= j < n && j < s.len() && (#[trigger] s[j]).path@ == p)
}

/// The destination after the copies whose paths fall in `within`.
spec fn sync_to_within(
    from: Map<Seq<char>, FileRec>,
    to: Map<Seq<char>, FileRec>,
    inc: Seq<char>,
    exc: Option<Seq<char>>,
    force: bool,
    within: Set<Seq<char>>,
) -> Map<Seq<char>, FileRec> {
    Map::new(
        |p: Seq<char>| to.dom().contains(p) || (copy_set(from, to, inc, exc, force).contains(p)
            && within.contains(p)),
        |p: Seq<char>|
            if copy_set(from, to, inc, exc, force).contains(p) && within.contains(p) {
                from[p]
            } else {
                to[p]
            },
    )
}

/// One directional pass: every eligible file under the source tree whose
/// copy is due is copied to the destination tree, and the count of files
/// copied is returned. A malformed include or exclude pattern fails the
/// pass with the destination untouched. Both patterns are matched against
/// the paths relative to the trees' base directory: a caller that anchors
/// its patterns at the base hands them in unanchored here.
#[verifier::loop_isolation(false)]
pub fn sync(
    from: &FsTree,
    to: &mut FsTree,
    include_glob: &str,
    exclude_glob: &Option<String>,
    force: bool,
) -> (r: Result<usize, SyncError>)
    requires
        from.wf(),
        old(to).wf(),
    ensures
        final(to).wf(),
        match r {
            Ok(count) => {
                &&& glob_pat_ok(include_glob@)
                &&& match crate::config_file::opt_view(*exclude_glob) {
                    Some(ev) => glob_pat_ok(ev),
                    None => true,
                }
                &&& final(to)@ == sync_to(
                    from@,
                    old(to)@,
                    include_glob@,
                    crate::config_file::opt_view(*exclude_glob),
                    force,
                )
                &&& count == sync_count(
                    from@,
                    old(to)@,
                    include_glob@,
                    crate::config_file::opt_view(*exclude_glob),
                    force,
                )
            },
            Err(e) => {
                &&& e == SyncError::GlobPatternError
                &&& !(glob_pat_ok(include_glob@) && match crate::config_file::opt_view(
                    *exclude_glob,
                ) {
                    Some(ev) => glob_pat_ok(ev),
                    None => true,
                })
                &&& final(to)@ == old(to)@
            },
        },
{
    if !glob_pat_check(include_glob) {
        return Err(SyncError::GlobPatternError);
    }
    match exclude_glob {
        Some(e) => {
            if !glob_pat_check(e.as_str()) {
                return Err(SyncError::GlobPatternError);
            }
        },
        None => {},
    }
    let ghost from0 = from@;
    let ghost to0 = to@;
    let ghost inc = include_glob@;
    let ghost exc = crate::config_file::opt_view(*exclude_glob);
    let ghost cs = copy_set(from0, to0, inc, exc, force);
    let mut count: usize = 0;
    let ghost mut copied = Set::<Seq<char>>::empty();
    let n = from.entries.len();
    let mut i: usize = 0;
    proof {
        assert(copied =~= cs.intersect(pset(from.entries@, 0)));
        assert(to@ =~= sync_to_within(from0, to0, inc, exc, force, pset(from.entries@, 0)));
    }
    while i < n
        invariant
            0 <= i <= n,
            to.wf(),
            copied == cs.intersect(pset(from.entries@, i as int)),
            copied.finite(),
            count == copied.len(),
            count <= i,
            to@ == sync_to_within(from0, to0, inc, exc, force, pset(from.entries@, i as int)),
        decreases n - i,
    {
        let entry = &from.entries[i];
        let ghost p = entry.path@;
        proof {
            lemma_tree_map_get(from.entries@, i as int);
            assert(!pset(from.entries@, i as int).contains(p));
            assert(pset(from.entries@, i + 1) =~= pset(from.entries@, i as int).insert(p));
            // the pass so far has not touched this path
            assert(to@.dom().contains(p) == to0.dom().contains(p));
            if to0.dom().contains(p) {
                assert(to@[p] == to0[p]);
            }
        }
        let inc_match = glob_match_str(include_glob, entry.path.as_str());
        let exc_match = match exclude_glob {
            Some(e) => glob_match_str(e.as_str(), entry.path.as_str()),
            None => false,
        };
        if inc_match && !exc_match {
            let updated = sync_file(from, to, entry.path.as_str(), force);
            if updated {
                count += 1;
                proof {
                    assert(cs.contains(p));
                    vstd::set::axiom_set_insert_len(copied, p);
                    copied = copied.insert(p);
                    assert(copied =~= cs.intersect(pset(from.entries@, i + 1)));
                    assert(to@ =~= sync_to_within(
                        from0,
                        to0,
                        inc,
                        exc,
                        force,
                        pset(from.entries@, i + 1),
                    ));
                }
            } else {
                proof {
                    assert(!cs.contains(p));
                    assert(copied =~= cs.intersect(pset(from.entries@, i + 1)));
                    assert(to@ =~= sync_to_within(
                        from0,
                        to0,
                        inc,
                        exc,
                        force,
                        pset(from.entries@, i + 1),
                    ));
                }
            }
        } else {
            proof {
                assert(!cs.contains(p));
                assert(copied =~= cs.intersect(pset(from.entries@, i + 1)));
                assert(to@ =~= sync_to_within(
                    from0,
                    to0,
                    inc,
                    exc,
                    force,
                    pset(from.entries@, i + 1),
                ));
            }
        }
        i += 1;
    }
    proof {
        assert forall|q: Seq<char>| cs.contains(q) implies pset(
            from.entries@,
            n as int,
        ).contains(q) by {
            lemma_tree_map_dom(from.entries@, q);
        }
        assert(copied =~= cs);
        assert(to@ =~= sync_to(from0, to0, inc, exc, force));
    }
    Ok(count)
}

/// What one run does with each configuration.
#[derive(Clone, Copy, Debug, PartialEq, Eq, Structural)]
pub enum Command {
    /// Both directions in turn, pull first; the force flag is not honored.
    Sync,
    /// Origin to linked, overwriting linked files.
    Pull,
    /// Linked to origin, overwriting origin files.
    Push,
}

/// Whether the include pattern and the optional exclude pattern both
/// compile.
pub open spec fn patterns_ok(inc: Seq<char>, exc: Option<Seq<char>>) -> bool {
    glob_pat_ok(inc) && match exc {
        Some(ev) => glob_pat_ok(ev),
        None => true,
    }
}

/// One configuration under one command. Pull is one pass origin to
/// linked and push one pass linked to origin, both honoring the force
/// flag; sync is a pull and then a push, neither forced, so that the
/// pass copying a file one way never makes the other way copy it back.
/// Returned are the files pulled and the files pushed.
pub fn run_config(
    cmd: &Command,
    origin: &mut FsTree,
    linked: &mut FsTree,
    include_glob: &str,
    exclude_glob: &Option<String>,
    force: bool,
) -> (r: Result<(usize, usize), SyncError>)
    requires
        old(origin).wf(),
        old(linked).wf(),
    ensures
        final(origin).wf(),
        final(linked).wf(),
        ({
            let inc = include_glob@;
            let exc = crate::config_file::opt_view(*exclude_glob);
            match r {
                Ok(counts) => patterns_ok(inc, exc) && match *cmd {
                    Command::Pull => {
                        &&& final(linked)@ == sync_to(old(origin)@, old(linked)@, inc, exc, force)
                        &&& final(origin)@ == old(origin)@
                        &&& counts.0 == sync_count(old(origin)@, old(linked)@, inc, exc, force)
                        &&& counts.1 == 0
                    },
                    Command::Push => {
                        &&& final(origin)@ == sync_to(old(linked)@, old(origin)@, inc, exc, force)
                        &&& final(linked)@ == old(linked)@
                        &&& counts.0 == 0
                        &&& counts.1 == sync_count(old(linked)@, old(origin)@, inc, exc, force)
                    },
                    Command::Sync => {
                        let l1 = sync_to(old(origin)@, old(linked)@, inc, exc, false);
                        &&& final(linked)@ == l1
                        &&& final(origin)@ == sync_to(l1, old(origin)@, inc, exc, false)
                        &&& counts.0 == sync_count(old(origin)@, old(linked)@, inc, exc, false)
                        &&& counts.1 == sync_count(l1, old(origin)@, inc, exc, false)
                    },
                },
                Err(e) => {
                    &&& e == SyncError::GlobPatternError
                    &&& !patterns_ok(inc, exc)
                    &&& final(origin)@ == old(origin)@
                    &&& final(linked)@ == old(linked)@
                },
            }
        }),
{
    match cmd {
        Command::Pull => {
            let count = sync(origin, linked, include_glob, exclude_glob, force)?;
            Ok((count, 0))
        },
        Command::Push => {
            let count = sync(linked, origin, include_glob, exclude_glob, force)?;
            Ok((0, count))
        },
        Command::Sync => {
            let pulled = sync(origin, linked, include_glob, exclude_glob, false)?;
            let pushed = match sync(linked, origin, include_glob, exclude_glob, false) {
                Ok(c) => c,
                Err(e) => {
                    // the pull already checked both patterns
                    proof {
                        assert(false);
                    }
                    return Err(e);
                },
            };
            Ok((pulled, pushed))
        },
    }
}

/// `s` with its leading component cut off: everything up to, but not
/// including, the next `/`.
pub open spec fn skip_comp(s: Seq<char>) -> Seq<char>
    decreases s.len(),
{
    if s.len() == 0 || s[0] == '/' {
        s
    } else {
        skip_comp(s.skip(1))
    }
}

proof fn lemma_skip_comp_len(s: Seq<char>)
    requires
        s.len() > 0,
        s[0] != '/',
    ensures
        skip_comp(s).len() < s.len(),
    decreases s.len(),
{
    let t = s.skip(1);
    if t.len() > 0 && t[0] != '/' {
        lemma_skip_comp_len(t);
    } else {
        assert(skip_comp(t) == t);
    }
    assert(skip_comp(s) == skip_comp(t));
}

/// The path after its first `n` components, with the separators before
/// and between them dropped.
pub open spec fn skip_components(s: Seq<char>, n: nat) -> Seq<char>
    decreases s.len(),
    via skip_components_dec
{
    if s.len() == 0 {
        s
    } else if s[0] == '/' {
        skip_components(s.skip(1), n)
    } else if n == 0 {
        s
    } else {
        skip_components(skip_comp(s), (n - 1) as nat)
    }
}

#[via_fn]
proof fn skip_components_dec(s: Seq<char>, n: nat) {
    if s.len() > 0 && s[0] != '/' && n > 0 {
        lemma_skip_comp_len(s);
    }
}

/// How many components a path has: its maximal runs of characters other
/// than `/`.
pub open spec fn count_components(s: Seq<char>) -> nat
    decreases s.len(),
    via count_components_dec
{
    if s.len() == 0 {
        0
    } else if s[0] == '/' {
        count_components(s.skip(1))
    } else {
        1 + count_components(skip_comp(s))
    }
}

#[via_fn]
proof fn count_components_dec(s: Seq<char>) {
    if s.len() > 0 && s[0] != '/' {
        lemma_skip_comp_len(s);
    }
}

/// How many leading components trimming cuts off: as many as the base
/// path has, one fewer when the base denotes a file rather than a
/// directory.
pub open spec fn trim_count(base: Seq<char>, base_is_file: bool) -> nat {
    if base_is_file {
        (count_components(base) - 1) as nat
    } else {
        count_components(base)
    }
}

/// The number of components of a path.
#[verifier::loop_isolation(false)]
pub fn count_path_components(s: &str) -> (r: usize)
    ensures
        r == count_components(s@),
{
    let len = s.unicode_len();
    let mut i: usize = 0;
    let mut cnt: usize = 0;
    proof {
        assert(s@.skip(0) =~= s@);
    }
    while i < len
        invariant
            0 <= i <= len,
            cnt <= i,
            count_components(s@) == cnt + count_components(s@.skip(i as int)),
        decreases len - i,
    {
        if s.get_char(i) == '/' {
            proof {
                assert(s@.skip(i as int).skip(1) =~= s@.skip(i + 1));
            }
            i += 1;
        } else {
            cnt += 1;
            let ghost i0 = i as int;
            proof {
                assert(s@.skip(i0)[0] != '/');
            }
            while i < len && s.get_char(i) != '/'
                invariant
                    i0 <= i <= len,
                    skip_comp(s@.skip(i0)) == skip_comp(s@.skip(i as int)),
                decreases len - i,
            {
                proof {
                    assert(s@.skip(i as int)[0] != '/');
                    assert(s@.skip(i as int).skip(1) =~= s@.skip(i + 1));
                }
                i += 1;
            }
            proof {
                if i < len {
                    assert(s@.skip(i as int)[0] == '/');
                }
                assert(skip_comp(s@.skip(i as int)) == s@.skip(i as int));
            }
        }
    }
    proof {
        assert(s@.skip(len as int) =~= Seq::<char>::empty());
    }
    cnt
}

/// The path relative to the base: the full path with as many leading
/// components cut off as the base path has — one fewer when the base
/// itself denotes a file — and the separators around them dropped.
#[verifier::loop_isolation(false)]
pub fn trim_base_path(full_path: &str, base_path: &str, base_is_file: bool) -> (r: String)
    requires
        base_is_file ==> count_components(base_path@) >= 1,
    ensures
        r@ == skip_components(full_path@, trim_count(base_path@, base_is_file)),
{
    let mut n = count_path_components(base_path);
    if base_is_file {
        n -= 1;
    }
    let len = full_path.unicode_len();
    let mut i: usize = 0;
    let mut k = n;
    proof {
        assert(full_path@.skip(0) =~= full_path@);
    }
    while i < len && (k > 0 || full_path.get_char(i) == '/')
        invariant
            0 <= i <= len,
            k <= n,
            skip_components(full_path@.skip(i as int), k as nat) == skip_components(
                full_path@,
                n as nat,
            ),
        decreases len - i,
    {
        if full_path.get_char(i) == '/' {
            proof {
                assert(full_path@.skip(i as int).skip(1) =~= full_path@.skip(i + 1));
            }
            i += 1;
        } else {
            let ghost i0 = i as int;
            proof {
                assert(full_path@.skip(i0)[0] != '/');
            }
            while i < len && full_path.get_char(i) != '/'
                invariant
                    i0 <= i <= len,
                    skip_comp(full_path@.skip(i0)) == skip_comp(full_path@.skip(i as int)),
                decreases len - i,
            {
                proof {
                    assert(full_path@.skip(i as int)[0] != '/');
                    assert(full_path@.skip(i as int).skip(1) =~= full_path@.skip(i + 1));
                }
                i += 1;
            }
            proof {
                if i < len {
                    assert(full_path@.skip(i as int)[0] == '/');
                }
                assert(skip_comp(full_path@.skip(i as int)) == full_path@.skip(i as int));
            }
            k -= 1;
        }
    }
    proof {
        if i == len {
            assert(full_path@.skip(i as int) =~= Seq::<char>::empty());
        }
        assert(skip_components(full_path@.skip(i as int), k as nat) == full_path@.skip(i as int));
    }
    full_path.substring_char(i, len).to_owned()
}

} // verus!
