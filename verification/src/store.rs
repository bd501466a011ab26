//! The file reference store: an insertion-ordered collection of distinct
//! paths, each carrying a display name and a monotonically increasing order
//! value. The store itself never touches the disk: callers answer the disk
//! questions (does the path exist, what does a directory hold) and hand the
//! answers in as plain values.

use vstd::prelude::*;
use vstd::string::*;
use crate::paths::file_name;
use crate::paths::file_name_of;
use crate::paths::is_path_prefix;
use crate::paths::path_starts_with;
use crate::paths::rel_to;
use crate::paths::relative_name;

verus! {

/// One tracked file: its path, the name shown for it, and its insertion
/// order.
#[derive(Debug, Clone)]
pub struct FileReference {
    pub path: String,
    pub display_name: String,
    pub order: usize,
}

impl FileReference {
    pub fn new(path: String, display_name: String, order: usize) -> (r: FileReference)
        ensures
            r.path == path,
            r.display_name == display_name,
            r.order == order,
    {
        FileReference { path, display_name, order }
    }
}

/// Why a store operation was refused.
#[derive(Debug, Clone)]
pub enum StoreError {
    /// `add_file`: the path is already tracked.
    Duplicate,
    /// `add_file`: the path does not exist on disk.
    NotFound,
    /// `add_directory`: the path is not a directory.
    NotADirectory,
    /// `add_directory`: the walk of the tree failed; the message says how.
    Io(String),
}

/// The descriptive text reported for each error.
pub open spec fn message_of(e: StoreError) -> Seq<char> {
    match e {
        StoreError::Duplicate => "File already in prompt"@,
        StoreError::NotFound => "File does not exist"@,
        StoreError::NotADirectory => "Path is not a directory"@,
        StoreError::Io(m) => m@,
    }
}

impl StoreError {
    /// The error as caller-facing text.
    pub fn message(&self) -> (r: String)
        ensures
            r@ == message_of(*self),
    {
        match self {
            StoreError::Duplicate => "File already in prompt".to_owned(),
            StoreError::NotFound => "File does not exist".to_owned(),
            StoreError::NotADirectory => "Path is not a directory".to_owned(),
            StoreError::Io(m) => m.clone(),
        }
    }
}

/// Pairwise-distinct paths and strictly increasing order values, all of
/// them below `next`.
pub open spec fn entries_wf(s: Seq<FileReference>, next: nat) -> bool {
    &&& forall|i: int, j: int| 0 <= i < j < s.len() ==> s[i].path@ != s[j].path@
    &&& forall|i: int, j: int| 0 <= i < j < s.len() ==> s[i].order < s[j].order
    &&& forall|i: int| 0 <= i < s.len() ==> s[i].order < next
}

/// The file paths of `files` that a depth-first directory add keeps: those
/// neither tracked in `already` nor repeated earlier in `files`.
pub open spec fn fresh_paths(already: Seq<Seq<char>>, files: Seq<Seq<char>>) -> Seq<Seq<char>>
    decreases files.len(),
{
    if files.len() == 0 {
        Seq::empty()
    } else {
        let rest = fresh_paths(already, files.drop_last());
        if already.contains(files.last()) || rest.contains(files.last()) {
            rest
        } else {
            rest.push(files.last())
        }
    }
}

/// The views of a sequence of strings.
pub open spec fn views_of(v: Seq<String>) -> Seq<Seq<char>> {
    v.map_values(|s: String| s@)
}

/// The paths of a sequence of references, in the same order.
pub open spec fn paths_of(s: Seq<FileReference>) -> Seq<Seq<char>> {
    s.map_values(|f: FileReference| f.path@)
}

/// What `remove_file` keeps: every entry whose path is not the given one.
pub open spec fn keeps_path(p: Seq<char>) -> spec_fn(FileReference) -> bool {
    |f: FileReference| f.path@ != p
}

/// What `remove_directory` keeps: every entry whose path lies outside the
/// given directory.
pub open spec fn keeps_outside(dir: Seq<char>) -> spec_fn(FileReference) -> bool {
    |f: FileReference| !is_path_prefix(dir, f.path@)
}

proof fn lemma_contains_concat<A>(a: Seq<A>, b: Seq<A>, x: A)
    ensures
        (a + b).contains(x) <==> (a.contains(x) || b.contains(x)),
{
    if a.contains(x) {
        let j = choose|j: int| 0 <= j < a.len() && a[j] == x;
        assert((a + b)[j] == x);
    }
    if b.contains(x) {
        let j = choose|j: int| 0 <= j < b.len() && b[j] == x;
        assert((a + b)[a.len() + j] == x);
    }
    if (a + b).contains(x) {
        let j = choose|j: int| 0 <= j < (a + b).len() && (a + b)[j] == x;
        if j < a.len() {
            assert(a[j] == x);
        } else {
            assert(b[j - a.len()] == x);
        }
    }
}

/// A directory walk over wholly new, pairwise-distinct file paths keeps
/// every one of them: nothing is skipped.
pub proof fn lemma_fresh_paths_all_new(already: Seq<Seq<char>>, files: Seq<Seq<char>>)
    requires
        forall|k: int| 0 <= k < files.len() ==> !already.contains(#[trigger] files[k]),
        forall|k1: int, k2: int| 0 <= k1 < k2 < files.len() ==> files[k1] != files[k2],
    ensures
        fresh_paths(already, files) == files,
    decreases files.len(),
{
    if files.len() == 0 {
        assert(fresh_paths(already, files) =~= files);
    } else {
        let pre = files.drop_last();
        assert(forall|k: int| 0 <= k < pre.len() ==> pre[k] == files[k]);
        lemma_fresh_paths_all_new(already, pre);
        assert(!already.contains(files.last()));
        assert(!pre.contains(files.last())) by {
            if pre.contains(files.last()) {
                let j = choose|j: int| 0 <= j < pre.len() && pre[j] == files.last();
                assert(files[j] == files[files.len() - 1]);
            }
        }
        assert(fresh_paths(already, files) =~= files);
    }
}

/// The collected prompt state: the tracked file references and the next
/// order value to hand out.
#[derive(Debug, Clone)]
pub struct PromptState {
    file_contexts: Vec<FileReference>,
    next_order: usize,
}

/// The file reference store.
#[derive(Debug, Clone)]
pub struct PromptBuilder {
    state: PromptState,
}

impl PromptBuilder {
    /// The tracked references, in insertion order.
    pub closed spec fn refs(self) -> Seq<FileReference> {
        self.state.file_contexts@
    }

    /// The order value the next added entry receives.
    pub closed spec fn next_order(self) -> nat {
        self.state.next_order as nat
    }

    /// The tracked paths, in insertion order.
    pub open spec fn paths(self) -> Seq<Seq<char>> {
        paths_of(self.refs())
    }

    /// Whether a path is already tracked.
    pub open spec fn has(self, p: Seq<char>) -> bool {
        self.paths().contains(p)
    }

    /// The store invariant: no two entries share a path, and order values
    /// increase strictly in insertion order, all below the counter.
    pub open spec fn wf(self) -> bool {
        entries_wf(self.refs(), self.next_order())
    }

    /// An empty store whose first entry will receive order value 0.
    pub fn new() -> (r: PromptBuilder)
        ensures
            r.refs().len() == 0,
            r.next_order() == 0,
            r.wf(),
    {
        PromptBuilder { state: PromptState { file_contexts: Vec::new(), next_order: 0 } }
    }

    /// Whether `path` is already tracked, by a scan over the entries.
    fn has_path(&self, path: &String) -> (b: bool)
        ensures
            b == self.has(path@),
    {
        let n = self.state.file_contexts.len();
        let mut i: usize = 0;
        while i < n
            invariant
                i <= n,
                n == self.refs().len(),
                forall|k: int| 0 <= k < i ==> self.refs()[k].path@ != path@,
            decreases n - i,
        {
            if self.state.file_contexts[i].path == *path {
                proof {
                    assert(self.paths()[i as int] == path@);
                }
                return true;
            }
            i = i + 1;
        }
        proof {
            assert(forall|k: int| 0 <= k < self.paths().len() ==> self.paths()[k] != path@);
        }
        false
    }

    /// Tracks a single file. `exists_on_disk` is the caller's answer to
    /// whether `path` currently exists on disk. The new entry is shown
    /// under its final path component and receives the next order value.
    pub fn add_file(&mut self, path: String, exists_on_disk: bool) -> (r: Result<
        (),
        StoreError,
    >)
        requires
            old(self).wf(),
            old(self).next_order() < usize::MAX,
        ensures
            final(self).wf(),
            r is Ok <==> (!old(self).has(path@) && exists_on_disk),
            old(self).has(path@) ==> r == Err::<(), StoreError>(StoreError::Duplicate),
            !old(self).has(path@) && !exists_on_disk ==> r == Err::<(), StoreError>(
                StoreError::NotFound,
            ),
            r is Err ==> final(self).refs() == old(self).refs() && final(self).next_order()
                == old(self).next_order(),
            r is Ok ==> {
                &&& final(self).refs().len() == old(self).refs().len() + 1
                &&& final(self).refs().drop_last() == old(self).refs()
                &&& final(self).refs().last().path@ == path@
                &&& final(self).refs().last().display_name@ == file_name_of(path@)
                &&& final(self).refs().last().order == old(self).next_order()
                &&& final(self).next_order() == old(self).next_order() + 1
            },
    {
        if self.has_path(&path) {
            return Err(StoreError::Duplicate);
        }
        if !exists_on_disk {
            return Err(StoreError::NotFound);
        }
        let ghost old_refs = self.refs();
        let display_name = file_name(path.as_str());
        let order = self.state.next_order;
        let ghost p_view = path@;
        self.state.file_contexts.push(FileReference { path, display_name, order });
        self.state.next_order = order + 1;
        proof {
            assert(self.refs().drop_last() =~= old_refs);
            assert forall|k: int| 0 <= k < old_refs.len() implies old_refs[k].path@ != p_view by {
                if old_refs[k].path@ == p_view {
                    assert(old(self).paths()[k] == p_view);
                }
            }
        }
        Ok(())
    }

    /// Tracks every file of a directory walk. `is_dir` is the caller's
    /// answer to whether `dir_path` names a directory; `walk` is the
    /// caller's depth-first listing of the file paths under it, or else the
    /// message of the directory read that failed. Already-tracked paths are
    /// silently skipped; each kept file is shown under its path relative to
    /// `dir_path` and receives the next order value, in walk order. On any
    /// error the store is left unchanged.
    pub fn add_directory(
        &mut self,
        dir_path: String,
        is_dir: bool,
        walk: Result<Vec<String>, String>,
    ) -> (r: Result<usize, StoreError>)
        requires
            old(self).wf(),
            walk is Ok ==> old(self).next_order() + walk->Ok_0@.len() <= usize::MAX,
        ensures
            final(self).wf(),
            r is Ok <==> (is_dir && walk is Ok),
            !is_dir ==> r == Err::<usize, StoreError>(StoreError::NotADirectory),
            is_dir && walk is Err ==> r == Err::<usize, StoreError>(
                StoreError::Io(walk->Err_0),
            ),
            r is Err ==> final(self).refs() == old(self).refs() && final(self).next_order()
                == old(self).next_order(),
            is_dir && walk is Ok ==> ({
                let fr = fresh_paths(old(self).paths(), views_of(walk->Ok_0@));
                &&& r == Ok::<usize, StoreError>(fr.len() as usize)
                &&& final(self).refs().len() == old(self).refs().len() + fr.len()
                &&& (forall|k: int|
                    0 <= k < old(self).refs().len() ==> final(self).refs()[k] == old(
                        self,
                    ).refs()[k])
                &&& (forall|k: int|
                    0 <= k < fr.len() ==> final(self).refs()[old(self).refs().len() + k].path@
                        == fr[k])
                &&& (forall|k: int|
                    0 <= k < fr.len() ==> final(self).refs()[old(
                        self,
                    ).refs().len() + k].display_name@ == rel_to(dir_path@, fr[k]))
                &&& (forall|j: int|
                    old(self).refs().len() <= j < final(self).refs().len() ==> (
                    #[trigger] final(self).refs()[j]).order == old(self).next_order() + j - old(
                        self,
                    ).refs().len())
                &&& final(self).next_order() == old(self).next_order() + fr.len()
            }),
    {
        if !is_dir {
            return Err(StoreError::NotADirectory);
        }
        let files = match walk {
            Ok(fs) => fs,
            Err(m) => {
                return Err(StoreError::Io(m));
            },
        };
        let ghost paths0 = self.paths();
        let ghost refs0 = self.refs();
        let ghost next0 = self.next_order();
        let ghost fviews = views_of(files@);
        let n = files.len();
        let mut added: usize = 0;
        let mut i: usize = 0;
        while i < n
            invariant
                i <= n,
                added <= i,
                n == files@.len(),
                fviews == views_of(files@),
                paths0 == paths_of(refs0),
                entries_wf(refs0, next0),
                next0 + n <= usize::MAX,
                self.next_order() == next0,
                entries_wf(self.refs(), (next0 + added) as nat),
                added == fresh_paths(paths0, fviews.take(i as int)).len(),
                self.refs().len() == refs0.len() + added,
                forall|k: int| 0 <= k < refs0.len() ==> self.refs()[k] == refs0[k],
                forall|k: int|
                    0 <= k < added ==> self.refs()[refs0.len() + k].path@ == fresh_paths(
                        paths0,
                        fviews.take(i as int),
                    )[k],
                forall|k: int|
                    0 <= k < added ==> self.refs()[refs0.len() + k].display_name@ == rel_to(
                        dir_path@,
                        fresh_paths(paths0, fviews.take(i as int))[k],
                    ),
                forall|j: int|
                    refs0.len() <= j < self.refs().len() ==> (#[trigger] self.refs()[j]).order
                        == next0 + j - refs0.len(),
                self.paths() == paths0 + fresh_paths(paths0, fviews.take(i as int)),
            decreases n - i,
        {
            let ghost fr_i = fresh_paths(paths0, fviews.take(i as int));
            let ghost fr_n = fresh_paths(paths0, fviews.take(i as int + 1));
            let p = &files[i];
            proof {
                assert(fviews.take(i as int + 1).drop_last() =~= fviews.take(i as int));
                assert(fviews.take(i as int + 1).last() == p@);
                lemma_contains_concat(paths0, fr_i, p@);
            }
            let present = self.has_path(p);
            if !present {
                proof {
                    assert(fr_n =~= fr_i.push(p@));
                }
                let display_name = relative_name(p.as_str(), dir_path.as_str());
                let order = self.state.next_order + added;
                let path2 = p.clone();
                let ghost refs_before = self.refs();
                let fnew = FileReference { path: path2, display_name, order };
                let ghost gnew = fnew;
                self.state.file_contexts.push(fnew);
                added = added + 1;
                proof {
                    assert(paths0.len() == refs0.len());
                    assert(refs_before.len() == refs0.len() + fr_i.len());
                    assert(self.refs() == refs_before.push(gnew));
                    assert(self.refs().len() == refs_before.len() + 1);
                    assert(self.paths().len() == self.refs().len());
                    assert forall|k: int| 0 <= k < refs_before.len() implies refs_before[k].path@
                        != p@ by {
                        assert((paths0 + fr_i)[k] == refs_before[k].path@);
                    }
                    assert(fr_n.len() == fr_i.len() + 1);
                    assert forall|k: int|
                        0 <= k < paths0.len() + fr_n.len() implies #[trigger] self.paths()[k] == (
                        paths0 + fr_n)[k] by {
                        if k < refs_before.len() {
                            assert(self.refs()[k] == refs_before[k]);
                            assert((paths0 + fr_i)[k] == refs_before[k].path@);
                            assert((paths0 + fr_n)[k] == (paths0 + fr_i)[k]);
                        } else {
                            assert(self.refs()[k] == gnew);
                            assert((paths0 + fr_n)[k] == fr_n[k - paths0.len()]);
                            assert(fr_n[k - paths0.len()] == p@);
                        }
                    }
                    assert(self.paths() =~= paths0 + fr_n);
                }
            } else {
                proof {
                    assert(fr_n =~= fr_i);
                }
            }
            i = i + 1;
        }
        proof {
            assert(fviews.take(n as int) =~= fviews);
        }
        self.state.next_order = self.state.next_order + added;
        Ok(added)
    }

    /// Drops the entry whose path equals `path` exactly, if any; a no-op
    /// otherwise. All other entries and the order counter stay untouched.
    pub fn remove_file(&mut self, path: &String)
        requires
            old(self).wf(),
        ensures
            final(self).wf(),
            final(self).refs() == old(self).refs().filter(keeps_path(path@)),
            final(self).next_order() == old(self).next_order(),
    {
        let mut source: Vec<FileReference> = Vec::new();
        core::mem::swap(&mut source, &mut self.state.file_contexts);
        let ghost orig = source@;
        let ghost next = self.next_order();
        proof {
            reveal(Seq::filter);
            assert(orig.take(0).filter(keeps_path(path@)) =~= self.refs());
            assert(orig.skip(0) =~= orig);
        }
        let n = source.len();
        let mut i: usize = 0;
        while i < n
            invariant
                i <= n,
                n == orig.len(),
                next == self.next_order(),
                source@ == orig.skip(i as int),
                self.refs() == orig.take(i as int).filter(keeps_path(path@)),
                entries_wf(orig, next),
                entries_wf(self.refs(), next),
                forall|k: int|
                    0 <= k < self.refs().len() ==> exists|j: int|
                        0 <= j < i && #[trigger] self.refs()[k] == orig[j],
            decreases n - i,
        {
            let f = source.remove(0);
            let ghost gf = f;
            proof {
                assert(gf == orig[i as int]);
                assert(source@ =~= orig.skip(i as int + 1));
                assert(orig.take(i as int + 1).drop_last() =~= orig.take(i as int));
                assert(orig.take(i as int + 1).last() == gf);
            }
            let keep = !(f.path == *path);
            if keep {
                let ghost refs_b = self.refs();
                self.state.file_contexts.push(f);
                proof {
                    reveal(Seq::filter);
                    assert(keeps_path(path@)(gf));
                    assert(self.refs() =~= orig.take(i as int + 1).filter(keeps_path(path@)));
                    assert forall|k: int| 0 <= k < refs_b.len() implies refs_b[k].order
                        < gf.order && refs_b[k].path@ != gf.path@ by {
                        let j = choose|j: int| 0 <= j < i && #[trigger] refs_b[k] == orig[j];
                        assert(orig[j].order < orig[i as int].order);
                    }
                    assert forall|k: int| 0 <= k < self.refs().len() implies exists|j: int|
                        0 <= j < i + 1 && #[trigger] self.refs()[k] == orig[j] by {
                        if k < refs_b.len() {
                            let j = choose|j: int| 0 <= j < i && #[trigger] refs_b[k] == orig[j];
                            assert(self.refs()[k] == orig[j]);
                        } else {
                            assert(self.refs()[k] == orig[i as int]);
                        }
                    }
                }
            } else {
                proof {
                    reveal(Seq::filter);
                    assert(!keeps_path(path@)(gf));
                    assert(self.refs() =~= orig.take(i as int + 1).filter(keeps_path(path@)));
                }
            }
            i = i + 1;
        }
        proof {
            assert(orig.take(n as int) =~= orig);
        }
    }

    /// Drops every entry whose path lies under the directory `dir_path`,
    /// segment-wise; entries outside it and the order counter stay
    /// untouched.
    pub fn remove_directory(&mut self, dir_path: &String)
        requires
            old(self).wf(),
        ensures
            final(self).wf(),
            final(self).refs() == old(self).refs().filter(keeps_outside(dir_path@)),
            final(self).next_order() == old(self).next_order(),
    {
        let mut source: Vec<FileReference> = Vec::new();
        core::mem::swap(&mut source, &mut self.state.file_contexts);
        let ghost orig = source@;
        let ghost next = self.next_order();
        proof {
            reveal(Seq::filter);
            assert(orig.take(0).filter(keeps_outside(dir_path@)) =~= self.refs());
            assert(orig.skip(0) =~= orig);
        }
        let n = source.len();
        let mut i: usize = 0;
        while i < n
            invariant
                i <= n,
                n == orig.len(),
                next == self.next_order(),
                source@ == orig.skip(i as int),
                self.refs() == orig.take(i as int).filter(keeps_outside(dir_path@)),
                entries_wf(orig, next),
                entries_wf(self.refs(), next),
                forall|k: int|
                    0 <= k < self.refs().len() ==> exists|j: int|
                        0 <= j < i && #[trigger] self.refs()[k] == orig[j],
            decreases n - i,
        {
            let f = source.remove(0);
            let ghost gf = f;
            proof {
                assert(gf == orig[i as int]);
                assert(source@ =~= orig.skip(i as int + 1));
                assert(orig.take(i as int + 1).drop_last() =~= orig.take(i as int));
                assert(orig.take(i as int + 1).last() == gf);
            }
            let keep = !path_starts_with(f.path.as_str(), dir_path.as_str());
            if keep {
                let ghost refs_b = self.refs();
                self.state.file_contexts.push(f);
                proof {
                    reveal(Seq::filter);
                    assert(keeps_outside(dir_path@)(gf));
                    assert(self.refs() =~= orig.take(i as int + 1).filter(
                        keeps_outside(dir_path@),
                    ));
                    assert forall|k: int| 0 <= k < refs_b.len() implies refs_b[k].order
                        < gf.order && refs_b[k].path@ != gf.path@ by {
                        let j = choose|j: int| 0 <= j < i && #[trigger] refs_b[k] == orig[j];
                        assert(orig[j].order < orig[i as int].order);
                    }
                    assert forall|k: int| 0 <= k < self.refs().len() implies exists|j: int|
                        0 <= j < i + 1 && #[trigger] self.refs()[k] == orig[j] by {
                        if k < refs_b.len() {
                            let j = choose|j: int| 0 <= j < i && #[trigger] refs_b[k] == orig[j];
                            assert(self.refs()[k] == orig[j]);
                        } else {
                            assert(self.refs()[k] == orig[i as int]);
                        }
                    }
                }
            } else {
                proof {
                    reveal(Seq::filter);
                    assert(!keeps_outside(dir_path@)(gf));
                    assert(self.refs() =~= orig.take(i as int + 1).filter(
                        keeps_outside(dir_path@),
                    ));
                }
            }
            i = i + 1;
        }
        proof {
            assert(orig.take(n as int) =~= orig);
        }
    }

    /// The store side of one selection toggle, as the surrounding
    /// application dispatches it: ticking a regular file adds it, ticking a
    /// directory adds its walk, unticking removes the file or every entry
    /// under the directory, and anything else is a no-op. `is_file`,
    /// `is_dir` and `walk` are the caller's disk answers; a ticked regular
    /// file exists by that very answer. Errors of the underlying adds are
    /// discarded, as the dispatching caller does.
    pub fn apply_toggle(
        &mut self,
        path: String,
        selected: bool,
        is_file: bool,
        is_dir: bool,
        walk: Result<Vec<String>, String>,
    )
        requires
            old(self).wf(),
            selected && is_file ==> old(self).next_order() < usize::MAX,
            selected && !is_file && is_dir && walk is Ok ==> old(self).next_order()
                + walk->Ok_0@.len() <= usize::MAX,
        ensures
            final(self).wf(),
            selected && is_file && old(self).has(path@) ==> final(self).refs() == old(
                self,
            ).refs() && final(self).next_order() == old(self).next_order(),
            selected && is_file && !old(self).has(path@) ==> {
                &&& final(self).refs().len() == old(self).refs().len() + 1
                &&& final(self).refs().drop_last() == old(self).refs()
                &&& final(self).refs().last().path@ == path@
                &&& final(self).refs().last().display_name@ == file_name_of(path@)
                &&& final(self).refs().last().order == old(self).next_order()
                &&& final(self).next_order() == old(self).next_order() + 1
            },
            selected && !is_file && is_dir && walk is Ok ==> ({
                let fr = fresh_paths(old(self).paths(), views_of(walk->Ok_0@));
                &&& final(self).refs().len() == old(self).refs().len() + fr.len()
                &&& (forall|k: int|
                    0 <= k < old(self).refs().len() ==> final(self).refs()[k] == old(
                        self,
                    ).refs()[k])
                &&& (forall|k: int|
                    0 <= k < fr.len() ==> final(self).refs()[old(self).refs().len() + k].path@
                        == fr[k])
                &&& final(self).next_order() == old(self).next_order() + fr.len()
            }),
            selected && !is_file && is_dir && walk is Err ==> final(self).refs() == old(
                self,
            ).refs() && final(self).next_order() == old(self).next_order(),
            !selected && is_file ==> final(self).refs() == old(self).refs().filter(
                keeps_path(path@),
            ) && final(self).next_order() == old(self).next_order(),
            !selected && !is_file && is_dir ==> final(self).refs() == old(self).refs().filter(
                keeps_outside(path@),
            ) && final(self).next_order() == old(self).next_order(),
            !is_file && !is_dir ==> final(self).refs() == old(self).refs()
                && final(self).next_order() == old(self).next_order(),
    {
        if selected {
            if is_file {
                let _ = self.add_file(path, true);
            } else if is_dir {
                let _ = self.add_directory(path, true, walk);
            }
        } else {
            if is_file {
                self.remove_file(&path);
            } else if is_dir {
                self.remove_directory(&path);
            }
        }
    }

    /// Empties the store and resets the order counter to zero.
    pub fn clear(&mut self)
        ensures
            final(self).refs().len() == 0,
            final(self).next_order() == 0,
            final(self).wf(),
    {
        self.state.file_contexts.clear();
        self.state.next_order = 0;
    }

    /// The tracked references, in insertion order.
    pub fn get_files(&self) -> (r: &Vec<FileReference>)
        ensures
            r@ == self.refs(),
    {
        &self.state.file_contexts
    }

    /// How many files are tracked.
    pub fn file_count(&self) -> (n: usize)
        ensures
            n == self.refs().len(),
    {
        self.state.file_contexts.len()
    }

    /// The order value the next added entry will receive.
    pub fn next_order_value(&self) -> (n: usize)
        ensures
            n == self.next_order(),
    {
        self.state.next_order
    }

    /// How many entries the caller found readable. `readable` answers, per
    /// entry in insertion order, whether its path currently exists on disk
    /// and is a regular file; the partition is the caller's to recompute on
    /// every call, since the disk may change between calls.
    pub fn readable_files_count(&self, readable: &Vec<bool>) -> (n: usize)
        requires
            readable@.len() == self.refs().len(),
        ensures
            n == count_true(readable@),
    {
        let m = readable.len();
        let mut n: usize = 0;
        let mut i: usize = 0;
        while i < m
            invariant
                i <= m,
                m == readable@.len(),
                n == count_true(readable@.take(i as int)),
                n <= i,
            decreases m - i,
        {
            proof {
                assert(readable@.take(i as int + 1).drop_last() =~= readable@.take(i as int));
            }
            if readable[i] {
                n = n + 1;
            }
            i = i + 1;
        }
        proof {
            assert(readable@.take(m as int) =~= readable@);
        }
        n
    }

    /// How many entries the caller found unreadable: the complement of
    /// `readable_files_count` over the same flags.
    pub fn unreadable_files_count(&self, readable: &Vec<bool>) -> (n: usize)
        requires
            readable@.len() == self.refs().len(),
        ensures
            n == readable@.len() - count_true(readable@),
    {
        let m = readable.len();
        let mut n: usize = 0;
        let mut i: usize = 0;
        while i < m
            invariant
                i <= m,
                m == readable@.len(),
                n + count_true(readable@.take(i as int)) == i,
                n <= i,
            decreases m - i,
        {
            proof {
                assert(readable@.take(i as int + 1).drop_last() =~= readable@.take(i as int));
                lemma_count_true_bounds(readable@.take(i as int));
            }
            if !readable[i] {
                n = n + 1;
            }
            i = i + 1;
        }
        proof {
            assert(readable@.take(m as int) =~= readable@);
        }
        n
    }
}

/// How many of the flags are set.
pub open spec fn count_true(s: Seq<bool>) -> int
    decreases s.len(),
{
    if s.len() == 0 {
        0
    } else {
        count_true(s.drop_last()) + if s.last() {
            1int
        } else {
            0int
        }
    }
}

/// The set flags are never fewer than none nor more than all.
pub proof fn lemma_count_true_bounds(s: Seq<bool>)
    ensures
        0 <= count_true(s) <= s.len(),
    decreases s.len(),
{
    if s.len() > 0 {
        lemma_count_true_bounds(s.drop_last());
    }
}

/// Partition law: however the per-entry readability flags fall, the
/// readable and the unreadable counts sum to the file count.
pub proof fn lemma_readable_unreadable_partition(s: PromptBuilder, readable: Seq<bool>)
    requires
        readable.len() == s.refs().len(),
    ensures
        count_true(readable) + (readable.len() - count_true(readable)) == s.refs().len(),
        0 <= count_true(readable) <= readable.len(),
{
    lemma_count_true_bounds(readable);
}

/// No two entries of a well-formed store ever share a path, whatever
/// sequence of adds and removes produced it.
pub proof fn lemma_paths_distinct(s: PromptBuilder)
    requires
        s.wf(),
    ensures
        forall|i: int, j: int|
            0 <= i < j < s.refs().len() ==> s.refs()[i].path@ != s.refs()[j].path@,
{
}

/// Order values increase strictly in insertion order and all lie below the
/// counter, so a removed and re-added path always receives a fresh, larger
/// order value: order values are never reused.
pub proof fn lemma_orders_strictly_increase(s: PromptBuilder)
    requires
        s.wf(),
    ensures
        forall|i: int, j: int|
            0 <= i < j < s.refs().len() ==> s.refs()[i].order < s.refs()[j].order,
        forall|i: int| 0 <= i < s.refs().len() ==> s.refs()[i].order < s.next_order(),
{
}

} // verus!
