//! Which files make up a mimas project, decided from facts about the file system that the caller
//! gathers.
use vstd::prelude::*;
use vstd::string::StrSliceExecFns;

verus! {

/// A native the compiler lowers to its own instruction instead of a call.
#[derive(Debug, Copy, Clone, PartialEq, Eq, Structural)]
pub enum Intrinsic {
    Len,
    In,
    Push,
    ToFloat,
    Sqrt,
    File,
}

/// Whether a host type is an enum or a struct.
#[derive(Debug, Copy, Clone, PartialEq, Eq, Structural)]
pub enum ApiAdtKind {
    Enum,
    Struct,
}

/// Where a file sits in a mimas project: the folder the project starts at, whether the folders
/// below it belong to the project, and the cargo package that folder is in.
#[derive(Debug, Clone)]
pub struct Project {
    pub root: String,
    pub recursive: bool,
    pub package: Option<String>,
}

/// What the caller found out about one ancestor folder of a path (the folder itself first, then
/// each parent up to the file system root).
#[derive(Debug, Clone)]
pub struct Ancestor {
    pub path: String,
    /// The folder directly holds a `.mim` file.
    pub holds_mim: bool,
    /// The folder holds a cargo package (a `Cargo.toml` with a `[package]` line).
    pub package: bool,
    /// The folder holds a `.git`.
    pub git: bool,
}

/// One entry of a walk of the project's root folder.
#[derive(Debug, Clone)]
pub struct Walked {
    pub path: String,
    pub name: String,
    pub is_file: bool,
}

/// The project of a path, as its root folder, whether it is recursive, and its package folder:
/// scanning the ancestors from `i` on, with `root` the highest folder holding a `.mim` so far.
pub open spec fn scan_project(
    dir: Seq<char>,
    file: bool,
    anc: Seq<Ancestor>,
    i: int,
    root: Seq<char>,
) -> (Seq<char>, bool, Option<Seq<char>>)
    decreases anc.len() - i,
{
    if i < 0 || i >= anc.len() {
        (dir, !file, None)
    } else {
        let a = anc[i];
        let root2 = if file && a.holds_mim {
            a.path@
        } else {
            root
        };
        if a.package || a.git {
            (root2, true, if a.package {
                Some(a.path@)
            } else {
                None
            })
        } else {
            scan_project(dir, file, anc, i + 1, root2)
        }
    }
}

/// Ancestor `i` ends the climb: it holds a cargo package or a git repository.
pub open spec fn stops(anc: Seq<Ancestor>, i: int) -> bool {
    anc[i].package || anc[i].git
}

/// No ancestor from `i` up to (not including) `j` ends the climb.
pub open spec fn open_between(anc: Seq<Ancestor>, i: int, j: int) -> bool {
    forall|q: int| i <= q < j ==> !stops(anc, q)
}

/// Scanning from ancestor `i` on: the project is recursive exactly for a folder or when some
/// ancestor ends the climb; its package is the first ancestor ending the climb, when that one
/// is a package; and for a file its root is the highest folder holding a `.mim` below that
/// point (or the root so far when there is none), for a folder the root so far.
pub proof fn lemma_scan_project(dir: Seq<char>, file: bool, anc: Seq<Ancestor>, i: int, root: Seq<char>)
    requires
        0 <= i <= anc.len(),
    ensures
        scan_project(dir, file, anc, i, root).1 == (!file || exists|j: int| i <= j < anc.len() && #[trigger] stops(anc, j)),
        scan_project(dir, file, anc, i, root).2 is Some ==> exists|j: int|
            i <= j < anc.len() && #[trigger] stops(anc, j) && open_between(anc, i, j) && anc[j].package
                && scan_project(dir, file, anc, i, root).2->0 == anc[j].path@,
        (exists|j: int| i <= j < anc.len() && #[trigger] stops(anc, j) && open_between(anc, i, j) && anc[j].package)
            ==> scan_project(dir, file, anc, i, root).2 is Some,
        (forall|j: int| i <= j < anc.len() ==> !#[trigger] stops(anc, j)) ==> scan_project(dir, file, anc, i, root) == (
            dir,
            !file,
            None::<Seq<char>>,
        ),
        (exists|j: int| i <= j < anc.len() && #[trigger] stops(anc, j)) ==> {
            let r = scan_project(dir, file, anc, i, root).0;
            ||| r == root && forall|q: int| i <= q < anc.len() && file && #[trigger] anc[q].holds_mim ==> !open_between(anc, i, q)
            ||| exists|m: int|
                i <= m < anc.len() && file && #[trigger] anc[m].holds_mim && r == anc[m].path@ && open_between(anc, i, m)
                    && forall|q: int| m < q < anc.len() && #[trigger] anc[q].holds_mim ==> !open_between(anc, i, q)
        },
    decreases anc.len() - i,
{
    if i < anc.len() {
        let a = anc[i];
        let root2 = if file && a.holds_mim { a.path@ } else { root };
        if stops(anc, i) {
            assert(open_between(anc, i, i));
            assert forall|q: int| i < q < anc.len() implies !open_between(anc, i, q) by {
                assert(stops(anc, i));
            }
            if file && a.holds_mim {
                assert(anc[i].holds_mim);
            } else {
                assert forall|q: int| i <= q < anc.len() && file && #[trigger] anc[q].holds_mim implies !open_between(anc, i, q) by {
                    if q > i {
                        assert(stops(anc, i));
                    }
                }
            }
            assert forall|j: int| i <= j < anc.len() && #[trigger] stops(anc, j) && open_between(anc, i, j) implies j == i by {
                if j > i {
                    assert(!stops(anc, i));
                }
            }
        } else {
            lemma_scan_project(dir, file, anc, i + 1, root2);
            assert forall|j: int| i + 1 <= j <= anc.len() implies open_between(anc, i, j) == open_between(anc, i + 1, j) by {
                if open_between(anc, i + 1, j) {
                    assert forall|q: int| i <= q < j implies !stops(anc, q) by {
                        if q > i {
                            assert(!stops(anc, q));
                        }
                    }
                }
            }
            if exists|j: int| i <= j < anc.len() && #[trigger] stops(anc, j) {
                let j = choose|j: int| i <= j < anc.len() && #[trigger] stops(anc, j);
                assert(j > i);
                assert(i + 1 <= j < anc.len() && stops(anc, j));
                let r = scan_project(dir, file, anc, i, root).0;
                if file && a.holds_mim && r == root2 && forall|q: int|
                    i + 1 <= q < anc.len() && file && #[trigger] anc[q].holds_mim ==> !open_between(anc, i + 1, q) {
                    assert(anc[i].holds_mim && open_between(anc, i, i));
                    assert forall|q: int| i < q < anc.len() && #[trigger] anc[q].holds_mim implies !open_between(anc, i, q) by {
                        assert(open_between(anc, i, q) == open_between(anc, i + 1, q));
                    }
                } else if r == root2 && forall|q: int|
                    i + 1 <= q < anc.len() && file && #[trigger] anc[q].holds_mim ==> !open_between(anc, i + 1, q) {
                    assert forall|q: int| i <= q < anc.len() && file && #[trigger] anc[q].holds_mim implies !open_between(anc, i, q) by {
                        if q > i {
                            assert(open_between(anc, i, q) == open_between(anc, i + 1, q));
                        }
                    }
                } else {
                    let m = choose|m: int|
                        i + 1 <= m < anc.len() && file && #[trigger] anc[m].holds_mim && r == anc[m].path@ && open_between(anc, i + 1, m)
                            && forall|q: int| m < q < anc.len() && #[trigger] anc[q].holds_mim ==> !open_between(anc, i + 1, q);
                    assert(open_between(anc, i, m) == open_between(anc, i + 1, m));
                    assert forall|q: int| m < q < anc.len() && #[trigger] anc[q].holds_mim implies !open_between(anc, i, q) by {
                        assert(open_between(anc, i, q) == open_between(anc, i + 1, q));
                    }
                }
            }
        }
    }
}

/// The project of a path (what [`Project::of`] returns, scanning its ancestors from the path's
/// own folder): recursive exactly for a folder or when the climb stops at a cargo package or a
/// git repository, whether or not a package was found; its package is the folder that stops
/// the climb when that folder is a package; a folder's root is the folder itself; with nothing
/// stopping the climb, a file's project is its own folder alone.
pub proof fn lemma_project_of(dir: Seq<char>, file: bool, anc: Seq<Ancestor>)
    ensures
        scan_project(dir, file, anc, 0, dir).1 == (!file || exists|j: int| 0 <= j < anc.len() && #[trigger] stops(anc, j)),
        scan_project(dir, file, anc, 0, dir).2 is Some ==> exists|j: int|
            0 <= j < anc.len() && #[trigger] stops(anc, j) && open_between(anc, 0, j) && anc[j].package
                && scan_project(dir, file, anc, 0, dir).2->0 == anc[j].path@,
        (exists|j: int| 0 <= j < anc.len() && #[trigger] stops(anc, j) && open_between(anc, 0, j) && anc[j].package)
            ==> scan_project(dir, file, anc, 0, dir).2 is Some,
        !file ==> scan_project(dir, file, anc, 0, dir).0 == dir,
        (forall|j: int| 0 <= j < anc.len() ==> !#[trigger] stops(anc, j)) ==> scan_project(dir, file, anc, 0, dir) == (
            dir,
            !file,
            None::<Seq<char>>,
        ),
{
    lemma_scan_project(dir, file, anc, 0, dir);
    if !file {
        lemma_scan_root_folder(dir, anc, 0, dir);
    }
}

proof fn lemma_scan_root_folder(dir: Seq<char>, anc: Seq<Ancestor>, i: int, root: Seq<char>)
    requires
        0 <= i <= anc.len(),
        root == dir,
    ensures
        scan_project(dir, false, anc, i, root).0 == dir,
    decreases anc.len() - i,
{
    if i < anc.len() && !stops(anc, i) {
        lemma_scan_root_folder(dir, anc, i + 1, root);
    }
}

/// A file name with the extension `mim`: something before a last `.`, and `mim` after it.
pub open spec fn mim_name(name: Seq<char>) -> bool {
    name.len() >= 5 && name.subrange(name.len() - 4, name.len() as int) == seq!['.', 'm', 'i', 'm']
}

/// Whether a file name has the extension `mim`.
pub fn is_mim(name: &str) -> (b: bool)
    ensures
        b == mim_name(name@),
{
    let n = name.unicode_len();
    if n < 5 {
        return false;
    }
    let ok = name.get_char(n - 4) == '.' && name.get_char(n - 3) == 'm' && name.get_char(n - 2) == 'i'
        && name.get_char(n - 1) == 'm';
    proof {
        let tail = name@.subrange(n - 4, n as int);
        if ok {
            assert(tail =~= seq!['.', 'm', 'i', 'm']);
        } else {
            if tail == seq!['.', 'm', 'i', 'm'] {
                assert(tail[0] == name@[n - 4]);
                assert(tail[1] == name@[n - 3]);
                assert(tail[2] == name@[n - 2]);
                assert(tail[3] == name@[n - 1]);
            }
        }
    }
    ok
}

/// Whether a walk goes into an entry: the root itself, anything that isn't a folder, and any
/// folder below the root that holds neither another cargo package nor a cargo target dir.
pub fn enters(depth: usize, is_dir: bool, package: bool, target_dir: bool) -> (b: bool)
    ensures
        b == (depth == 0 || !is_dir || !(package || target_dir)),
{
    depth == 0 || !is_dir || !(package || target_dir)
}

/// The paths of `s`, as text.
pub open spec fn path_views(s: Seq<String>) -> Seq<Seq<char>> {
    s.map_values(|p: String| p@)
}

/// The paths of a list, in the order paths sort in (component by component).
pub uninterp spec fn sorted_paths(paths: Seq<Seq<char>>) -> Seq<Seq<char>>;

/// Path `a` comes no later than path `b` in `std::path::Path`'s order (component by component;
/// what a component is depends on the platform).
pub uninterp spec fn path_le(a: Seq<char>, b: Seq<char>) -> bool;

/// Sorts paths the way `std::path::Path` orders them, with `slice::sort_by` and `Path::cmp`:
/// the result is a rearrangement of the paths, each no later than the next in `Path`'s order.
#[verifier::external_body]
fn sort_paths(paths: &mut Vec<String>)
    ensures
        path_views(final(paths)@) == sorted_paths(path_views(old(paths)@)),
        final(paths)@.len() == old(paths)@.len(),
        forall|p: String| final(paths)@.contains(p) <==> old(paths)@.contains(p),
        path_views(final(paths)@).to_multiset() == path_views(old(paths)@).to_multiset(),
        forall|i: int, j: int|
            0 <= i < j < final(paths)@.len() ==> path_le(#[trigger] final(paths)@[i]@, #[trigger] final(paths)@[j]@),
{
    paths.sort_by(|a, b| std::path::Path::new(a).cmp(std::path::Path::new(b)));
}

/// The `.mim` files among walked entries, in walk order.
pub open spec fn mim_files(walked: Seq<Walked>) -> Seq<Seq<char>>
    decreases walked.len(),
{
    if walked.len() == 0 {
        Seq::empty()
    } else {
        let rest = mim_files(walked.drop_last());
        let w = walked.last();
        if w.is_file && mim_name(w.name@) {
            rest.push(w.path@)
        } else {
            rest
        }
    }
}

impl Project {
    /// The project of a path: `dir` is the path itself for a folder, or the folder a file is in;
    /// `ancestors` describes `dir` and each folder above it, nearest first. A folder is a
    /// project root as given, with everything below it. A file's project is the highest folder
    /// holding a `.mim` in the cargo package or repository the file is in, with everything
    /// below it. Outside both, it's the file's own folder alone.
    pub fn of(dir: String, file: bool, ancestors: &Vec<Ancestor>) -> (p: Project)
        ensures
            (p.root@, p.recursive, match p.package {
                Some(s) => Some(s@),
                None => None::<Seq<char>>,
            }) == scan_project(dir@, file, ancestors@, 0, dir@),
    {
        let mut root = dir.clone();
        let mut i: usize = 0;
        while i < ancestors.len()
            invariant
                i <= ancestors@.len(),
                scan_project(dir@, file, ancestors@, 0, dir@) == scan_project(dir@, file, ancestors@, i as int, root@),
            decreases ancestors@.len() - i,
        {
            let a = &ancestors[i];
            if file && a.holds_mim {
                root = a.path.clone();
            }
            if a.package || a.git {
                let package = if a.package {
                    Some(a.path.clone())
                } else {
                    None
                };
                return Project { root, recursive: true, package };
            }
            i += 1;
        }
        Project { root: dir, recursive: !file, package: None }
    }

    /// How deep a walk of the project goes: everything below the root, or only its own entries.
    pub fn max_depth(&self) -> (d: usize)
        ensures
            d == if self.recursive {
                usize::MAX
            } else {
                1
            },
    {
        if self.recursive {
            usize::MAX
        } else {
            1
        }
    }

    /// Every `.mim` file of a walk of the project (one that went only where [`enters`] allows,
    /// to [`Project::max_depth`]), sorted by path.
    pub fn files(&self, walked: &Vec<Walked>) -> (files: Vec<String>)
        ensures
            path_views(files@) == sorted_paths(mim_files(walked@)),
            path_views(files@).to_multiset() == mim_files(walked@).to_multiset(),
            forall|i: int, j: int| 0 <= i < j < files@.len() ==> path_le(#[trigger] files@[i]@, #[trigger] files@[j]@),
    {
        let mut files: Vec<String> = Vec::new();
        let mut i: usize = 0;
        while i < walked.len()
            invariant
                i <= walked@.len(),
                path_views(files@) == mim_files(walked@.take(i as int)),
            decreases walked@.len() - i,
        {
            let w = &walked[i];
            proof {
                assert(walked@.take(i + 1).drop_last() =~= walked@.take(i as int));
                assert(walked@.take(i + 1).last() == *w);
            }
            if w.is_file && is_mim(w.name.as_str()) {
                files.push(w.path.clone());
                assert(path_views(files@) =~= path_views(files@.drop_last()).push(w.path@));
            }
            i += 1;
        }
        assert(walked@.take(i as int) =~= walked@);
        sort_paths(&mut files);
        files
    }
}

} // verus!
