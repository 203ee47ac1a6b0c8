use vstd::prelude::*;

use crate::paths::{is_below, lies_below, str_eq};

verus! {

/// The paths of a list of strings, as a set.
pub open spec fn path_set(v: Seq<String>) -> Set<Seq<char>> {
    Set::new(|p: Seq<char>| exists|i: int| 0 <= i < v.len() && v[i]@ == p)
}

/// What is on disk, as far as the engines look: the regular files and the directories.
pub struct DiskState {
    pub files: Set<Seq<char>>,
    pub dirs: Set<Seq<char>>,
}

impl DiskState {
    /// Something, file or directory, stands at `p`.
    pub open spec fn occupied(self, p: Seq<char>) -> bool {
        self.files.contains(p) || self.dirs.contains(p)
    }

    /// Some file or directory lies below the directory `dir`.
    pub open spec fn has_entries_below(self, dir: Seq<char>) -> bool {
        (exists|p: Seq<char>| self.files.contains(p) && is_below(dir, p)) || (exists|p: Seq<char>|
            self.dirs.contains(p) && is_below(dir, p))
    }
}

/// A snapshot of the part of the file system that the engines read.
pub struct DiskView {
    files: Vec<String>,
    dirs: Vec<String>,
}

/// A change to the file system.
pub enum FsOp {
    /// Create a directory, with its parents where they are missing.
    CreateDirAll(String),
    /// Copy the file at the first path to the second, replacing what is there.
    Copy(String, String),
    /// Remove a regular file.
    RemoveFile(String),
    /// Remove an empty directory.
    RemoveDir(String),
}

/// The mathematical value of an [`FsOp`].
pub enum OpSpec {
    CreateDirAll(Seq<char>),
    Copy(Seq<char>, Seq<char>),
    RemoveFile(Seq<char>),
    RemoveDir(Seq<char>),
}

impl View for FsOp {
    type V = OpSpec;

    open spec fn view(&self) -> OpSpec {
        match self {
            FsOp::CreateDirAll(p) => OpSpec::CreateDirAll(p@),
            FsOp::Copy(a, b) => OpSpec::Copy(a@, b@),
            FsOp::RemoveFile(p) => OpSpec::RemoveFile(p@),
            FsOp::RemoveDir(p) => OpSpec::RemoveDir(p@),
        }
    }
}

/// The views of a list of operations.
pub open spec fn ops_view(ops: Seq<FsOp>) -> Seq<OpSpec> {
    ops.map_values(|o: FsOp| o@)
}

/// The state after `op` has been carried out on `d`.
pub open spec fn apply_op(d: DiskState, op: OpSpec) -> DiskState {
    match op {
        OpSpec::CreateDirAll(p) => DiskState { dirs: d.dirs.insert(p), ..d },
        OpSpec::Copy(_, to) => DiskState { files: d.files.insert(to), ..d },
        OpSpec::RemoveFile(p) => DiskState { files: d.files.remove(p), ..d },
        OpSpec::RemoveDir(p) => DiskState { dirs: d.dirs.remove(p), ..d },
    }
}

/// The state after the operations have been carried out on `d`, in order.
pub open spec fn apply_ops(d: DiskState, ops: Seq<OpSpec>) -> DiskState
    decreases ops.len(),
{
    if ops.len() == 0 {
        d
    } else {
        apply_op(apply_ops(d, ops.drop_last()), ops.last())
    }
}

proof fn lemma_path_set_push(v: Seq<String>, s: String)
    ensures
        path_set(v.push(s)) == path_set(v).insert(s@),
{
    assert forall|p: Seq<char>| path_set(v.push(s)).contains(p) implies path_set(v).insert(
        s@,
    ).contains(p) by {
        let i = choose|i: int| 0 <= i < v.push(s).len() && v.push(s)[i]@ == p;
        if i < v.len() {
            assert(v[i]@ == p);
        }
    }
    assert forall|p: Seq<char>| path_set(v).insert(s@).contains(p) implies path_set(
        v.push(s),
    ).contains(p) by {
        if p == s@ {
            assert(v.push(s)[v.len() as int]@ == p);
        } else {
            let i = choose|i: int| 0 <= i < v.len() && v[i]@ == p;
            assert(v.push(s)[i]@ == p);
        }
    }
    assert(path_set(v.push(s)) =~= path_set(v).insert(s@));
}

fn contains_path(v: &Vec<String>, p: &str) -> (r: bool)
    ensures
        r == path_set(v@).contains(p@),
{
    let mut i: usize = 0;
    while i < v.len()
        invariant
            i <= v@.len(),
            forall|j: int| 0 <= j < i ==> v@[j]@ != p@,
        decreases v@.len() - i,
    {
        if str_eq(v[i].as_str(), p) {
            return true;
        }
        i = i + 1;
    }
    false
}

fn without_path(v: &Vec<String>, p: &str) -> (r: Vec<String>)
    ensures
        path_set(r@) == path_set(v@).remove(p@),
{
    let mut r: Vec<String> = Vec::new();
    let mut i: usize = 0;
    while i < v.len()
        invariant
            i <= v@.len(),
            path_set(r@) == path_set(v@.subrange(0, i as int)).remove(p@),
        decreases v@.len() - i,
    {
        assert(v@.subrange(0, i + 1) == v@.subrange(0, i as int).push(v@[i as int]));
        proof {
            lemma_path_set_push(v@.subrange(0, i as int), v@[i as int]);
        }
        if !str_eq(v[i].as_str(), p) {
            proof {
                lemma_path_set_push(r@, v@[i as int]);
            }
            r.push(v[i].clone());
        }
        i = i + 1;
    }
    assert(v@.subrange(0, v@.len() as int) == v@);
    assert(path_set(r@) =~= path_set(v@).remove(p@));
    r
}

fn any_below(v: &Vec<String>, dir: &str) -> (r: bool)
    ensures
        r == exists|p: Seq<char>| path_set(v@).contains(p) && is_below(dir@, p),
{
    let mut i: usize = 0;
    while i < v.len()
        invariant
            i <= v@.len(),
            forall|j: int| 0 <= j < i ==> !is_below(dir@, #[trigger] v@[j]@),
        decreases v@.len() - i,
    {
        if lies_below(dir, v[i].as_str()) {
            assert(path_set(v@).contains(v@[i as int]@));
            return true;
        }
        i = i + 1;
    }
    false
}

impl View for DiskView {
    type V = DiskState;

    closed spec fn view(&self) -> DiskState {
        DiskState { files: path_set(self.files@), dirs: path_set(self.dirs@) }
    }
}

impl DiskView {
    /// A snapshot with nothing in it.
    pub fn new() -> (r: DiskView)
        ensures
            r@.files == Set::<Seq<char>>::empty(),
            r@.dirs == Set::<Seq<char>>::empty(),
    {
        let r = DiskView { files: Vec::new(), dirs: Vec::new() };
        assert(r@.files =~= Set::<Seq<char>>::empty());
        assert(r@.dirs =~= Set::<Seq<char>>::empty());
        r
    }

    /// Records a regular file at `path`.
    pub fn add_file(&mut self, path: String)
        ensures
            final(self)@ == (DiskState { files: old(self)@.files.insert(path@), ..old(self)@ }),
    {
        proof {
            lemma_path_set_push(self.files@, path);
        }
        self.files.push(path);
    }

    /// Records a directory at `path`.
    pub fn add_dir(&mut self, path: String)
        ensures
            final(self)@ == (DiskState { dirs: old(self)@.dirs.insert(path@), ..old(self)@ }),
    {
        proof {
            lemma_path_set_push(self.dirs@, path);
        }
        self.dirs.push(path);
    }

    /// Whether a regular file stands at `path`.
    pub fn has_file(&self, path: &str) -> (r: bool)
        ensures
            r == self@.files.contains(path@),
    {
        contains_path(&self.files, path)
    }

    /// Whether a directory stands at `path`.
    pub fn has_dir(&self, path: &str) -> (r: bool)
        ensures
            r == self@.dirs.contains(path@),
    {
        contains_path(&self.dirs, path)
    }

    /// Whether anything stands at `path`.
    pub fn is_occupied(&self, path: &str) -> (r: bool)
        ensures
            r == self@.occupied(path@),
    {
        self.has_file(path) || self.has_dir(path)
    }

    /// Whether anything lies below the directory `dir`.
    pub fn has_entries_below(&self, dir: &str) -> (r: bool)
        ensures
            r == self@.has_entries_below(dir@),
    {
        any_below(&self.files, dir) || any_below(&self.dirs, dir)
    }

    /// The regular files below the directory `dir`.
    pub fn files_below(&self, dir: &str) -> (r: Vec<String>)
        ensures
            path_set(r@) == self@.files.filter(|p: Seq<char>| is_below(dir@, p)),
    {
        let mut r: Vec<String> = Vec::new();
        let mut i: usize = 0;
        while i < self.files.len()
            invariant
                i <= self.files@.len(),
                path_set(r@) == path_set(self.files@.subrange(0, i as int)).filter(
                    |p: Seq<char>| is_below(dir@, p),
                ),
            decreases self.files@.len() - i,
        {
            let ghost v = self.files@;
            assert(v.subrange(0, i + 1) == v.subrange(0, i as int).push(v[i as int]));
            proof {
                lemma_path_set_push(v.subrange(0, i as int), v[i as int]);
            }
            if lies_below(dir, self.files[i].as_str()) {
                proof {
                    lemma_path_set_push(r@, v[i as int]);
                }
                r.push(self.files[i].clone());
            }
            i = i + 1;
            assert(path_set(r@) =~= path_set(v.subrange(0, i as int)).filter(
                |p: Seq<char>| is_below(dir@, p),
            ));
        }
        assert(self.files@.subrange(0, self.files@.len() as int) == self.files@);
        r
    }

    /// Carries `op` out on the snapshot.
    pub fn apply(&mut self, op: &FsOp)
        ensures
            final(self)@ == apply_op(old(self)@, op@),
    {
        match op {
            FsOp::CreateDirAll(p) => {
                if !self.has_dir(p.as_str()) {
                    self.add_dir(p.clone());
                } else {
                    assert(self@.dirs.insert(p@) =~= self@.dirs);
                }
            },
            FsOp::Copy(_, to) => {
                if !self.has_file(to.as_str()) {
                    self.add_file(to.clone());
                } else {
                    assert(self@.files.insert(to@) =~= self@.files);
                }
            },
            FsOp::RemoveFile(p) => {
                self.files = without_path(&self.files, p.as_str());
            },
            FsOp::RemoveDir(p) => {
                self.dirs = without_path(&self.dirs, p.as_str());
            },
        }
    }
}

} // verus!
