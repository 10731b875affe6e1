//! The filesystem seam: open a file for reading, list a directory's
//! entries one at a time, and probe what a path resolves to. Each
//! operation is fallible. The traits carry contracts over an abstract
//! file map and directory map; [`MemFs`] is the deterministic
//! in-memory implementation used by tests, and the process around the
//! library supplies an OS-backed one.

use vstd::prelude::*;
use vstd::slice::slice_to_vec;

verus! {

/// A failed filesystem operation; no detail is carried.
#[derive(Clone, Copy, Debug, PartialEq, Eq, Structural)]
pub struct FsError;

/// What a path resolves to.
#[derive(Clone, Copy, Debug, PartialEq, Eq, Structural)]
pub enum PathKind {
    Directory,
    RegularFile,
    Missing,
}

/// What a path resolves to under the two maps: a directory wins over
/// a file of the same name.
pub open spec fn spec_classify(
    dirs: Map<Seq<u8>, Seq<Seq<u8>>>,
    files: Map<Seq<u8>, Seq<u8>>,
    path: Seq<u8>,
) -> PathKind {
    if dirs.contains_key(path) {
        PathKind::Directory
    } else if files.contains_key(path) {
        PathKind::RegularFile
    } else {
        PathKind::Missing
    }
}

/// A whole-file read handle.
pub trait File: Sized {
    /// The bytes the handle will yield.
    spec fn bytes(&self) -> Seq<u8>;

    /// Reads the whole file.
    fn read_to_end(&mut self) -> (r: Vec<u8>)
        ensures
            r@ == old(self).bytes(),
            final(self).bytes() == old(self).bytes(),
    ;
}

/// A sequential directory-entry producer, ended by `Ok(None)`.
pub trait Dir: Sized {
    /// The entry names the producer walks, in order.
    spec fn entries(&self) -> Seq<Seq<u8>>;

    /// How many entries have been produced.
    spec fn pos(&self) -> int;

    /// Whether the producer never fails; an OS-backed one may.
    spec fn reliable(&self) -> bool;

    /// Produces the next entry name, or `Ok(None)` at the end. A
    /// reliable producer never returns an error.
    fn get_next(&mut self) -> (r: Result<Option<Vec<u8>>, FsError>)
        requires
            0 <= old(self).pos() <= old(self).entries().len(),
        ensures
            final(self).entries() == old(self).entries(),
            final(self).reliable() == old(self).reliable(),
            match r {
                Ok(Some(name)) => old(self).pos() < old(self).entries().len() && name@ == old(
                    self,
                ).entries()[old(self).pos()] && final(self).pos() == old(self).pos() + 1,
                Ok(None) => old(self).pos() == old(self).entries().len() && final(self).pos()
                    == old(self).pos(),
                Err(_) => !old(self).reliable() && final(self).pos() == old(self).pos(),
            },
    ;
}

/// The filesystem as the router and detector see it.
pub trait FileSystemInterface: Sized {
    type FileHandle: File;

    type DirHandle: Dir;

    /// The implementation's own well-formedness; callers establish it
    /// once at construction.
    spec fn inv(&self) -> bool;

    /// The regular files, by path.
    spec fn files(&self) -> Map<Seq<u8>, Seq<u8>>;

    /// The directories, by path, each with its entry names in the
    /// order they are produced.
    spec fn dirs(&self) -> Map<Seq<u8>, Seq<Seq<u8>>>;

    /// Whether every operation succeeds on present paths; an
    /// OS-backed implementation may fail anywhere.
    spec fn reliable(&self) -> bool;

    /// Opens a file for reading.
    fn get_file(&self, path: &Vec<u8>) -> (r: Result<Self::FileHandle, FsError>)
        requires
            self.inv(),
        ensures
            match r {
                Ok(f) => self.files().contains_key(path@) && f.bytes() == self.files()[path@],
                Err(_) => !self.reliable() || !self.files().contains_key(path@),
            },
    ;

    /// Opens a directory for listing.
    fn get_dir(&self, path: &Vec<u8>) -> (r: Result<Self::DirHandle, FsError>)
        requires
            self.inv(),
        ensures
            match r {
                Ok(d) => self.dirs().contains_key(path@) && d.entries() == self.dirs()[path@]
                    && d.pos() == 0 && d.reliable() == self.reliable(),
                Err(_) => !self.reliable() || !self.dirs().contains_key(path@),
            },
    ;

    /// Probes what a path resolves to.
    fn classify(&self, path: &Vec<u8>) -> (k: PathKind)
        requires
            self.inv(),
        ensures
            self.reliable() ==> k == spec_classify(self.dirs(), self.files(), path@),
    ;
}

/// Whether an association list holds a key.
pub open spec fn assoc_has<V>(s: Seq<(Vec<u8>, V)>, k: Seq<u8>) -> bool {
    exists|i: int| 0 <= i < s.len() && s[i].0@ == k
}

/// The value an association list holds for a key.
pub open spec fn assoc_val<V>(s: Seq<(Vec<u8>, V)>, k: Seq<u8>) -> V {
    let i = choose|i: int| 0 <= i < s.len() && s[i].0@ == k;
    s[i].1
}

/// The deterministic in-memory filesystem: a list of files and a list
/// of directories, with unique paths.
pub struct MemFs {
    file_list: Vec<(Vec<u8>, Vec<u8>)>,
    dir_list: Vec<(Vec<u8>, Vec<Vec<u8>>)>,
}

/// A read handle onto an in-memory file.
pub struct MemFile {
    content: Vec<u8>,
}

impl File for MemFile {
    closed spec fn bytes(&self) -> Seq<u8> {
        self.content@
    }

    fn read_to_end(&mut self) -> (r: Vec<u8>) {
        slice_to_vec(self.content.as_slice())
    }
}

/// A producer over an in-memory directory's entry names.
pub struct MemDir {
    names: Vec<Vec<u8>>,
    at: usize,
}

impl Dir for MemDir {
    closed spec fn entries(&self) -> Seq<Seq<u8>> {
        self.names.deep_view()
    }

    closed spec fn pos(&self) -> int {
        self.at as int
    }

    open spec fn reliable(&self) -> bool {
        true
    }

    fn get_next(&mut self) -> (r: Result<Option<Vec<u8>>, FsError>) {
        if self.at < self.names.len() {
            let name = slice_to_vec(self.names[self.at].as_slice());
            self.at = self.at + 1;
            Ok(Some(name))
        } else {
            Ok(None)
        }
    }
}

impl MemFs {
    /// No path occurs twice within either list.
    pub closed spec fn wf(&self) -> bool {
        &&& forall|i: int, j: int|
            0 <= i < j < self.file_list@.len() ==> self.file_list@[i].0@ != self.file_list@[j].0@
        &&& forall|i: int, j: int|
            0 <= i < j < self.dir_list@.len() ==> self.dir_list@[i].0@ != self.dir_list@[j].0@
    }

    /// An empty filesystem.
    pub fn new() -> (r: Self)
        ensures
            r.wf(),
            r.files() == Map::<Seq<u8>, Seq<u8>>::empty(),
            r.dirs() == Map::<Seq<u8>, Seq<Seq<u8>>>::empty(),
    {
        let r = MemFs { file_list: Vec::new(), dir_list: Vec::new() };
        proof {
            assert(r.files() =~= Map::<Seq<u8>, Seq<u8>>::empty());
            assert(r.dirs() =~= Map::<Seq<u8>, Seq<Seq<u8>>>::empty());
        }
        r
    }

    /// Adds a file under a path not yet present.
    pub fn add_file(&mut self, path: Vec<u8>, content: Vec<u8>)
        requires
            old(self).wf(),
            !old(self).files().contains_key(path@),
        ensures
            final(self).wf(),
            final(self).files() == old(self).files().insert(path@, content@),
            final(self).dirs() == old(self).dirs(),
    {
        let ghost old_fs = *self;
        let ghost p = path@;
        let ghost c = content@;
        self.file_list.push((path, content));
        proof {
            let m = self.file_list@.len() - 1;
            assert(self.file_list@[m].0@ == p);
            assert forall|x: int, y: int|
                0 <= x < y < self.file_list@.len() implies self.file_list@[x].0@
                != self.file_list@[y].0@ by {
                assert(self.file_list@[x] == old_fs.file_list@[x]);
                if y < m {
                    assert(self.file_list@[y] == old_fs.file_list@[y]);
                } else {
                    assert(assoc_has(old_fs.file_list@, old_fs.file_list@[x].0@));
                }
            }
            assert(self.wf());
            assert forall|k: Seq<u8>| true implies #[trigger] self.files().contains_key(k)
                == old_fs.files().insert(p, c).contains_key(k) by {
                if assoc_has(self.file_list@, k) {
                    let w = choose|w: int|
                        0 <= w < self.file_list@.len() && self.file_list@[w].0@ == k;
                    if w < m {
                        assert(assoc_has(old_fs.file_list@, k));
                    }
                }
                if assoc_has(old_fs.file_list@, k) {
                    let w = choose|w: int|
                        0 <= w < old_fs.file_list@.len() && old_fs.file_list@[w].0@ == k;
                    assert(self.file_list@[w].0@ == k);
                }
            }
            assert forall|k: Seq<u8>| self.files().contains_key(k) implies #[trigger] self.files()[k]
                == old_fs.files().insert(p, c)[k] by {
                let w = choose|w: int| 0 <= w < self.file_list@.len() && self.file_list@[w].0@ == k;
                self.lemma_file_at(w);
                if k == p {
                    assert(w == m);
                } else {
                    assert(w < m);
                    assert(old_fs.file_list@[w].0@ == k);
                    old_fs.lemma_file_at(w);
                }
            }
            assert(self.files() =~= old_fs.files().insert(p, c));
            assert(self.dirs() =~= old_fs.dirs());
        }
    }

    /// Adds a directory under a path not yet present, with its entry
    /// names in listing order.
    pub fn add_dir(&mut self, path: Vec<u8>, names: Vec<Vec<u8>>)
        requires
            old(self).wf(),
            !old(self).dirs().contains_key(path@),
        ensures
            final(self).wf(),
            final(self).dirs() == old(self).dirs().insert(path@, names.deep_view()),
            final(self).files() == old(self).files(),
    {
        let ghost old_fs = *self;
        let ghost p = path@;
        let ghost e = names.deep_view();
        self.dir_list.push((path, names));
        proof {
            let m = self.dir_list@.len() - 1;
            assert(self.dir_list@[m].0@ == p);
            assert forall|x: int, y: int|
                0 <= x < y < self.dir_list@.len() implies self.dir_list@[x].0@
                != self.dir_list@[y].0@ by {
                assert(self.dir_list@[x] == old_fs.dir_list@[x]);
                if y < m {
                    assert(self.dir_list@[y] == old_fs.dir_list@[y]);
                } else {
                    assert(assoc_has(old_fs.dir_list@, old_fs.dir_list@[x].0@));
                }
            }
            assert(self.wf());
            assert forall|k: Seq<u8>| true implies #[trigger] self.dirs().contains_key(k)
                == old_fs.dirs().insert(p, e).contains_key(k) by {
                if assoc_has(self.dir_list@, k) {
                    let w = choose|w: int|
                        0 <= w < self.dir_list@.len() && self.dir_list@[w].0@ == k;
                    if w < m {
                        assert(assoc_has(old_fs.dir_list@, k));
                    }
                }
                if assoc_has(old_fs.dir_list@, k) {
                    let w = choose|w: int|
                        0 <= w < old_fs.dir_list@.len() && old_fs.dir_list@[w].0@ == k;
                    assert(self.dir_list@[w].0@ == k);
                }
            }
            assert forall|k: Seq<u8>| self.dirs().contains_key(k) implies #[trigger] self.dirs()[k]
                == old_fs.dirs().insert(p, e)[k] by {
                let w = choose|w: int| 0 <= w < self.dir_list@.len() && self.dir_list@[w].0@ == k;
                self.lemma_dir_at(w);
                if k == p {
                    assert(w == m);
                } else {
                    assert(w < m);
                    assert(old_fs.dir_list@[w].0@ == k);
                    old_fs.lemma_dir_at(w);
                }
            }
            assert(self.dirs() =~= old_fs.dirs().insert(p, e));
            assert(self.files() =~= old_fs.files());
        }
    }

    proof fn lemma_file_at(&self, i: int)
        requires
            self.wf(),
            0 <= i < self.file_list@.len(),
        ensures
            self.files().contains_key(self.file_list@[i].0@),
            self.files()[self.file_list@[i].0@] == self.file_list@[i].1@,
    {
        let k = self.file_list@[i].0@;
        let w = choose|j: int| 0 <= j < self.file_list@.len() && self.file_list@[j].0@ == k;
        assert(0 <= w < self.file_list@.len() && self.file_list@[w].0@ == k);
        if w != i {
            assert(false);
        }
    }

    proof fn lemma_dir_at(&self, i: int)
        requires
            self.wf(),
            0 <= i < self.dir_list@.len(),
        ensures
            self.dirs().contains_key(self.dir_list@[i].0@),
            self.dirs()[self.dir_list@[i].0@] == self.dir_list@[i].1.deep_view(),
    {
        let k = self.dir_list@[i].0@;
        let w = choose|j: int| 0 <= j < self.dir_list@.len() && self.dir_list@[j].0@ == k;
        assert(0 <= w < self.dir_list@.len() && self.dir_list@[w].0@ == k);
        if w != i {
            assert(false);
        }
    }

    fn find_file(&self, path: &Vec<u8>) -> (r: Option<usize>)
        requires
            self.wf(),
        ensures
            match r {
                Some(i) => i < self.file_list@.len() && self.file_list@[i as int].0@ == path@,
                None => !self.files().contains_key(path@),
            },
    {
        let n = self.file_list.len();
        let mut i: usize = 0;
        while i < n
            invariant
                i <= n,
                n == self.file_list@.len(),
                forall|j: int| 0 <= j < i ==> self.file_list@[j].0@ != path@,
            decreases n - i,
        {
            if crate::bytesutil::bytes_eq(self.file_list[i].0.as_slice(), path.as_slice()) {
                return Some(i);
            }
            i += 1;
        }
        None
    }

    fn find_dir(&self, path: &Vec<u8>) -> (r: Option<usize>)
        requires
            self.wf(),
        ensures
            match r {
                Some(i) => i < self.dir_list@.len() && self.dir_list@[i as int].0@ == path@,
                None => !self.dirs().contains_key(path@),
            },
    {
        let n = self.dir_list.len();
        let mut i: usize = 0;
        while i < n
            invariant
                i <= n,
                n == self.dir_list@.len(),
                forall|j: int| 0 <= j < i ==> self.dir_list@[j].0@ != path@,
            decreases n - i,
        {
            if crate::bytesutil::bytes_eq(self.dir_list[i].0.as_slice(), path.as_slice()) {
                return Some(i);
            }
            i += 1;
        }
        None
    }
}

impl FileSystemInterface for MemFs {
    type FileHandle = MemFile;

    type DirHandle = MemDir;

    open spec fn inv(&self) -> bool {
        self.wf()
    }

    closed spec fn files(&self) -> Map<Seq<u8>, Seq<u8>> {
        Map::new(
            |k: Seq<u8>| assoc_has(self.file_list@, k),
            |k: Seq<u8>| assoc_val(self.file_list@, k)@,
        )
    }

    closed spec fn dirs(&self) -> Map<Seq<u8>, Seq<Seq<u8>>> {
        Map::new(
            |k: Seq<u8>| assoc_has(self.dir_list@, k),
            |k: Seq<u8>| assoc_val(self.dir_list@, k).deep_view(),
        )
    }

    open spec fn reliable(&self) -> bool {
        true
    }

    fn get_file(&self, path: &Vec<u8>) -> (r: Result<MemFile, FsError>) {
        match self.find_file(path) {
            Some(i) => {
                proof {
                    self.lemma_file_at(i as int);
                }
                Ok(MemFile { content: slice_to_vec(self.file_list[i].1.as_slice()) })
            },
            None => Err(FsError),
        }
    }

    fn get_dir(&self, path: &Vec<u8>) -> (r: Result<MemDir, FsError>) {
        match self.find_dir(path) {
            Some(i) => {
                proof {
                    self.lemma_dir_at(i as int);
                }
                let pairs = &self.dir_list[i];
                let n = pairs.1.len();
                let mut names: Vec<Vec<u8>> = Vec::new();
                let mut j: usize = 0;
                while j < n
                    invariant
                        j <= n,
                        n == pairs.1@.len(),
                        names.deep_view() =~~= pairs.1.deep_view().take(j as int),
                    decreases n - j,
                {
                    names.push(slice_to_vec(pairs.1[j].as_slice()));
                    assert(names.deep_view() =~~= pairs.1.deep_view().take(j as int + 1));
                    j += 1;
                }
                assert(names.deep_view() =~~= pairs.1.deep_view());
                Ok(MemDir { names, at: 0 })
            },
            None => Err(FsError),
        }
    }

    fn classify(&self, path: &Vec<u8>) -> (k: PathKind) {
        match self.find_dir(path) {
            Some(i) => {
                proof {
                    self.lemma_dir_at(i as int);
                }
                PathKind::Directory
            },
            None => match self.find_file(path) {
                Some(i) => {
                    proof {
                        self.lemma_file_at(i as int);
                    }
                    PathKind::RegularFile
                },
                None => PathKind::Missing,
            },
        }
    }
}

} // verus!
