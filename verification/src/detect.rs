//! The change detector: raw filesystem notifications come in, and
//! root-relative change events go out, deduplicated by content hash.
//! A notification passes only if its kind is relevant, its file could
//! be read, its canonical path lies under the watched root, and the
//! content's hash differs from the last one observed for that path.

use vstd::prelude::*;
use vstd::slice::slice_to_vec;

use crate::bytesutil::bytes_eq;

verus! {

/// The BLAKE3 digest of a byte sequence, a function of the bytes
/// alone.
pub uninterp spec fn blake3_of(bytes: Seq<u8>) -> Seq<u8>;

/// Relies on `blake3::hash`: the 32-byte BLAKE3 digest of the input,
/// a function of the input bytes alone.
#[verifier::external_body]
fn content_hash(bytes: &Vec<u8>) -> (r: Vec<u8>)
    ensures
        r@ == blake3_of(bytes@),
        r@.len() == 32,
{
    blake3::hash(bytes.as_slice()).as_bytes().to_vec()
}

/// The kind of a raw filesystem notification, as far as the detector
/// cares: a created file, a renamed entry, changed data, or anything
/// else.
#[derive(Clone, Copy, Debug, PartialEq, Eq, Structural)]
pub enum FsEventKind {
    FileCreated,
    NameModified,
    DataModified,
    Other,
}

/// Only created files, renames and data changes are considered.
pub open spec fn spec_kind_relevant(k: FsEventKind) -> bool {
    k is FileCreated || k is NameModified || k is DataModified
}

/// Decides whether a notification kind is considered at all.
pub fn kind_relevant(k: FsEventKind) -> (r: bool)
    ensures
        r == spec_kind_relevant(k),
{
    match k {
        FsEventKind::FileCreated => true,
        FsEventKind::NameModified => true,
        FsEventKind::DataModified => true,
        FsEventKind::Other => false,
    }
}

/// The root-relative remainder of a canonical path: the bytes after
/// the root and one separator, if the path lies under the root.
pub open spec fn spec_strip(root: Seq<u8>, path: Seq<u8>) -> Option<Seq<u8>> {
    if path.len() > root.len() && path.take(root.len() as int) == root && path[root.len() as int]
        == 47 {
        Some(path.skip(root.len() as int + 1))
    } else {
        None
    }
}

/// Strips the watched root and its separator off a canonical path;
/// nothing if the path does not lie under the root.
pub fn strip_root(root: &Vec<u8>, path: &Vec<u8>) -> (r: Option<Vec<u8>>)
    ensures
        match r {
            Some(rel) => spec_strip(root@, path@) == Some(rel@),
            None => spec_strip(root@, path@) is None,
        },
{
    if path.len() <= root.len() {
        return None;
    }
    let mut i: usize = 0;
    while i < root.len()
        invariant
            i <= root.len(),
            root.len() < path.len(),
            forall|j: int| 0 <= j < i ==> path@[j] == root@[j],
        decreases root.len() - i,
    {
        if path[i] != root[i] {
            assert(path@.take(root@.len() as int)[i as int] != root@[i as int]);
            return None;
        }
        i += 1;
    }
    assert(path@.take(root@.len() as int) =~= root@);
    if path[root.len()] != 47 {
        return None;
    }
    let mut rel: Vec<u8> = Vec::new();
    let mut j: usize = root.len() + 1;
    while j < path.len()
        invariant
            root.len() + 1 <= j <= path.len(),
            rel@ == path@.subrange(root@.len() as int + 1, j as int),
        decreases path.len() - j,
    {
        rel.push(path[j]);
        assert(rel@ =~= path@.subrange(root@.len() as int + 1, j as int + 1));
        j += 1;
    }
    assert(rel@ =~= path@.skip(root@.len() as int + 1));
    Some(rel)
}

/// What one observation does to the table: the path now maps to the
/// content's hash.
pub open spec fn spec_table_after(
    m: Map<Seq<u8>, Seq<u8>>,
    path: Seq<u8>,
    content: Seq<u8>,
) -> Map<Seq<u8>, Seq<u8>> {
    m.insert(path, blake3_of(content))
}

/// Whether one observation emits an event: the path is new to the
/// table, or its stored hash differs from the content's.
pub open spec fn spec_emits(m: Map<Seq<u8>, Seq<u8>>, path: Seq<u8>, content: Seq<u8>) -> bool {
    !m.contains_key(path) || m[path] != blake3_of(content)
}

/// The table of last-observed content hashes, keyed by canonical
/// path. Owned and mutated by the detector alone.
pub struct FileHashTable {
    entries: Vec<(Vec<u8>, Vec<u8>)>,
}

impl FileHashTable {
    /// No key occurs twice.
    pub closed spec fn wf(&self) -> bool {
        forall|i: int, j: int|
            0 <= i < j < self.entries@.len() ==> self.entries@[i].0@ != self.entries@[j].0@
    }

    spec fn contains_key(&self, k: Seq<u8>) -> bool {
        exists|i: int| 0 <= i < self.entries@.len() && self.entries@[i].0@ == k
    }

    spec fn stored(&self, k: Seq<u8>) -> Seq<u8> {
        let i = choose|i: int| 0 <= i < self.entries@.len() && self.entries@[i].0@ == k;
        self.entries@[i].1@
    }

    /// The mapping the table holds, from canonical path to the hash
    /// last observed there.
    pub closed spec fn map(&self) -> Map<Seq<u8>, Seq<u8>> {
        Map::new(|k: Seq<u8>| self.contains_key(k), |k: Seq<u8>| self.stored(k))
    }

    proof fn lemma_stored_at(&self, i: int)
        requires
            self.wf(),
            0 <= i < self.entries@.len(),
        ensures
            self.map().contains_key(self.entries@[i].0@),
            self.map()[self.entries@[i].0@] == self.entries@[i].1@,
    {
        let k = self.entries@[i].0@;
        let w = choose|j: int| 0 <= j < self.entries@.len() && self.entries@[j].0@ == k;
        assert(0 <= w < self.entries@.len() && self.entries@[w].0@ == k);
        if w != i {
            assert(false);
        }
    }

    /// An empty table.
    pub fn new() -> (r: Self)
        ensures
            r.wf(),
            r.map() == Map::<Seq<u8>, Seq<u8>>::empty(),
    {
        let r = FileHashTable { entries: Vec::new() };
        proof {
            assert(r.map() =~= Map::<Seq<u8>, Seq<u8>>::empty());
        }
        r
    }

    /// Consults and updates the table for one readable file: an
    /// absent path is inserted and emits, an unchanged hash is
    /// suppressed, a changed hash is updated and emits.
    pub fn observe(&mut self, path: &Vec<u8>, content: &Vec<u8>) -> (emit: bool)
        requires
            old(self).wf(),
        ensures
            final(self).wf(),
            emit == spec_emits(old(self).map(), path@, content@),
            final(self).map() == spec_table_after(old(self).map(), path@, content@),
    {
        let h = content_hash(content);
        let n = self.entries.len();
        let mut i: usize = 0;
        while i < n
            invariant
                i <= n,
                n == self.entries@.len(),
                *self == *old(self),
                self.wf(),
                h@ == blake3_of(content@),
                forall|j: int| 0 <= j < i ==> self.entries@[j].0@ != path@,
            decreases n - i,
        {
            if bytes_eq(self.entries[i].0.as_slice(), path.as_slice()) {
                proof {
                    self.lemma_stored_at(i as int);
                }
                if bytes_eq(self.entries[i].1.as_slice(), h.as_slice()) {
                    proof {
                        assert(self.map() =~= spec_table_after(self.map(), path@, content@));
                    }
                    return false;
                } else {
                    let ghost old_table = *self;
                    self.entries[i].1 = h;
                    proof {
                        assert forall|x: int, y: int|
                            0 <= x < y < self.entries@.len() implies self.entries@[x].0@
                            != self.entries@[y].0@ by {
                            assert(self.entries@[x].0@ == old_table.entries@[x].0@);
                            assert(self.entries@[y].0@ == old_table.entries@[y].0@);
                        }
                        assert(self.wf());
                        assert forall|k: Seq<u8>| #[trigger]
                            self.contains_key(k) == old_table.map().insert(
                                path@,
                                blake3_of(content@),
                            ).contains_key(k) by {
                            if self.contains_key(k) {
                                let w = choose|w: int|
                                    0 <= w < self.entries@.len() && self.entries@[w].0@ == k;
                                assert(old_table.entries@[w].0@ == k);
                            }
                            if old_table.contains_key(k) {
                                let w = choose|w: int|
                                    0 <= w < old_table.entries@.len()
                                        && old_table.entries@[w].0@ == k;
                                assert(self.entries@[w].0@ == k);
                            }
                        }
                        assert forall|k: Seq<u8>| self.contains_key(k) implies #[trigger] self.map()[k]
                            == old_table.map().insert(path@, blake3_of(content@))[k] by {
                            let w = choose|w: int|
                                0 <= w < self.entries@.len() && self.entries@[w].0@ == k;
                            self.lemma_stored_at(w);
                            if k == path@ {
                                assert(w == i as int);
                            } else {
                                assert(old_table.entries@[w].0@ == k);
                                old_table.lemma_stored_at(w);
                            }
                        }
                        assert(self.map() =~= old_table.map().insert(path@, blake3_of(content@)));
                    }
                    return true;
                }
            }
            i += 1;
        }
        let ghost old_table = *self;
        let key = slice_to_vec(path.as_slice());
        self.entries.push((key, h));
        proof {
            assert(!old_table.contains_key(path@));
            let m = self.entries@.len() - 1;
            assert(self.entries@[m].0@ == path@);
            assert forall|x: int, y: int|
                0 <= x < y < self.entries@.len() implies self.entries@[x].0@
                != self.entries@[y].0@ by {
                if y < m {
                    assert(self.entries@[x].0@ == old_table.entries@[x].0@);
                    assert(self.entries@[y].0@ == old_table.entries@[y].0@);
                } else {
                    assert(self.entries@[x].0@ == old_table.entries@[x].0@);
                    assert(old_table.entries@[x].0@ != path@);
                }
            }
            assert(self.wf());
            assert forall|k: Seq<u8>| #[trigger]
                self.contains_key(k) == old_table.map().insert(
                    path@,
                    blake3_of(content@),
                ).contains_key(k) by {
                if self.contains_key(k) {
                    let w = choose|w: int|
                        0 <= w < self.entries@.len() && self.entries@[w].0@ == k;
                    if w < m {
                        assert(old_table.entries@[w].0@ == k);
                    }
                }
                if old_table.contains_key(k) {
                    let w = choose|w: int|
                        0 <= w < old_table.entries@.len() && old_table.entries@[w].0@ == k;
                    assert(self.entries@[w].0@ == k);
                }
            }
            assert forall|k: Seq<u8>| self.contains_key(k) implies #[trigger] self.map()[k]
                == old_table.map().insert(path@, blake3_of(content@))[k] by {
                let w = choose|w: int| 0 <= w < self.entries@.len() && self.entries@[w].0@ == k;
                self.lemma_stored_at(w);
                if k == path@ {
                    assert(w == m);
                } else {
                    assert(w < m);
                    assert(old_table.entries@[w].0@ == k);
                    old_table.lemma_stored_at(w);
                }
            }
            assert(self.map() =~= old_table.map().insert(path@, blake3_of(content@)));
        }
        true
    }
}

/// One full detector step for one raw notification. The surrounding
/// watcher reads the file and canonicalizes the path; this decides
/// everything else: an irrelevant kind, an unreadable file or a path
/// outside the root changes nothing and emits nothing; otherwise the
/// table is consulted and the root-relative path is emitted exactly
/// when the content's hash is new for that path.
pub fn detector_step(
    table: &mut FileHashTable,
    kind: FsEventKind,
    canon_path: &Vec<u8>,
    root: &Vec<u8>,
    content: Option<Vec<u8>>,
) -> (r: Option<Vec<u8>>)
    requires
        old(table).wf(),
    ensures
        final(table).wf(),
        !spec_kind_relevant(kind) || content is None || spec_strip(root@, canon_path@) is None
            ==> *final(table) == *old(table) && r is None,
        spec_kind_relevant(kind) && content is Some && spec_strip(root@, canon_path@) is Some
            ==> {
            let c = content.unwrap()@;
            let rel = spec_strip(root@, canon_path@).unwrap();
            &&& final(table).map() == spec_table_after(old(table).map(), canon_path@, c)
            &&& (if spec_emits(old(table).map(), canon_path@, c) {
                r matches Some(p) && p@ == rel
            } else {
                r is None
            })
        },
{
    if !kind_relevant(kind) {
        return None;
    }
    let c = match content {
        Some(c) => c,
        None => {
            return None;
        },
    };
    let rel = match strip_root(root, canon_path) {
        Some(rel) => rel,
        None => {
            return None;
        },
    };
    if table.observe(canon_path, &c) {
        Some(rel)
    } else {
        None
    }
}

/// The events that a sequence of writes to one path produces,
/// starting from table state `m`: one boolean per write, each
/// observation updating the table as [`FileHashTable::observe`] does.
pub open spec fn spec_emit_seq(
    m: Map<Seq<u8>, Seq<u8>>,
    path: Seq<u8>,
    writes: Seq<Seq<u8>>,
) -> Seq<bool>
    decreases writes.len(),
{
    if writes.len() == 0 {
        Seq::empty()
    } else {
        seq![spec_emits(m, path, writes[0])] + spec_emit_seq(
            spec_table_after(m, path, writes[0]),
            path,
            writes.skip(1),
        )
    }
}

/// For every sequence of writes to one watched file, a change event
/// fires exactly once per write whose content hash differs from the
/// hash last observed: the first write emits exactly when its hash is
/// new for the path, every later write emits exactly when its hash
/// differs from the previous write's — so rewriting identical bytes
/// fires zero events.
pub proof fn lemma_dedup_sequence(m: Map<Seq<u8>, Seq<u8>>, path: Seq<u8>, writes: Seq<Seq<u8>>)
    ensures
        spec_emit_seq(m, path, writes).len() == writes.len(),
        writes.len() > 0 ==> spec_emit_seq(m, path, writes)[0] == spec_emits(m, path, writes[0]),
        forall|i: int|
            0 < i < writes.len() ==> spec_emit_seq(m, path, writes)[i] == (blake3_of(writes[i])
                != blake3_of(writes[i - 1])),
    decreases writes.len(),
{
    if writes.len() > 0 {
        let m1 = spec_table_after(m, path, writes[0]);
        let w1 = writes.skip(1);
        lemma_dedup_sequence(m1, path, w1);
        assert forall|i: int| 0 < i < writes.len() implies spec_emit_seq(m, path, writes)[i] == (
        blake3_of(writes[i]) != blake3_of(writes[i - 1])) by {
            assert(spec_emit_seq(m, path, writes)[i] == spec_emit_seq(m1, path, w1)[i - 1]);
            if i == 1 {
                assert(m1.contains_key(path) && m1[path] == blake3_of(writes[0]));
                assert(spec_emit_seq(m1, path, w1)[0] == spec_emits(m1, path, w1[0]));
                assert(w1[0] == writes[1]);
            } else {
                assert(w1[i - 1] == writes[i]);
                assert(w1[i - 2] == writes[i - 1]);
            }
        }
    }
}

} // verus!
