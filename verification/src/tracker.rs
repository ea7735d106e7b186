//! File tracker: owns the mapping from path to last-known fingerprint
//! (content hash, modification time, size) and decides whether a path has
//! genuinely changed, hashing only when cheap metadata differs.

use vstd::prelude::*;
use crate::models::FileMetadata;
use crate::digest::{blake3_hex, blake3_hex_of};
use crate::watcher::{should_ignore, spec_should_ignore};

verus! {

/// One file as observed on disk: its path, cheap metadata and content.
/// The caller reads these at the filesystem edge and hands them in.
pub struct ObservedFile {
    pub path: String,
    pub size: u64,
    pub modified: u64,
    pub content: Vec<u8>,
}

/// The fingerprint a metadata record denotes: (hash, modified, size).
pub open spec fn entry_fp(e: FileMetadata) -> (Seq<char>, u64, u64) {
    (e.hash@, e.last_modified, e.size)
}

/// The mapping from path to fingerprint that a sequence of records denotes.
pub open spec fn fp_map_of(entries: Seq<FileMetadata>) -> Map<Seq<char>, (Seq<char>, u64, u64)>
    decreases entries.len(),
{
    if entries.len() == 0 {
        Map::empty()
    } else {
        fp_map_of(entries.drop_last()).insert(entries.last().path@, entry_fp(entries.last()))
    }
}

/// No two records fingerprint the same path.
pub open spec fn paths_unique(entries: Seq<FileMetadata>) -> bool {
    forall|i: int, j: int|
        0 <= i < j < entries.len() ==> (#[trigger] entries[i]).path@ != (#[trigger] entries[j]).path@
}

proof fn lemma_fp_map_domain(entries: Seq<FileMetadata>)
    ensures
        forall|p: Seq<char>|
            #[trigger] fp_map_of(entries).contains_key(p) <==> (exists|i: int|
                0 <= i < entries.len() && (#[trigger] entries[i]).path@ == p),
    decreases entries.len(),
{
    if entries.len() > 0 {
        lemma_fp_map_domain(entries.drop_last());
        assert forall|p: Seq<char>| #[trigger]
            fp_map_of(entries).contains_key(p) implies (exists|i: int|
            0 <= i < entries.len() && (#[trigger] entries[i]).path@ == p) by {
            if p == entries.last().path@ {
                assert(entries[entries.len() - 1].path@ == p);
            } else {
                assert(fp_map_of(entries.drop_last()).contains_key(p));
                let i = choose|i: int|
                    0 <= i < entries.drop_last().len() && (#[trigger] entries.drop_last()[i]).path@
                        == p;
                assert(entries[i].path@ == p);
            }
        }
        assert forall|p: Seq<char>|
            (exists|i: int|
                0 <= i < entries.len() && (#[trigger] entries[i]).path@
                    == p) implies #[trigger] fp_map_of(entries).contains_key(p) by {
            let i = choose|i: int| 0 <= i < entries.len() && (#[trigger] entries[i]).path@ == p;
            if i < entries.len() - 1 {
                assert(entries.drop_last()[i].path@ == p);
                assert(fp_map_of(entries.drop_last()).contains_key(p));
            }
        }
    }
}

proof fn lemma_fp_map_index(entries: Seq<FileMetadata>, i: int)
    requires
        paths_unique(entries),
        0 <= i < entries.len(),
    ensures
        fp_map_of(entries).contains_key(entries[i].path@),
        fp_map_of(entries)[entries[i].path@] == entry_fp(entries[i]),
    decreases entries.len(),
{
    lemma_fp_map_domain(entries);
    if i < entries.len() - 1 {
        assert(entries.last().path@ != entries[i].path@);
        assert(entries.drop_last()[i] == entries[i]);
        lemma_fp_map_index(entries.drop_last(), i);
    }
}

proof fn lemma_fp_map_update(entries: Seq<FileMetadata>, i: int, e: FileMetadata)
    requires
        paths_unique(entries),
        0 <= i < entries.len(),
        e.path@ == entries[i].path@,
    ensures
        paths_unique(entries.update(i, e)),
        fp_map_of(entries.update(i, e)) =~= fp_map_of(entries).insert(e.path@, entry_fp(e)),
    decreases entries.len(),
{
    let upd = entries.update(i, e);
    assert forall|a: int, b: int| 0 <= a < b < upd.len() implies (#[trigger] upd[a]).path@ != (
    #[trigger] upd[b]).path@ by {
        assert(entries[a].path@ != entries[b].path@);
    }
    if i == entries.len() - 1 {
        assert(upd.drop_last() =~= entries.drop_last());
        assert(upd.last() == e);
    } else {
        lemma_fp_map_update(entries.drop_last(), i, e);
        assert(upd.drop_last() =~= entries.drop_last().update(i, e));
        assert(upd.last() == entries.last());
        assert(entries.last().path@ != e.path@);
    }
}

proof fn lemma_fp_map_remove(entries: Seq<FileMetadata>, i: int)
    requires
        paths_unique(entries),
        0 <= i < entries.len(),
    ensures
        paths_unique(entries.remove(i)),
        fp_map_of(entries.remove(i)) =~= fp_map_of(entries).remove(entries[i].path@),
    decreases entries.len(),
{
    let rem = entries.remove(i);
    assert forall|a: int, b: int| 0 <= a < b < rem.len() implies (#[trigger] rem[a]).path@ != (
    #[trigger] rem[b]).path@ by {
        let a0 = if a < i { a } else { a + 1 };
        let b0 = if b < i { b } else { b + 1 };
        assert(rem[a] == entries[a0]);
        assert(rem[b] == entries[b0]);
        assert(entries[a0].path@ != entries[b0].path@);
    }
    if i == entries.len() - 1 {
        assert(rem =~= entries.drop_last());
        lemma_fp_map_domain(entries.drop_last());
        assert forall|j: int| 0 <= j < entries.len() - 1 implies (#[trigger] entries.drop_last()[j]).path@
            != entries[i].path@ by {
            assert(entries.drop_last()[j] == entries[j]);
        }
        assert(!fp_map_of(entries.drop_last()).contains_key(entries[i].path@));
    } else {
        lemma_fp_map_remove(entries.drop_last(), i);
        assert(rem.drop_last() =~= entries.drop_last().remove(i));
        assert(rem.last() == entries.last());
        assert(entries.last().path@ != entries[i].path@);
    }
}

/// Does the tracker confirm a genuine change for this observation?
/// Untracked paths are always changes; identical cheap metadata is never a
/// change (fast path, no hashing); otherwise the content digests decide.
pub open spec fn spec_confirms_change(
    m: Map<Seq<char>, (Seq<char>, u64, u64)>,
    p: Seq<char>,
    size: u64,
    modified: u64,
    h: Seq<char>,
) -> bool {
    if !m.contains_key(p) {
        true
    } else if m[p].1 == modified && m[p].2 == size {
        false
    } else {
        m[p].0 != h
    }
}

/// The mapping after recording one observation: new fingerprints are
/// inserted wholesale; on metadata drift with unchanged content only the
/// metadata is refreshed; the metadata fast path leaves the map untouched.
pub open spec fn spec_record(
    m: Map<Seq<char>, (Seq<char>, u64, u64)>,
    p: Seq<char>,
    size: u64,
    modified: u64,
    h: Seq<char>,
) -> Map<Seq<char>, (Seq<char>, u64, u64)> {
    if !m.contains_key(p) {
        m.insert(p, (h, modified, size))
    } else if m[p].1 == modified && m[p].2 == size {
        m
    } else {
        m.insert(p, (h, modified, size))
    }
}

/// The mapping after scanning a listing left to right, skipping ignored
/// paths and recording every other observation.
pub open spec fn spec_scan(
    m: Map<Seq<char>, (Seq<char>, u64, u64)>,
    files: Seq<ObservedFile>,
    patterns: Seq<String>,
) -> Map<Seq<char>, (Seq<char>, u64, u64)>
    decreases files.len(),
{
    if files.len() == 0 {
        m
    } else if spec_should_ignore(files[0].path@, patterns) {
        spec_scan(m, files.drop_first(), patterns)
    } else {
        spec_scan(
            spec_record(
                m,
                files[0].path@,
                files[0].size,
                files[0].modified,
                crate::digest::blake3_hex_of(files[0].content@),
            ),
            files.drop_first(),
            patterns,
        )
    }
}

/// The paths a scan reports as changed, in listing order.
pub open spec fn spec_scan_changed(
    m: Map<Seq<char>, (Seq<char>, u64, u64)>,
    files: Seq<ObservedFile>,
    patterns: Seq<String>,
) -> Seq<Seq<char>>
    decreases files.len(),
{
    if files.len() == 0 {
        Seq::empty()
    } else if spec_should_ignore(files[0].path@, patterns) {
        spec_scan_changed(m, files.drop_first(), patterns)
    } else {
        let h = crate::digest::blake3_hex_of(files[0].content@);
        let m2 = spec_record(m, files[0].path@, files[0].size, files[0].modified, h);
        if spec_confirms_change(m, files[0].path@, files[0].size, files[0].modified, h) {
            seq![files[0].path@] + spec_scan_changed(m2, files.drop_first(), patterns)
        } else {
            spec_scan_changed(m2, files.drop_first(), patterns)
        }
    }
}

/// A scan never fingerprints an ignored path: if the path was untracked
/// before, it stays untracked whatever the listing holds.
pub proof fn lemma_scan_ignores_path(
    m: Map<Seq<char>, (Seq<char>, u64, u64)>,
    files: Seq<ObservedFile>,
    patterns: Seq<String>,
    p: Seq<char>,
)
    requires
        spec_should_ignore(p, patterns),
        !m.contains_key(p),
    ensures
        !spec_scan(m, files, patterns).contains_key(p),
    decreases files.len(),
{
    if files.len() > 0 {
        if spec_should_ignore(files[0].path@, patterns) {
            lemma_scan_ignores_path(m, files.drop_first(), patterns, p);
        } else {
            let h = crate::digest::blake3_hex_of(files[0].content@);
            let m2 = spec_record(m, files[0].path@, files[0].size, files[0].modified, h);
            assert(files[0].path@ != p);
            assert(!m2.contains_key(p));
            lemma_scan_ignores_path(m2, files.drop_first(), patterns, p);
        }
    }
}

/// Change detection correctness: for a tracked fingerprint, touching the
/// modification time without altering the content is not a change, and an
/// observation whose content digest differs from the stored one is.
pub proof fn lemma_change_detection(
    m: Map<Seq<char>, (Seq<char>, u64, u64)>,
    p: Seq<char>,
    size: u64,
    t_old: u64,
    t_new: u64,
    c_old: Seq<u8>,
    c_new: Seq<u8>,
)
    requires
        m.contains_key(p),
        m[p].0 == crate::digest::blake3_hex_of(c_old),
        m[p].1 == t_old,
        m[p].2 == size,
    ensures
        !spec_confirms_change(m, p, size, t_new, crate::digest::blake3_hex_of(c_old)),
        t_new != t_old && crate::digest::blake3_hex_of(c_new) != crate::digest::blake3_hex_of(
            c_old,
        ) ==> spec_confirms_change(m, p, size, t_new, crate::digest::blake3_hex_of(c_new)),
{
}

/// Tracks files of one repository by content fingerprint.
/// It is the single writer of the fingerprint mapping.
pub struct FileTracker {
    repository_path: String,
    repository_id: String,
    owner_id: String,
    entries: Vec<FileMetadata>,
}

impl View for FileTracker {
    type V = Map<Seq<char>, (Seq<char>, u64, u64)>;

    closed spec fn view(&self) -> Map<Seq<char>, (Seq<char>, u64, u64)> {
        fp_map_of(self.entries@)
    }
}

impl FileTracker {
    /// The tracker's records never fingerprint one path twice.
    pub closed spec fn wf(&self) -> bool {
        paths_unique(self.entries@)
    }

    /// The repository root this tracker serves.
    pub closed spec fn spec_repository_path(&self) -> Seq<char> {
        self.repository_path@
    }

    /// Creates an empty tracker for a repository.
    pub fn new(repository_path: String, repository_id: String, owner_id: String) -> (r:
        FileTracker)
        ensures
            r.wf(),
            r@ =~= Map::<Seq<char>, (Seq<char>, u64, u64)>::empty(),
            r.spec_repository_path() == repository_path@,
    {
        FileTracker { repository_path, repository_id, owner_id, entries: Vec::new() }
    }

    /// Index of the record for `path`, if one exists.
    fn find_entry(&self, path: &String) -> (r: Option<usize>)
        ensures
            match r {
                Some(i) => i < self.entries@.len() && self.entries@[i as int].path@ == path@,
                None => forall|j: int|
                    0 <= j < self.entries@.len() ==> (#[trigger] self.entries@[j]).path@ != path@,
            },
    {
        let n = self.entries.len();
        let mut i: usize = 0;
        while i < n
            invariant
                n == self.entries@.len(),
                i <= n,
                forall|j: int| 0 <= j < i ==> (#[trigger] self.entries@[j]).path@ != path@,
            decreases n - i,
        {
            if self.entries[i].path == *path {
                return Some(i);
            }
            i = i + 1;
        }
        None
    }

    /// Records one observation of a path: confirms whether it genuinely
    /// changed and updates the stored fingerprint accordingly.
    pub fn update_file(&mut self, path: &String, size: u64, modified: u64, content: &[u8]) -> (
        changed: bool)
        requires
            old(self).wf(),
        ensures
            final(self).wf(),
            changed == spec_confirms_change(
                old(self)@,
                path@,
                size,
                modified,
                blake3_hex_of(content@),
            ),
            final(self)@ =~= spec_record(
                old(self)@,
                path@,
                size,
                modified,
                blake3_hex_of(content@),
            ),
            final(self).spec_repository_path() == old(self).spec_repository_path(),
    {
        proof {
            lemma_fp_map_domain(self.entries@);
        }
        match self.find_entry(path) {
            None => {
                let hash = blake3_hex(content);
                let e = FileMetadata { path: path.clone(), hash, last_modified: modified, size };
                proof {
                    let s = self.entries@;
                    assert(s.push(e).drop_last() =~= s);
                    assert forall|a: int, b: int|
                        0 <= a < b < s.push(e).len() implies (#[trigger] s.push(e)[a]).path@ != (
                    #[trigger] s.push(e)[b]).path@ by {
                        if b < s.len() {
                            assert(s[a].path@ != s[b].path@);
                        } else {
                            assert(s.push(e)[b] == e);
                            assert(s[a].path@ != path@);
                        }
                    }
                }
                self.entries.push(e);
                true
            },
            Some(i) => {
                proof {
                    lemma_fp_map_index(self.entries@, i as int);
                }
                if self.entries[i].last_modified == modified && self.entries[i].size == size {
                    return false;
                }
                let hash = blake3_hex(content);
                let unchanged = hash == self.entries[i].hash;
                let e = FileMetadata { path: path.clone(), hash, last_modified: modified, size };
                proof {
                    lemma_fp_map_update(self.entries@, i as int, e);
                }
                self.entries.set(i, e);
                !unchanged
            },
        }
    }

    /// Evicts the fingerprint of a deleted path. The graph-side deletion
    /// is the caller's responsibility.
    pub fn remove_file(&mut self, path: &String)
        requires
            old(self).wf(),
        ensures
            final(self).wf(),
            final(self)@ =~= old(self)@.remove(path@),
            final(self).spec_repository_path() == old(self).spec_repository_path(),
    {
        proof {
            lemma_fp_map_domain(self.entries@);
        }
        match self.find_entry(path) {
            None => {
                proof {
                    assert(!old(self)@.contains_key(path@));
                    assert(old(self)@.remove(path@) =~= old(self)@);
                }
            },
            Some(i) => {
                proof {
                    lemma_fp_map_remove(self.entries@, i as int);
                }
                self.entries.remove(i);
            },
        }
    }

    /// Moves a fingerprint from one path to another without recomputing
    /// it. The caller triggers the graph-side path update.
    pub fn rename_file(&mut self, from_path: &String, to_path: &String)
        requires
            old(self).wf(),
        ensures
            final(self).wf(),
            old(self)@.contains_key(from_path@) ==> final(self)@ =~= old(self)@.remove(
                from_path@,
            ).insert(to_path@, old(self)@[from_path@]),
            !old(self)@.contains_key(from_path@) ==> final(self)@ =~= old(self)@,
            final(self).spec_repository_path() == old(self).spec_repository_path(),
    {
        proof {
            lemma_fp_map_domain(self.entries@);
        }
        match self.find_entry(from_path) {
            None => {
                proof {
                    assert(!old(self)@.contains_key(from_path@));
                }
            },
            Some(i) => {
                proof {
                    lemma_fp_map_index(self.entries@, i as int);
                    lemma_fp_map_remove(self.entries@, i as int);
                }
                let e = FileMetadata {
                    path: to_path.clone(),
                    hash: self.entries[i].hash.clone(),
                    last_modified: self.entries[i].last_modified,
                    size: self.entries[i].size,
                };
                self.entries.remove(i);
                proof {
                    lemma_fp_map_domain(self.entries@);
                }
                match self.find_entry(to_path) {
                    None => {
                        proof {
                            let s = self.entries@;
                            assert(s.push(e).drop_last() =~= s);
                            assert forall|a: int, b: int|
                                0 <= a < b < s.push(e).len() implies (#[trigger] s.push(e)[a]).path@
                                != (#[trigger] s.push(e)[b]).path@ by {
                                if b < s.len() {
                                    assert(s[a].path@ != s[b].path@);
                                } else {
                                    assert(s.push(e)[b] == e);
                                    assert(s[a].path@ != to_path@);
                                }
                            }
                        }
                        self.entries.push(e);
                    },
                    Some(j) => {
                        proof {
                            lemma_fp_map_index(self.entries@, j as int);
                            lemma_fp_map_update(self.entries@, j as int, e);
                        }
                        self.entries.set(j, e);
                    },
                }
            },
        }
    }

    /// The stored content hash of a path, if the path is tracked.
    pub fn get_file_hash(&self, path: &String) -> (r: Option<String>)
        requires
            self.wf(),
        ensures
            match r {
                Some(h) => self@.contains_key(path@) && self@[path@].0 == h@,
                None => !self@.contains_key(path@),
            },
    {
        proof {
            lemma_fp_map_domain(self.entries@);
        }
        match self.find_entry(path) {
            None => None,
            Some(i) => {
                proof {
                    lemma_fp_map_index(self.entries@, i as int);
                }
                Some(self.entries[i].hash.clone())
            },
        }
    }

    /// Does this observation differ from the stored fingerprint?
    /// Pure query: the mapping is not touched; `update_file` records.
    pub fn has_file_changed(&self, path: &String, size: u64, modified: u64, content: &[u8]) -> (
        changed: bool)
        requires
            self.wf(),
        ensures
            changed == spec_confirms_change(self@, path@, size, modified, blake3_hex_of(content@)),
    {
        proof {
            lemma_fp_map_domain(self.entries@);
        }
        match self.find_entry(path) {
            None => true,
            Some(i) => {
                proof {
                    lemma_fp_map_index(self.entries@, i as int);
                }
                if self.entries[i].last_modified == modified && self.entries[i].size == size {
                    return false;
                }
                let hash = blake3_hex(content);
                hash != self.entries[i].hash
            },
        }
    }

    /// All tracked paths, each exactly once, in no promised order.
    pub fn get_tracked_files(&self) -> (r: Vec<String>)
        requires
            self.wf(),
        ensures
            forall|i: int| 0 <= i < r@.len() ==> self@.contains_key((#[trigger] r@[i])@),
            forall|p: Seq<char>|
                #[trigger] self@.contains_key(p) ==> exists|i: int| 0 <= i < r@.len() && (
                #[trigger] r@[i])@ == p,
            forall|i: int, j: int| 0 <= i < j < r@.len() ==> (#[trigger] r@[i])@ != (
            #[trigger] r@[j])@,
    {
        proof {
            lemma_fp_map_domain(self.entries@);
        }
        let n = self.entries.len();
        let mut r: Vec<String> = Vec::new();
        let mut i: usize = 0;
        while i < n
            invariant
                self.wf(),
                n == self.entries@.len(),
                i <= n,
                r@.len() == i,
                forall|j: int| 0 <= j < i ==> (#[trigger] r@[j])@ == self.entries@[j].path@,
            decreases n - i,
        {
            r.push(self.entries[i].path.clone());
            i = i + 1;
        }
        proof {
            assert forall|p: Seq<char>| #[trigger]
                self@.contains_key(p) implies exists|i2: int|
                0 <= i2 < r@.len() && (#[trigger] r@[i2])@ == p by {
                let k = choose|k: int|
                    0 <= k < self.entries@.len() && (#[trigger] self.entries@[k]).path@ == p;
                assert(r@[k]@ == p);
            }
        }
        r
    }

    /// Scans a repository listing: records every file that is neither
    /// ignored nor unchanged and returns the paths confirmed as changed.
    pub fn scan_repository(&mut self, files: &Vec<ObservedFile>, patterns: &Vec<String>) -> (
        changed: Vec<String>)
        requires
            old(self).wf(),
        ensures
            final(self).wf(),
            final(self)@ =~= spec_scan(old(self)@, files@, patterns@),
            changed@.map_values(|s: String| s@) =~= spec_scan_changed(old(self)@, files@, patterns@),
            final(self).spec_repository_path() == old(self).spec_repository_path(),
    {
        let n = files.len();
        let mut changed: Vec<String> = Vec::new();
        let mut i: usize = 0;
        proof {
            assert(files@.skip(0) =~= files@);
        }
        while i < n
            invariant
                self.wf(),
                n == files@.len(),
                i <= n,
                spec_scan(old(self)@, files@, patterns@) == spec_scan(
                    self@,
                    files@.skip(i as int),
                    patterns@,
                ),
                spec_scan_changed(old(self)@, files@, patterns@) =~= changed@.map_values(
                    |s: String| s@,
                ) + spec_scan_changed(self@, files@.skip(i as int), patterns@),
                self.spec_repository_path() == old(self).spec_repository_path(),
            decreases n - i,
        {
            proof {
                assert(files@.skip(i as int)[0] == files@[i as int]);
                assert(files@.skip(i as int).drop_first() =~= files@.skip(i + 1));
            }
            let f = &files[i];
            if !should_ignore(&f.path, patterns) {
                let was_changed = self.update_file(&f.path, f.size, f.modified, f.content.as_slice());
                if was_changed {
                    let ghost prev = changed@.map_values(|s: String| s@);
                    changed.push(f.path.clone());
                    proof {
                        assert(changed@.map_values(|s: String| s@) =~= prev + seq![f.path@]);
                    }
                }
            }
            i = i + 1;
        }
        proof {
            assert(files@.skip(n as int).len() == 0);
        }
        changed
    }

    /// Initializes the tracker by scanning the repository listing once.
    pub fn initialize(&mut self, files: &Vec<ObservedFile>, patterns: &Vec<String>)
        requires
            old(self).wf(),
        ensures
            final(self).wf(),
            final(self)@ =~= spec_scan(old(self)@, files@, patterns@),
            final(self).spec_repository_path() == old(self).spec_repository_path(),
    {
        let _ = self.scan_repository(files, patterns);
    }
}

} // verus!
